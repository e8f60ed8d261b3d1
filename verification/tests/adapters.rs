use anki_util::dict::jmnedict_word::{
    self, Content, ContentNode, Glossary, JmnedictWord, StructuredContent,
};
use anki_util::dict::jitendex_word::{self, JitendexWord};
use anki_util::dict::jmnedict_frequency::{FrequencyData, JmnedictFrequency, Properties};
use anki_util::dict::kanjidic_kanji::KanjidicEntry;
use anki_util::dict::jmnedict_entry::JmnedictEntry;
use anki_util::dict::dict_parser::{convert_data, convert_word_data, KanjiTable};
use anki_util::json::Json;

fn text(s: &str) -> Content {
    Content::Text(s.to_owned())
}

fn node(content: Option<Content>, tag: Option<&str>, data_content: Option<&str>) -> Content {
    Content::Node(Box::new(ContentNode {
        content,
        tag: tag.map(|t| t.to_owned()),
        data_content: data_content.map(|d| d.to_owned()),
    }))
}

fn ruby(kanji: &str, kana: &str) -> Content {
    node(
        Some(Content::List(vec![text(kanji), text(kana)])),
        Some("ruby"),
        None,
    )
}

fn sorted(mut v: Vec<String>) -> Vec<String> {
    v.sort();
    v
}

#[test]
fn jmnedict_word_word() {
    let simple = |words: &[&str]| {
        Glossary::Array(
            words
                .iter()
                .map(|w| Glossary::Text((*w).to_owned()))
                .collect(),
        )
    };
    let data: Vec<JmnedictWord> = vec![
        JmnedictWord(
            "事務的".to_owned(),
            "じむてき".to_owned(),
            "adj-na".to_owned(),
            "".to_owned(),
            1999799,
            simple(&["impersonal", "perfunctory", "robot-like"]),
            1314450,
            "⭐ news12k".to_owned(),
        ),
        JmnedictWord(
            "事務当局".to_owned(),
            "じむとうきょく".to_owned(),
            "n".to_owned(),
            "".to_owned(),
            1999800,
            simple(&["officials in charge"]),
            1314460,
            "⭐ news10k".to_owned(),
        ),
        JmnedictWord(
            "事務服".to_owned(),
            "じむふく".to_owned(),
            "n".to_owned(),
            "".to_owned(),
            -200,
            simple(&["work clothes"]),
            1314470,
            "".to_owned(),
        ),
        JmnedictWord(
            "食べる".to_owned(),
            "たべる".to_owned(),
            "v1 vt".to_owned(),
            "".to_owned(),
            1999800,
            Glossary::Array(vec![
                Glossary::Text("to eat".to_owned()),
                Glossary::StructuredContent(StructuredContent {
                    content_type: "structured-content".to_owned(),
                    content: node(
                        Some(Content::List(vec![
                            text("もっと果物を食べるべきです。"),
                            text("You should eat more fruit."),
                        ])),
                        None,
                        Some("examples"),
                    ),
                }),
            ]),
            1358280,
            "⭐ ichi news13k".to_owned(),
        ),
    ];

    assert_eq!(data[0].kanji(), "事務的");
    assert_eq!(data[1].kanji(), "事務当局");
    assert_eq!(data[2].kanji(), "事務服");
    assert_eq!(data[3].kanji(), "食べる");

    assert_eq!(data[0].kana(), "じむてき");
    assert_eq!(data[1].kana(), "じむとうきょく");
    assert_eq!(data[2].kana(), "じむふく");
    assert_eq!(data[3].kana(), "たべる");

    assert_eq!(sorted(data[0].tags()), vec!["adj-な".to_owned()]);
    assert_eq!(sorted(data[1].tags()), vec!["n".to_owned()]);
    assert_eq!(sorted(data[2].tags()), vec!["n".to_owned()]);
    assert_eq!(
        sorted(data[3].tags()),
        sorted(vec!["v1".to_owned(), "vt".to_owned()])
    );

    assert_eq!(data[0].order(), 1999799);
    assert_eq!(data[1].order(), 1999800);
    assert_eq!(data[2].order(), -200);
    assert_eq!(data[3].order(), 1999800);

    assert_eq!(data[0].id(), 1314450);
    assert_eq!(data[1].id(), 1314460);
    assert_eq!(data[2].id(), 1314470);
    assert_eq!(data[3].id(), 1358280);

    assert_eq!(
        sorted(data[0].frequency()),
        sorted(vec!["⭐".to_owned(), "news12k".to_owned()])
    );
    assert_eq!(
        sorted(data[1].frequency()),
        sorted(vec!["⭐".to_owned(), "news10k".to_owned()])
    );
    assert_eq!(data[2].frequency(), Vec::<String>::new());
    assert_eq!(
        sorted(data[3].frequency()),
        sorted(vec![
            "⭐".to_owned(),
            "ichi".to_owned(),
            "news13k".to_owned()
        ])
    );

    assert_eq!(
        data[0].glossary(),
        vec!["impersonal", "perfunctory", "robot-like"]
    );
    assert_eq!(data[1].glossary(), vec!["officials in charge"]);
    assert_eq!(data[2].glossary(), vec!["work clothes"]);
    assert_eq!(data[3].glossary(), vec!["to eat"]);

    assert_eq!(data[0].example(), Vec::<(String, String)>::new());
    assert_eq!(data[1].example(), Vec::<(String, String)>::new());
    assert_eq!(data[2].example(), Vec::<(String, String)>::new());
    assert_eq!(
        data[3].example(),
        vec![(
            "もっと果物を食べるべきです。".to_owned(),
            "You should eat more fruit.".to_owned()
        )]
    );
}

#[test]
fn jitendex_word_word() {
    let data: Vec<JitendexWord> = vec![
        JitendexWord(
            "食べる".to_owned(),
            "たべる".to_owned(),
            "★".to_owned(),
            "v1".to_owned(),
            200,
            Glossary::Array(vec![
                Glossary::Array(vec![
                    Glossary::Text("to eat".to_owned()),
                    Glossary::Text("to live on (e.g. a salary)".to_owned()),
                    Glossary::Text("to live off".to_owned()),
                    Glossary::Text("to subsist on".to_owned()),
                ]),
                Glossary::StructuredContent(StructuredContent {
                    content_type: "structured-content".to_owned(),
                    content: Content::List(vec![
                        node(
                            Some(Content::List(vec![
                                Content::List(vec![
                                    text("もっと"),
                                    ruby("果", "くだ"),
                                    ruby("物", "もの"),
                                    text("を"),
                                    node(
                                        Some(Content::List(vec![
                                            ruby("食", "た"),
                                            text("べる"),
                                        ])),
                                        None,
                                        Some("example-keyword"),
                                    ),
                                    text("べきです。"),
                                ]),
                                text("You should eat more fruit."),
                            ])),
                            None,
                            Some("example-sentence"),
                        ),
                        node(
                            Some(Content::List(vec![
                                Content::List(vec![
                                    ruby("僕", "ぼく"),
                                    text("は"),
                                    ruby("脚", "きゃく"),
                                    ruby("本", "ほん"),
                                    ruby("家", "か"),
                                    text("で"),
                                    node(
                                        Some(Content::List(vec![
                                            ruby("食", "た"),
                                            text("べて"),
                                        ])),
                                        None,
                                        Some("example-keyword"),
                                    ),
                                    text("いく"),
                                    ruby("決", "けっ"),
                                    ruby("心", "しん"),
                                    text("をした。"),
                                ]),
                                text("I am determined to make a living as a playwright."),
                            ])),
                            None,
                            Some("example-sentence"),
                        ),
                    ]),
                }),
            ]),
            1358280,
            "".to_owned(),
        ),
        JitendexWord(
            "ライトウェルター級".to_owned(),
            "ライトウェルターきゅう".to_owned(),
            "".to_owned(),
            "".to_owned(),
            0,
            Glossary::Array(vec![Glossary::Text(
                "light welterweight (boxing)".to_owned(),
            )]),
            1969520,
            "".to_owned(),
        ),
    ];

    assert_eq!(data[0].kanji(), "食べる");
    assert_eq!(data[1].kanji(), "ライトウェルター級");

    assert_eq!(data[0].kana(), "たべる");
    assert_eq!(data[1].kana(), "ライトウェルターきゅう");

    assert_eq!(sorted(data[0].tags()), vec!["v1".to_owned()]);
    assert_eq!(data[1].tags(), Vec::<String>::new());

    assert_eq!(data[0].order(), 200);
    assert_eq!(data[1].order(), 0);

    assert_eq!(data[0].id(), 1358280);
    assert_eq!(data[1].id(), 1969520);

    assert_eq!(sorted(data[0].frequency()), vec!["★".to_owned()]);
    assert_eq!(data[1].frequency(), Vec::<String>::new());

    assert_eq!(
        data[0].glossary(),
        vec![
            "to eat",
            "to live on (e.g. a salary)",
            "to live off",
            "to subsist on"
        ]
    );
    assert_eq!(data[1].glossary(), vec!["light welterweight (boxing)"]);

    assert_eq!(
        data[0].example(),
        vec![
            (
                "もっと 果[くだ]物[もの]を<b> 食[た]べる</b>べきです。".to_owned(),
                "You should eat more fruit.".to_owned()
            ),
            (
                "僕[ぼく]は 脚[きゃく]本[ほん]家[か]で<b> 食[た]べて</b>いく 決[けっ]心[しん]をした。"
                    .to_owned(),
                "I am determined to make a living as a playwright.".to_owned()
            ),
        ]
    );
    assert_eq!(data[1].example(), Vec::<(String, String)>::new());
}

#[test]
fn frequency() {
    let data: Vec<JmnedictFrequency> = vec![JmnedictFrequency(
        "会う".to_owned(),
        "freq".to_owned(),
        Properties {
            frequency: FrequencyData {
                display_value: "N5".to_owned(),
                value: 5,
            },
            reading: "あう".to_owned(),
        },
    )];

    assert_eq!(data[0].kanji(), "会う");
    assert_eq!(data[0].kana(), "あう");
    assert_eq!(data[0].jlpt(), 5);
    assert_eq!(data[0].tags(), vec!["JLPT-N5".to_owned()]);
}

#[test]
fn kanji() {
    let data: Vec<KanjidicEntry> = vec![
        KanjidicEntry(
            '亜',
            "ア".to_owned(),
            "つ.ぐ".to_owned(),
            "".to_owned(),
            vec![
                "Asia".to_owned(),
                "rank next".to_owned(),
                "come after".to_owned(),
                "-ous".to_owned(),
            ],
            vec![
                ("strokes".to_owned(), "7".to_owned()),
                ("jlpt".to_owned(), "1".to_owned()),
            ],
        ),
        KanjidicEntry(
            '唖',
            "ア アク".to_owned(),
            "おし".to_owned(),
            "".to_owned(),
            vec!["mute".to_owned(), "dumb".to_owned()],
            vec![("strokes".to_owned(), "10".to_owned())],
        ),
    ];

    assert_eq!(data[0].kanji(), '亜');
    assert_eq!(data[1].kanji(), '唖');

    assert_eq!(data[0].onyomi(), vec!["ア".to_owned()]);
    assert_eq!(data[1].onyomi(), vec!["ア".to_owned(), "アク".to_owned()]);

    assert_eq!(data[0].kunyomi(), vec!["つ.ぐ".to_owned()]);
    assert_eq!(data[1].kunyomi(), vec!["おし".to_owned()]);

    assert_eq!(
        sorted(data[0].readings()),
        sorted(vec!["あ".to_owned(), "つ".to_owned()])
    );
    assert_eq!(
        sorted(data[1].readings()),
        sorted(vec!["あ".to_owned(), "あく".to_owned(), "おし".to_owned()])
    );

    assert_eq!(
        sorted(data[0].meaning()),
        sorted(vec![
            "Asia".to_owned(),
            "rank next".to_owned(),
            "come after".to_owned(),
            "-ous".to_owned()
        ])
    );
    assert_eq!(
        sorted(data[1].meaning()),
        sorted(vec!["mute".to_owned(), "dumb".to_owned()])
    );

    assert_eq!(data[0].strokes(), Some(7));
    assert_eq!(data[1].strokes(), Some(10));

    assert_eq!(data[0].jlpt(), Some(1));
    assert_eq!(data[1].jlpt(), None);
}

#[test]
fn unrecognized_record_aborts_ingestion() {
    let word = JmnedictEntry::Word(JmnedictWord(
        "会う".to_owned(),
        "あう".to_owned(),
        "v5u".to_owned(),
        "".to_owned(),
        1,
        Glossary::Text("to meet".to_owned()),
        100,
        "".to_owned(),
    ));
    let unknown = JmnedictEntry::Unknown(Json::Arr(vec![
        Json::Text("odd".to_owned()),
        Json::Int(3),
    ]));
    let data = vec![word, unknown];

    let kanji = KanjiTable::new();
    let result = convert_word_data(&kanji, &data);
    assert!(result.is_err());
    let message = result.err().unwrap();
    assert!(message.starts_with("Failed to convert: "));
    assert!(message.contains("[\"odd\",3]"));

    assert!(convert_data(&data).is_err());
}

#[test]
fn recognized_records_build_the_lexicon() {
    let entries = vec![
        JmnedictEntry::Kanji(KanjidicEntry(
            '気',
            "キ ケ".to_owned(),
            "".to_owned(),
            "".to_owned(),
            vec!["spirit".to_owned()],
            vec![("jlpt".to_owned(), "5".to_owned())],
        )),
        JmnedictEntry::Kanji(KanjidicEntry(
            '毒',
            "ドク".to_owned(),
            "".to_owned(),
            "".to_owned(),
            vec!["poison".to_owned()],
            vec![],
        )),
        JmnedictEntry::Word(JmnedictWord(
            "気の毒".to_owned(),
            "きのどく".to_owned(),
            "adj-na".to_owned(),
            "".to_owned(),
            7,
            Glossary::Text("pitiful".to_owned()),
            200,
            "news12k".to_owned(),
        )),
    ];
    let (kanji, words) = convert_data(&entries).ok().unwrap();
    assert_eq!(kanji.entries.len(), 2);
    assert_eq!(words.len(), 1);
    // the display spelling was synthesized through the aligner
    assert_eq!(words[0].0, "気[き]の 毒[どく]");
    assert_eq!(words[0].1.word_id, 200);
    assert_eq!(words[0].1.glossary.len(), 1);
    assert_eq!(words[0].1.glossary[0].meaning, vec!["pitiful".to_owned()]);
}

#[test]
fn every_accumulated_word_reaches_the_snapshot() {
    let entries = vec![
        JmnedictEntry::Word(JmnedictWord(
            "一".to_owned(),
            "いち".to_owned(),
            "n".to_owned(),
            "".to_owned(),
            1,
            Glossary::Text("one".to_owned()),
            1,
            "".to_owned(),
        )),
        JmnedictEntry::Word(JmnedictWord(
            "二".to_owned(),
            "に".to_owned(),
            "n".to_owned(),
            "".to_owned(),
            2,
            Glossary::Text("two".to_owned()),
            2,
            "".to_owned(),
        )),
        JmnedictEntry::Word(JmnedictWord(
            "三".to_owned(),
            "さん".to_owned(),
            "n".to_owned(),
            "".to_owned(),
            3,
            Glossary::Text("three".to_owned()),
            3,
            "".to_owned(),
        )),
    ];
    let (_, words) = convert_data(&entries).ok().unwrap();
    assert_eq!(words.len(), 3);
    let keys: Vec<&str> = words.iter().map(|(k, _)| k.as_str()).collect();
    assert!(keys.contains(&"一[いち]"));
    assert!(keys.contains(&"二[に]"));
    assert!(keys.contains(&"三[さん]"));
}

#[test]
fn remap_tag_table() {
    assert_eq!(jmnedict_word::remap_tag(""), None);
    assert_eq!(jmnedict_word::remap_tag("12"), None);
    assert_eq!(jmnedict_word::remap_tag("1.5"), None);
    assert_eq!(jmnedict_word::remap_tag("-3e2"), None);
    assert_eq!(jmnedict_word::remap_tag("inf"), None);
    assert_eq!(jmnedict_word::remap_tag("N5"), Some("jlpt-N5".to_owned()));
    assert_eq!(jmnedict_word::remap_tag("adj-i"), Some("adj-い".to_owned()));
    assert_eq!(jmnedict_word::remap_tag("v5k-s"), Some("v5く-s".to_owned()));
    assert_eq!(jmnedict_word::remap_tag("other"), Some("other".to_owned()));

    assert_eq!(jitendex_word::remap_tag("N5"), Some("JLPT-N5".to_owned()));
    assert_eq!(jitendex_word::remap_tag("7"), None);
    assert_eq!(jitendex_word::remap_tag("adj-i"), Some("adj-i".to_owned()));
}

#[test]
fn fresh_key_merge_is_order_independent() {
    let make = |order: i32, meaning: &str, id: i32, tag: &str| {
        JmnedictEntry::Word(JmnedictWord(
            "気".to_owned(),
            "き".to_owned(),
            "n".to_owned(),
            "".to_owned(),
            order,
            Glossary::Text(meaning.to_owned()),
            id,
            tag.to_owned(),
        ))
    };
    let (_, forward) =
        convert_data(&vec![make(1, "spirit", 10, "news1k"), make(2, "mood", 20, "JLPT-N3")])
            .ok()
            .unwrap();
    let (_, backward) =
        convert_data(&vec![make(2, "mood", 20, "JLPT-N3"), make(1, "spirit", 10, "news1k")])
            .ok()
            .unwrap();
    assert_eq!(forward.len(), 1);
    assert_eq!(backward.len(), 1);
    // display spelling, tag set and sense set do not depend on arrival order
    assert_eq!(forward[0].0, backward[0].0);
    assert_eq!(
        sorted(forward[0].1.frequency.clone()),
        sorted(backward[0].1.frequency.clone())
    );
    let senses = |w: &anki_util::entry::Word| {
        let mut m: Vec<String> = w.glossary.iter().flat_map(|g| g.meaning.clone()).collect();
        m.sort();
        m
    };
    assert_eq!(senses(&forward[0].1), senses(&backward[0].1));
}
