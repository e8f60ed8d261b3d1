use anki_util::canonical::{filter_overlapping, filter_words, get_jlpt_level, get_newsnk};
use anki_util::japanese::JapaneseStr;
use anki_util::markup::{get_examples, remove_whitespace, strip_html};
use anki_util::entry::{Example, Glossary, Kanji, Word};
use anki_util::inflection::{get_conjugation_type, get_find_regex, ConjugationType};
use regex::Regex;

fn word(furigana: &str, tags: &[&str], examples: usize, orders: &[i32]) -> Word {
    let glossary = orders
        .iter()
        .map(|o| Glossary::new(*o, vec![], vec!["meaning".to_owned()]))
        .collect();
    let exs = (0..examples)
        .map(|i| Example::new(format!("文{i}"), format!("sentence {i}")))
        .collect();
    Word::new(
        1,
        furigana.to_owned(),
        glossary,
        tags.iter().map(|t| (*t).to_owned()).collect(),
        exs,
    )
}

#[test]
fn higher_level_record_wins_regardless_of_examples() {
    // same kanji-only spelling, different reading annotations
    let a = word("気[き]", &["JLPT-N2"], 0, &[5]);
    let b = word("気[け]", &["JLPT-N4"], 3, &[5, 6, 7]);

    let kept = filter_overlapping(vec![
        ("気[き]".to_owned(), a.clone()),
        ("気[け]".to_owned(), b.clone()),
    ]);
    assert_eq!(kept.len(), 1);
    assert_eq!(kept[0].0, "気[き]");

    let kept = filter_overlapping(vec![
        ("気[け]".to_owned(), b),
        ("気[き]".to_owned(), a),
    ]);
    assert_eq!(kept.len(), 1);
    assert_eq!(kept[0].0, "気[き]");
}

#[test]
fn tie_keeps_the_first_inserted() {
    let a = word("気[き]", &["JLPT-N3", "news12k"], 1, &[5]);
    let b = word("気[け]", &["JLPT-N3", "news12k"], 1, &[5]);

    let kept = filter_overlapping(vec![
        ("気[き]".to_owned(), a.clone()),
        ("気[け]".to_owned(), b.clone()),
    ]);
    assert_eq!(kept.len(), 1);
    assert_eq!(kept[0].0, "気[き]");

    let kept = filter_overlapping(vec![
        ("気[け]".to_owned(), b),
        ("気[き]".to_owned(), a),
    ]);
    assert_eq!(kept.len(), 1);
    assert_eq!(kept[0].0, "気[け]");
}

#[test]
fn later_criteria_break_earlier_ties() {
    // equal levels; the lower news rank wins
    let a = word("気[き]", &["JLPT-N3", "news20k"], 5, &[1]);
    let b = word("気[け]", &["JLPT-N3", "news10k"], 0, &[9]);
    let kept = filter_overlapping(vec![
        ("気[き]".to_owned(), a),
        ("気[け]".to_owned(), b),
    ]);
    assert_eq!(kept[0].0, "気[け]");

    // equal levels and news ranks; more examples wins
    let a = word("気[き]", &["JLPT-N3"], 1, &[1]);
    let b = word("気[け]", &["JLPT-N3"], 2, &[9]);
    let kept = filter_overlapping(vec![
        ("気[き]".to_owned(), a),
        ("気[け]".to_owned(), b),
    ]);
    assert_eq!(kept[0].0, "気[け]");
}

#[test]
fn canonical_keys_read_the_tags() {
    let w = word("気[き]", &["JLPT-N2", "news12k", "news3k"], 0, &[4, -2]);
    assert_eq!(get_jlpt_level(&w), Some(2));
    assert_eq!(get_newsnk(&w), Some(3));

    let none = word("気[き]", &["other"], 0, &[]);
    assert_eq!(get_jlpt_level(&none), None);
    assert_eq!(get_newsnk(&none), None);

    // an overlong rank is not a news tag
    let big = word("気[き]", &["news1000k"], 0, &[]);
    assert_eq!(get_newsnk(&big), None);
}

#[test]
fn word_selection() {
    assert!(filter_words(&word("気[き]", &["JLPT-N5"], 0, &[1])));
    assert!(filter_words(&word("気[き]", &["JLPT-N1", "comp"], 0, &[1])));
    assert!(!filter_words(&word("気[き]", &["JLPT-N1"], 0, &[1])));
    assert!(!filter_words(&word("気[き]", &["JLPT-N5"], 0, &[])));
    assert!(!filter_words(&word("０気[き]", &["JLPT-N5"], 0, &[1])));
}

#[test]
fn classification_priority() {
    let tags = |ts: &[&str]| ts.iter().map(|t| (*t).to_owned()).collect::<Vec<String>>();

    assert_eq!(
        get_conjugation_type("高い", &tags(&["adj-い"])),
        ConjugationType::IAdjective
    );
    assert_eq!(
        get_conjugation_type("良い", &tags(&["adj-いx", "adj-い"])),
        ConjugationType::IxAdjective
    );
    assert_eq!(
        get_conjugation_type("有る", &tags(&["v5る-i", "v5る"])),
        ConjugationType::Aru
    );
    assert_eq!(
        get_conjugation_type("作る", &tags(&["v5る"])),
        ConjugationType::Godan
    );
    assert_eq!(
        get_conjugation_type("食べる", &tags(&["v1"])),
        ConjugationType::Ichidan
    );
    // an ending outside the inflectable set never conjugates
    assert_eq!(
        get_conjugation_type("東京", &tags(&["v1"])),
        ConjugationType::NoInflection
    );
    assert_eq!(
        get_conjugation_type("静か", &tags(&["adj-な"])),
        ConjugationType::NoInflection
    );
}

#[test]
fn inflection_pattern_matches_conjugations() {
    let tags = vec!["v5る".to_owned()];
    let pattern = get_find_regex("作る", &tags).ok().unwrap();
    let regex = Regex::new(&pattern).unwrap();

    assert!(regex.is_match("作る"));
    assert!(regex.is_match("作った"));
    assert!(!regex.is_match("作く"));
}

#[test]
fn inflection_pattern_without_catalog_is_an_error() {
    // no strong-conjugation verb ends in this character, and the error
    // names both the ending and the word
    let tags = vec!["v5ぷ".to_owned()];
    assert_eq!(
        get_find_regex("かぷ", &tags).err().unwrap(),
        "no strong-conjugation catalog for the ending ぷ of かぷ"
    );
    // the same word without the verb tag falls back to a literal pattern
    assert_eq!(get_find_regex("かぷ", &vec![]).ok().unwrap(), " ?かぷ");
}

#[test]
fn kanji_record_readings() {
    let k = Kanji::new(
        '気',
        vec!["キ".to_owned(), "ケ".to_owned()],
        vec!["いき".to_owned()],
        vec!["spirit".to_owned()],
        Some(6),
        vec![],
    );
    let mut rs = k.readings();
    rs.sort();
    assert_eq!(
        rs,
        vec!["いき".to_owned(), "き".to_owned(), "け".to_owned()]
    );
}

#[test]
fn word_tag_collection() {
    let mut w = word("気[き]", &["JLPT-N3"], 0, &[]);
    w.glossary = vec![
        Glossary::new(1, vec!["n".to_owned()], vec![]),
        Glossary::new(2, vec!["n".to_owned(), "comp".to_owned()], vec![]),
    ];
    let mut tags = w.get_all_tags();
    tags.sort();
    assert_eq!(
        tags,
        vec!["JLPT-N3".to_owned(), "comp".to_owned(), "n".to_owned()]
    );
}

#[test]
fn markup_cleanups() {
    assert_eq!(strip_html("<b>気</b>になる"), "気になる");
    assert_eq!(strip_html("a<a<b>c"), "a<ac");
    assert_eq!(strip_html("open<never"), "open<never");
    assert_eq!(remove_whitespace(" 気\u{3000}に なる\t"), "気になる");

    // the dedup key of an example sentence: markup and spacing removed,
    // readings stripped to their kanji
    let key = remove_whitespace(&strip_html("もっと 果[くだ]物[もの]を<b> 食[た]べる</b>べきです。").to_kanji());
    assert_eq!(key, "もっと果物を食べるべきです。");

    let word = word("気[き]", &[], 0, &[]);
    assert_eq!(get_examples(&word), "");
    let mut with = word.clone();
    with.examples = vec![
        Example::new("文一".to_owned(), "first".to_owned()),
        Example::new("".to_owned(), "dropped".to_owned()),
        Example::new("文二".to_owned(), "".to_owned()),
    ];
    assert_eq!(get_examples(&with), "文一<br>first<br><br>文二");
}
