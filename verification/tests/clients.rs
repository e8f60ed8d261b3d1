use anki_util::anki::anki_connect::{interpret_response, AnkiConnect};
use anki_util::anki::anki_note::AnkiNote;
use anki_util::json::{render_json, Json};
use anki_util::numeric::{is_float_text_exec, parse_u8, u64_to_dec};
use anki_util::tatoeba::tatoeba_search::{TatoebaOrigin, TatoebaSearch, TatoebaSort};
use anki_util::tatoeba::tatoeba_search_old;

#[test]
fn parse_small_numbers() {
    assert_eq!(parse_u8("0"), Some(0));
    assert_eq!(parse_u8("007"), Some(7));
    assert_eq!(parse_u8("+255"), Some(255));
    assert_eq!(parse_u8("256"), None);
    assert_eq!(parse_u8(""), None);
    assert_eq!(parse_u8("12a"), None);
    assert_eq!(parse_u8("-1"), None);
}

#[test]
fn decimal_rendering() {
    assert_eq!(u64_to_dec(0), vec!['0']);
    assert_eq!(u64_to_dec(907), vec!['9', '0', '7']);
    assert_eq!(
        u64_to_dec(18446744073709551615),
        "18446744073709551615".chars().collect::<Vec<char>>()
    );
}

#[test]
fn float_syntax_recognition() {
    assert!(is_float_text_exec("1"));
    assert!(is_float_text_exec("-2.5"));
    assert!(is_float_text_exec(".5e-3"));
    assert!(is_float_text_exec("INF"));
    assert!(is_float_text_exec("NaN"));
    assert!(!is_float_text_exec("adj-i"));
    assert!(!is_float_text_exec("1.2.3"));
    assert!(!is_float_text_exec("e5"));
}

#[test]
fn json_rendering() {
    let v = Json::Obj(vec![
        ("a".to_owned(), Json::Arr(vec![Json::Int(-5), Json::Null])),
        ("b\"\n".to_owned(), Json::Text("x\t".to_owned())),
        ("c".to_owned(), Json::Bool(true)),
    ]);
    assert_eq!(
        render_json(&v),
        "{\"a\":[-5,null],\"b\\\"\\n\":\"x\\t\",\"c\":true}"
    );
    assert_eq!(
        render_json(&Json::Text("\u{1}\u{1f}".to_owned())),
        "\"\\u0001\\u001f\""
    );
    assert_eq!(render_json(&Json::Num("2.5".to_owned())), "2.5");
}

#[test]
fn anki_payloads() {
    let anki = AnkiConnect::new("http://127.0.0.1:8765".to_owned(), None);
    assert_eq!(anki.get_url(), "http://127.0.0.1:8765");
    assert_eq!(anki.get_api_key(), None);
    assert!(anki.check_version(6).is_ok());
    assert!(anki.check_version(5).is_err());
    assert_eq!(anki.version(), "{\"action\":\"version\",\"version\":5}");
    assert_eq!(
        anki.get_tags(),
        "{\"action\":\"getTags\",\"version\":5,\"params\":null}"
    );
    assert_eq!(
        anki.get_decks(&vec![3, -4]),
        "{\"action\":\"getDecks\",\"version\":5,\"params\":{\"cards\":[3,-4]}}"
    );

    let keyed = AnkiConnect::new("http://x".to_owned(), Some("SECRET-REDACTED".to_owned()));
    assert_eq!(
        keyed.deck_names(),
        "{\"action\":\"deckNames\",\"version\":5,\"apiKey\":\"SECRET-REDACTED\"}"
    );
}

#[test]
fn version_check_names_both_versions() {
    let anki = AnkiConnect::new("u".to_owned(), None);
    assert_eq!(
        anki.check_version(5).err().unwrap(),
        "expected protocol version 6 but the application reported 5"
    );
    assert_eq!(
        anki.check_version(250).err().unwrap(),
        "expected protocol version 6 but the application reported 250"
    );
}

#[test]
fn card_and_note_action_payloads() {
    let anki = AnkiConnect::new("u".to_owned(), None);
    assert_eq!(
        anki.find_notes("deck:current"),
        "{\"action\":\"findNotes\",\"version\":5,\"params\":{\"query\":\"deck:current\"}}"
    );
    assert_eq!(
        anki.notes_info(&vec![7, 8]),
        "{\"action\":\"notesInfo\",\"version\":5,\"params\":{\"notes\":[7,8]}}"
    );
    assert_eq!(
        anki.suspend(&vec![1]),
        "{\"action\":\"suspend\",\"version\":5,\"params\":{\"cards\":[1]}}"
    );
    assert_eq!(
        anki.unsuspend(&vec![1]),
        "{\"action\":\"unsuspend\",\"version\":5,\"params\":{\"cards\":[1]}}"
    );
    assert_eq!(
        anki.add_tags(&vec![4], "comp"),
        "{\"action\":\"addTags\",\"version\":5,\"params\":{\"notes\":[4],\"tags\":\"comp\"}}"
    );
    assert_eq!(
        anki.remove_tags(&vec![4], "comp"),
        "{\"action\":\"removeTags\",\"version\":5,\"params\":{\"notes\":[4],\"tags\":\"comp\"}}"
    );
    assert_eq!(
        anki.update_note_fields(9, &vec![("1 Word".to_owned(), "気".to_owned())]),
        "{\"action\":\"updateNoteFields\",\"version\":5,\"params\":\
         {\"note\":{\"id\":9,\"fields\":{\"1 Word\":\"気\"}}}}"
    );
    assert_eq!(
        anki.set_specific_value_of_card(3, &vec![("due".to_owned(), Json::Int(12))]),
        "{\"action\":\"setSpecificValueOfCard\",\"version\":5,\"params\":\
         {\"card\":3,\"keys\":[\"due\"],\"newValues\":[12]}}"
    );
    assert_eq!(
        anki.change_deck("My Deck 4.0", &vec![5]),
        "{\"action\":\"changeDeck\",\"version\":5,\"params\":\
         {\"deck\":\"My Deck 4.0\",\"cards\":[5]}}"
    );
    assert_eq!(
        anki.set_due_date(&vec![5], "3-7"),
        "{\"action\":\"setDueDate\",\"version\":5,\"params\":\
         {\"cards\":[5],\"days\":\"3-7\"}}"
    );
    assert_eq!(
        anki.gui_deck_review("My Deck 4.0"),
        "{\"action\":\"guiDeckReview\",\"version\":5,\"params\":\
         {\"name\":\"My Deck 4.0\"}}"
    );
    assert_eq!(
        anki.add_note_audio(9, "http://a/x.mp3", "x.mp3", &vec!["3 Audio".to_owned()], None),
        "{\"action\":\"updateNoteFields\",\"version\":5,\"params\":\
         {\"note\":{\"id\":9,\"fields\":{},\"audio\":{\"url\":\"http://a/x.mp3\",\
         \"filename\":\"x.mp3\",\"fields\":[\"3 Audio\"]}}}}"
    );
}

#[test]
fn anki_note_serialization() {
    let note = AnkiNote {
        note_id: None,
        profile: None,
        deck_name: Some("My Deck 4.0".to_owned()),
        model_name: "JP Card V4".to_owned(),
        tags: vec!["JLPT-N5".to_owned(), "comp".to_owned()],
        fields: vec![
            ("1 Word".to_owned(), "気[き]".to_owned()),
            ("2 Meaning".to_owned(), "spirit".to_owned()),
        ],
        modified: None,
        cards: None,
    };
    assert_eq!(
        note.to_json_text(),
        "{\"deckName\":\"My Deck 4.0\",\"modelName\":\"JP Card V4\",\
         \"tags\":[\"JLPT-N5\",\"comp\"],\
         \"fields\":{\"1 Word\":\"気[き]\",\"2 Meaning\":\"spirit\"}}"
    );

    let full = AnkiNote {
        note_id: Some(12),
        profile: None,
        deck_name: None,
        model_name: "M".to_owned(),
        tags: vec![],
        fields: vec![],
        modified: Some(-7),
        cards: Some(vec![1, 2]),
    };
    assert_eq!(
        full.to_json_text(),
        "{\"noteId\":12,\"modelName\":\"M\",\"tags\":[],\"fields\":{},\
         \"mod\":-7,\"cards\":[1,2]}"
    );

    let anki = AnkiConnect::new("u".to_owned(), None);
    assert_eq!(
        anki.add_note(&full),
        format!(
            "{{\"action\":\"addNote\",\"version\":5,\"params\":{{\"note\":{}}}}}",
            full.to_json_text()
        )
    );
}

#[test]
fn response_interpretation() {
    assert!(interpret_response(Some(Json::Int(6)), None).is_ok());
    assert_eq!(
        interpret_response(Some(Json::Int(6)), Some("boom".to_owned())).err(),
        Some("boom".to_owned())
    );
    assert!(interpret_response(None, None).is_err());
}

#[test]
fn sentence_search_urls() {
    let mut search = TatoebaSearch::new("jpn", "eng");
    search.word_count = (Some(3), Some(30));
    search.is_orphan = Some(false);
    search.origin = Some(TatoebaOrigin::Original);
    search.trans_count = Some(true);
    search.sort = Some(TatoebaSort::Shortest);
    search.limit = Some(25);

    assert_eq!(
        search.to_string("猫", None),
        "https://api.tatoeba.org/unstable/sentences?q=猫&lang=jpn&word_count=3-30\
         &is_orphan=no&origin=original&trans:lang=eng&trans:count=!0&sort=words\
         &limit=25&showtrans=eng"
    );
    assert_eq!(
        search.to_string("猫", Some("abc")),
        "https://api.tatoeba.org/unstable/sentences?q=猫&lang=jpn&word_count=3-30\
         &is_orphan=no&origin=original&trans:lang=eng&trans:count=!0&sort=words\
         &limit=25&showtrans=eng&after=abc"
    );

    let old = tatoeba_search_old::TatoebaSearch::new("jpn", "eng");
    assert_eq!(
        old.search_url("犬", 2),
        "https://dev.tatoeba.org/eng/api_v0/search?query=犬&page=2&from=jpn&to=eng"
    );
}
