use anki_util::japanese::{JapaneseChar, JapaneseStr, split_kanji_reading};
use anki_util::furigana::to_furigana;

/// Hiragana characters matching KATAKANA_DATA position by position.
const HIRAGANA_DATA: &str = "ぁあぃいぅうぇえぉおかがきぎくぐけげこごさざしじすずせぜそぞただちぢっつづてでとどなにぬねのはばぱひびぴふぶぷへべぺほぼぽまみむめもゃやゅゆょよらりるれろゎわゐゑをんゔゕゖ";
/// Katakana characters matching HIRAGANA_DATA position by position.
const KATAKANA_DATA: &str = "ァアィイゥウェエォオカガキギクグケゲコゴサザシジスズセゼソゾタダチヂッツヅテデトドナニヌネノハバパヒビピフブプヘベペホボポマミムメモャヤュユョヨラリルレロヮワヰヱヲンヴヵヶ";

#[test]
fn convert_char() {
    let hiragana = HIRAGANA_DATA.chars();
    let katakana = KATAKANA_DATA.chars();

    for (hira, kata) in hiragana.zip(katakana) {
        assert_eq!(hira, kata.to_hiragana());
        assert_eq!(kata, hira.to_katakana());
    }
}

#[test]
fn convert_string() {
    let hiragana = HIRAGANA_DATA;
    let katakana = KATAKANA_DATA;

    assert_eq!(hiragana, katakana.to_owned().to_hiragana());
    assert_eq!(katakana, hiragana.to_owned().to_katakana());

    assert_eq!(
        "きけのどくきょうとっきゅう",
        "気[き]気[け]の 毒[どく] 今日[きょう] 特[とっ]急[きゅう]"
            .to_owned()
            .to_kana()
    );

    assert_eq!(
        "気気の毒今日特急",
        "気[き]気[け]の 毒[どく] 今日[きょう] 特[とっ]急[きゅう]"
            .to_owned()
            .to_kanji()
    );
}

#[test]
fn test_split_kanji_reading() {
    assert_eq!(
        split_kanji_reading("ばら"),
        Some((None, "ばら".to_owned(), None, None)),
    );

    assert_eq!(
        split_kanji_reading("ち.らす"),
        Some((None, "ち".to_owned(), Some("らす".to_owned()), None)),
    );

    assert_eq!(
        split_kanji_reading("-ち.らす"),
        Some((
            Some("".to_owned()),
            "ち".to_owned(),
            Some("らす".to_owned()),
            None
        )),
    );

    assert_eq!(
        split_kanji_reading("ひと-"),
        Some((None, "ひと".to_owned(), None, Some("".to_owned())))
    );
}

fn readings_table() -> Vec<(char, Vec<String>)> {
    let mut table: Vec<(char, Vec<String>)> = Vec::new();
    table.push(('気', vec!["き".to_owned(), "け".to_owned()]));
    table.push(('毒', vec!["どく".to_owned()]));
    table.push((
        '今',
        vec!["こん".to_owned(), "きん".to_owned(), "いま".to_owned()],
    ));
    table.push((
        '日',
        vec![
            "にち".to_owned(),
            "じつ".to_owned(),
            "ひ".to_owned(),
            "び".to_owned(),
            "か".to_owned(),
        ],
    ));
    table.push(('特', vec!["とく".to_owned()]));
    table.push((
        '急',
        vec!["きゅう".to_owned(), "いそ".to_owned(), "せ".to_owned()],
    ));
    table.push((
        '建',
        vec![
            "けん".to_owned(),
            "こん".to_owned(),
            "だ".to_owned(),
            "た".to_owned(),
        ],
    ));
    table.push((
        '物',
        vec!["ぶつ".to_owned(), "もつ".to_owned(), "もの".to_owned()],
    ));
    table
}

#[test]
fn test_to_furigana() {
    let kanji_readings = readings_table();

    assert_eq!(
        to_furigana("気の毒", "きのどく", &kanji_readings),
        Some("気[き]の 毒[どく]".to_owned())
    );

    assert_eq!(
        to_furigana("気気の毒", "きけのどく", &kanji_readings),
        Some("気[き]気[け]の 毒[どく]".to_owned())
    );

    assert_eq!(
        to_furigana("今日", "きょう", &kanji_readings),
        Some("今日[きょう]".to_owned())
    );

    assert_eq!(
        to_furigana("特急", "とっきゅう", &kanji_readings),
        Some("特[とっ]急[きゅう]".to_owned())
    );

    assert_eq!(
        to_furigana("建物", "たてもの", &kanji_readings),
        Some("建[たて]物[もの]".to_owned())
    );
}

#[test]
fn to_furigana_failure_and_round_trip() {
    let kanji_readings = readings_table();

    // a pronunciation no boundary placement reproduces
    assert_eq!(to_furigana("気の毒", "ぜんぜん", &kanji_readings), None);

    // the round trip of a successful alignment restores both inputs
    let aligned = to_furigana("特急", "とっきゅう", &kanji_readings).unwrap();
    assert_eq!(aligned.to_kanji(), "特急");
    assert_eq!(aligned.to_kana(), "とっきゅう");

    let aligned = to_furigana("気気の毒", "きけのどく", &kanji_readings).unwrap();
    assert_eq!(aligned.to_kanji(), "気気の毒");
    assert_eq!(aligned.to_kana(), "きけのどく");

    // an empty spelling aligns only with an empty pronunciation
    assert_eq!(
        to_furigana("", "", &kanji_readings),
        Some(String::new())
    );
    assert_eq!(to_furigana("", "き", &kanji_readings), None);
}
