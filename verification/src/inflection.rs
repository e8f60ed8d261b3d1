//! The inflected-form pattern generator: from a dictionary base form and
//! its grammatical tags, the regular expression matching the word and its
//! recognized inflected surface forms, built from fixed per-class suffix
//! catalogs anchored to the word's stem.

use vstd::prelude::*;
use crate::strset::contains_str;

verus! {

/// The closed set of conjugation classes.
#[derive(PartialEq, Eq, Structural, Clone, Copy, Debug)]
pub enum ConjugationType {
    NoInflection,
    IAdjective,
    IxAdjective,
    NaAdjective,
    Ichidan,
    Godan,
    Aru,
    Kuru,
    Suru,
}

/// The word endings that can inflect at all.
pub open spec fn is_inflectable_ending(c: char) -> bool {
    c == 'い' || c == 'う' || c == 'く' || c == 'す' || c == 'つ' || c == 'ぬ' || c == 'ふ'
        || c == 'む' || c == 'る' || c == 'ぐ' || c == 'ず' || c == 'づ' || c == 'ぶ'
        || c == 'ぷ'
}

/// Whether some tag starts with the prefix.
pub open spec fn has_tag_prefix(tags: Seq<String>, p: Seq<char>) -> bool {
    exists|i: int|
        0 <= i < tags.len() && (#[trigger] tags[i])@.len() >= p.len() && tags[i]@.take(
            p.len() as int,
        ) == p
}

/// The conjugation class of a word: a word whose final character cannot
/// inflect never conjugates; otherwise the first matching tag decides, the
/// specific irregular tags tried before the generic class prefixes.
pub open spec fn spec_conjugation_type(word: Seq<char>, tags: Seq<String>) -> ConjugationType {
    if word.len() == 0 || !is_inflectable_ending(word.last()) {
        ConjugationType::NoInflection
    } else if contains_str(tags, "adj-いx"@) {
        ConjugationType::IxAdjective
    } else if contains_str(tags, "adj-い"@) {
        ConjugationType::IAdjective
    } else if contains_str(tags, "adj-な"@) {
        ConjugationType::NaAdjective
    } else if contains_str(tags, "v5る-i"@) {
        ConjugationType::Aru
    } else if contains_str(tags, "vくる"@) {
        ConjugationType::Kuru
    } else if contains_str(tags, "vする-i"@) || contains_str(tags, "vする-s"@) {
        ConjugationType::Suru
    } else if has_tag_prefix(tags, "v5"@) {
        ConjugationType::Godan
    } else if has_tag_prefix(tags, "v1"@) {
        ConjugationType::Ichidan
    } else {
        ConjugationType::NoInflection
    }
}

/// Whether the string starts with the given characters.
fn starts_with_chars(t: &str, pv: &Vec<char>) -> (r: bool)
    ensures
        r == (t@.len() >= pv@.len() && t@.take(pv@.len() as int) == pv@),
{
    let tv = crate::text::str_to_chars(t);
    if tv.len() < pv.len() {
        return false;
    }
    let mut k: usize = 0;
    while k < pv.len()
        invariant
            k <= pv@.len(),
            pv@.len() <= tv@.len(),
            tv@ == t@,
            forall|q: int| 0 <= q < k ==> tv@[q] == pv@[q],
        decreases pv@.len() - k,
    {
        if tv[k] != pv[k] {
            proof {
                assert(t@.take(pv@.len() as int)[k as int] != pv@[k as int]);
            }
            return false;
        }
        k = k + 1;
    }
    proof {
        assert(t@.take(pv@.len() as int) =~= pv@);
    }
    true
}

/// Whether some tag starts with the prefix.
fn has_prefix_exec(tags: &Vec<String>, p: &str) -> (r: bool)
    ensures
        r == has_tag_prefix(tags@, p@),
{
    let pv = crate::text::str_to_chars(p);
    let mut i: usize = 0;
    while i < tags.len()
        invariant
            i <= tags@.len(),
            pv@ == p@,
            forall|j: int|
                0 <= j < i ==> !((#[trigger] tags@[j])@.len() >= p@.len() && tags@[j]@.take(
                    p@.len() as int,
                ) == p@),
        decreases tags@.len() - i,
    {
        if starts_with_chars(tags[i].as_str(), &pv) {
            proof {
                assert((#[trigger] tags@[i as int])@.len() >= p@.len() && tags@[
                    i as int]@.take(p@.len() as int) == p@);
            }
            return true;
        }
        i = i + 1;
    }
    false
}

/// The conjugation class of a word under its tags.
pub fn get_conjugation_type(word: &str, tags: &Vec<String>) -> (r: ConjugationType)
    ensures
        r == spec_conjugation_type(word@, tags@),
{
    let wv = crate::text::str_to_chars(word);
    if wv.len() == 0 {
        return ConjugationType::NoInflection;
    }
    let end = wv[wv.len() - 1];
    let ok = end == 'い' || end == 'う' || end == 'く' || end == 'す' || end == 'つ' || end
        == 'ぬ' || end == 'ふ' || end == 'む' || end == 'る' || end == 'ぐ' || end == 'ず'
        || end == 'づ' || end == 'ぶ' || end == 'ぷ';
    if !ok {
        return ConjugationType::NoInflection;
    }
    if crate::strset::has_str(tags, "adj-いx") {
        ConjugationType::IxAdjective
    } else if crate::strset::has_str(tags, "adj-い") {
        ConjugationType::IAdjective
    } else if crate::strset::has_str(tags, "adj-な") {
        ConjugationType::NaAdjective
    } else if crate::strset::has_str(tags, "v5る-i") {
        ConjugationType::Aru
    } else if crate::strset::has_str(tags, "vくる") {
        ConjugationType::Kuru
    } else if crate::strset::has_str(tags, "vする-i") || crate::strset::has_str(tags, "vする-s") {
        ConjugationType::Suru
    } else if has_prefix_exec(tags, "v5") {
        ConjugationType::Godan
    } else if has_prefix_exec(tags, "v1") {
        ConjugationType::Ichidan
    } else {
        ConjugationType::NoInflection
    }
}

/// The suffix alternation of a regular strong-conjugation verb, by its
/// final character; the final characters no such verb can have get none.
pub open spec fn spec_godan_endings(end: char) -> Option<Seq<char>> {
    if end == 'う' {
        Some("らなかったでしょう|っていませんでした|らなかっただろう|りませんでしたら|らないでください|りませんでした|らないでしょう|っていました|っていません|らなかったら|ったでしょう|らないだろう|ってください|らなければ|らなかった|られません|らせません|るでしょう|っています|っただろう|りましたら|りましょう|っていた|っている|らせない|らせます|られない|りました|りません|れません|るだろう|られます|られない|られます|らせる|れます|られる|ったら|らない|ります|れない|るな|れば|ろう|った|れる|れ|る"@)
    } else if end == 'く' {
        Some("いていませんでした|かなかったでしょう|きませんでしたら|かなかっただろう|かないでください|かないでしょう|きませんでした|いたでしょう|いていました|いてください|かないだろう|いていません|かなかったら|くでしょう|いています|かなければ|かなかった|かれません|いただろう|かせません|きましょう|きましたら|けません|いている|かせない|いていた|きました|くだろう|きません|かれます|かせます|かれない|いたら|けます|けない|かせる|かれる|きます|かない|いた|こう|ける|くな|けば|く|け"@)
    } else if end == 'す' {
        Some("していませんでした|さなかったでしょう|しませんでしたら|さなかっただろう|さないでください|しませんでした|さないでしょう|してください|したでしょう|していません|さないだろう|さなかったら|していました|しただろう|すでしょう|さなかった|しています|されません|しましょう|さなければ|させません|しましたら|せません|されます|されない|していた|すだろう|しました|しません|している|させます|さない|せます|させる|さない|される|します|したら|せない|せば|そう|すな|した|せる|せ|す"@)
    } else if end == 'つ' {
        Some("っていませんでした|たなかったでしょう|たないでください|ちませんでしたら|たなかっただろう|たないでしょう|ちませんでした|たなかったら|っていません|ったでしょう|ってください|っていました|たないだろう|っただろう|ちましたら|たれません|たなければ|たせません|たなかった|ちましょう|つでしょう|っています|たれます|ちました|たれない|てません|たせます|つだろう|っている|ちません|たせない|っていた|てます|ちます|たせる|たれる|たない|てない|ったら|つな|てば|った|てる|とう|て|つ"@)
    } else if end == 'ぬ' {
        Some("んでいませんでした|ななかったでしょう|にませんでしたら|ななかっただろう|なないでください|なないでしょう|にませんでした|んでいません|ななかったら|んでください|なないだろう|んでいました|んだでしょう|なれません|にましたら|んでいます|ななければ|なせません|ななかった|にましょう|んだだろう|ぬでしょう|にました|んでいる|なれます|なれない|ねません|なせます|んでいた|なせない|にません|ぬだろう|ねます|なない|なれる|ねない|んだら|にます|なせる|ねば|んだ|ぬな|のう|ねる|ぬ|ね"@)
    } else if end == 'む' {
        Some("んでいませんでした|まなかったでしょう|みませんでしたら|まなかっただろう|まないでください|まないでしょう|みませんでした|んでいません|まなかったら|んでください|まないだろう|んでいました|んだでしょう|まれません|みましたら|んでいます|まなければ|ませません|まなかった|みましょう|んだだろう|むでしょう|みました|んでいる|まれます|まれない|めません|ませます|んでいた|ませない|みません|むだろう|めます|まない|まれる|めない|んだら|みます|ませる|めば|んだ|むな|もう|める|む|め"@)
    } else if end == 'る' {
        Some("っていませんでした|らなかったでしょう|りませんでしたら|らなかっただろう|らないでください|らないでしょう|りませんでした|ったでしょう|っていました|ってください|らないだろう|っていません|らなかったら|るでしょう|っています|らなければ|らなかった|られません|っただろう|らせません|りましょう|りましたら|れません|っている|らせない|っていた|りました|るだろう|りません|られます|らせます|られない|ったら|れます|れない|らせる|られる|ります|らない|った|ろう|れる|るな|れば|る|れ"@)
    } else if end == 'ぐ' {
        Some("いでいませんでした|がなかったでしょう|ぎませんでしたら|がなかっただろう|がないでください|がないでしょう|ぎませんでした|いだでしょう|いでいました|いでください|がないだろう|いでいません|がなかったら|ぐでしょう|いでいます|がなかった|がなければ|がせません|がれません|ぎましょう|いだだろう|ぎましたら|がせます|げません|いでいる|いでいた|ぎました|ぐだろう|ぎません|がれます|がれない|げます|いだら|がない|がせる|がれる|げない|ぎます|がない|いだ|げる|ぐな|げば|ぐ|ご|げ"@)
    } else if end == 'づ' {
        Some("っていませんでした|たなかったでしょう|たないでください|ちませんでしたら|たなかっただろう|たないでしょう|ちませんでした|たなかったら|っていません|ったでしょう|ってください|っていました|たないだろう|っただろう|ちましたら|たれません|たなければ|たせません|たなかった|ちましょう|つでしょう|っています|たれます|ちました|たれない|てません|たせます|つだろう|っている|ちません|たせない|っていた|てます|ちます|たせる|たれる|たない|てない|ったら|つな|てば|った|てる|とう|て|つc"@)
    } else if end == 'ぶ' {
        Some("んでいませんでした|ばなかったでしょう|びませんでしたら|ばなかっただろう|ばないでください|ばないでしょう|びませんでした|んでいません|ばなかったら|んでください|ばないだろう|んでいました|んだでしょう|ばれません|びましたら|んでいます|ばなければ|ばせません|ばなかった|びましょう|ぶでしょう|んだだろう|びました|んでいる|ばれない|ばれます|んでいた|べません|ばせます|びません|ぶだろう|ばない|べます|ばれる|べない|んだら|ばせる|びます|ばない|べば|んだ|ぶな|べる|ぶ|ぼ|べ"@)
    } else {
        None
    }
}

fn godan_endings(end: char) -> (r: Option<&'static str>)
    ensures
        r is Some <==> spec_godan_endings(end) is Some,
        r is Some ==> r->0@ == spec_godan_endings(end)->0,
{
    if end == 'う' {
        Some("らなかったでしょう|っていませんでした|らなかっただろう|りませんでしたら|らないでください|りませんでした|らないでしょう|っていました|っていません|らなかったら|ったでしょう|らないだろう|ってください|らなければ|らなかった|られません|らせません|るでしょう|っています|っただろう|りましたら|りましょう|っていた|っている|らせない|らせます|られない|りました|りません|れません|るだろう|られます|られない|られます|らせる|れます|られる|ったら|らない|ります|れない|るな|れば|ろう|った|れる|れ|る")
    } else if end == 'く' {
        Some("いていませんでした|かなかったでしょう|きませんでしたら|かなかっただろう|かないでください|かないでしょう|きませんでした|いたでしょう|いていました|いてください|かないだろう|いていません|かなかったら|くでしょう|いています|かなければ|かなかった|かれません|いただろう|かせません|きましょう|きましたら|けません|いている|かせない|いていた|きました|くだろう|きません|かれます|かせます|かれない|いたら|けます|けない|かせる|かれる|きます|かない|いた|こう|ける|くな|けば|く|け")
    } else if end == 'す' {
        Some("していませんでした|さなかったでしょう|しませんでしたら|さなかっただろう|さないでください|しませんでした|さないでしょう|してください|したでしょう|していません|さないだろう|さなかったら|していました|しただろう|すでしょう|さなかった|しています|されません|しましょう|さなければ|させません|しましたら|せません|されます|されない|していた|すだろう|しました|しません|している|させます|さない|せます|させる|さない|される|します|したら|せない|せば|そう|すな|した|せる|せ|す")
    } else if end == 'つ' {
        Some("っていませんでした|たなかったでしょう|たないでください|ちませんでしたら|たなかっただろう|たないでしょう|ちませんでした|たなかったら|っていません|ったでしょう|ってください|っていました|たないだろう|っただろう|ちましたら|たれません|たなければ|たせません|たなかった|ちましょう|つでしょう|っています|たれます|ちました|たれない|てません|たせます|つだろう|っている|ちません|たせない|っていた|てます|ちます|たせる|たれる|たない|てない|ったら|つな|てば|った|てる|とう|て|つ")
    } else if end == 'ぬ' {
        Some("んでいませんでした|ななかったでしょう|にませんでしたら|ななかっただろう|なないでください|なないでしょう|にませんでした|んでいません|ななかったら|んでください|なないだろう|んでいました|んだでしょう|なれません|にましたら|んでいます|ななければ|なせません|ななかった|にましょう|んだだろう|ぬでしょう|にました|んでいる|なれます|なれない|ねません|なせます|んでいた|なせない|にません|ぬだろう|ねます|なない|なれる|ねない|んだら|にます|なせる|ねば|んだ|ぬな|のう|ねる|ぬ|ね")
    } else if end == 'む' {
        Some("んでいませんでした|まなかったでしょう|みませんでしたら|まなかっただろう|まないでください|まないでしょう|みませんでした|んでいません|まなかったら|んでください|まないだろう|んでいました|んだでしょう|まれません|みましたら|んでいます|まなければ|ませません|まなかった|みましょう|んだだろう|むでしょう|みました|んでいる|まれます|まれない|めません|ませます|んでいた|ませない|みません|むだろう|めます|まない|まれる|めない|んだら|みます|ませる|めば|んだ|むな|もう|める|む|め")
    } else if end == 'る' {
        Some("っていませんでした|らなかったでしょう|りませんでしたら|らなかっただろう|らないでください|らないでしょう|りませんでした|ったでしょう|っていました|ってください|らないだろう|っていません|らなかったら|るでしょう|っています|らなければ|らなかった|られません|っただろう|らせません|りましょう|りましたら|れません|っている|らせない|っていた|りました|るだろう|りません|られます|らせます|られない|ったら|れます|れない|らせる|られる|ります|らない|った|ろう|れる|るな|れば|る|れ")
    } else if end == 'ぐ' {
        Some("いでいませんでした|がなかったでしょう|ぎませんでしたら|がなかっただろう|がないでください|がないでしょう|ぎませんでした|いだでしょう|いでいました|いでください|がないだろう|いでいません|がなかったら|ぐでしょう|いでいます|がなかった|がなければ|がせません|がれません|ぎましょう|いだだろう|ぎましたら|がせます|げません|いでいる|いでいた|ぎました|ぐだろう|ぎません|がれます|がれない|げます|いだら|がない|がせる|がれる|げない|ぎます|がない|いだ|げる|ぐな|げば|ぐ|ご|げ")
    } else if end == 'づ' {
        Some("っていませんでした|たなかったでしょう|たないでください|ちませんでしたら|たなかっただろう|たないでしょう|ちませんでした|たなかったら|っていません|ったでしょう|ってください|っていました|たないだろう|っただろう|ちましたら|たれません|たなければ|たせません|たなかった|ちましょう|つでしょう|っています|たれます|ちました|たれない|てません|たせます|つだろう|っている|ちません|たせない|っていた|てます|ちます|たせる|たれる|たない|てない|ったら|つな|てば|った|てる|とう|て|つc")
    } else if end == 'ぶ' {
        Some("んでいませんでした|ばなかったでしょう|びませんでしたら|ばなかっただろう|ばないでください|ばないでしょう|びませんでした|んでいません|ばなかったら|んでください|ばないだろう|んでいました|んだでしょう|ばれません|びましたら|んでいます|ばなければ|ばせません|ばなかった|びましょう|ぶでしょう|んだだろう|びました|んでいる|ばれない|ばれます|んでいた|べません|ばせます|びません|ぶだろう|ばない|べます|ばれる|べない|んだら|ばせる|びます|ばない|べば|んだ|ぶな|べる|ぶ|ぼ|べ")
    } else {
        None
    }
}

/// One character of the word, escaped for a regular expression: square
/// brackets gain a backslash.
pub open spec fn spec_escape_regex_char(c: char) -> Seq<char> {
    if c == '[' {
        seq!['\\', '[']
    } else if c == ']' {
        seq!['\\', ']']
    } else {
        seq![c]
    }
}

pub open spec fn spec_escape_regex(s: Seq<char>) -> Seq<char>
    decreases s.len(),
{
    if s.len() == 0 {
        Seq::<char>::empty()
    } else {
        spec_escape_regex_char(s[0]) + spec_escape_regex(s.drop_first())
    }
}

fn escape_regex(s: &Vec<char>) -> (r: Vec<char>)
    ensures
        r@ == spec_escape_regex(s@),
{
    let mut out: Vec<char> = Vec::new();
    let mut i: usize = 0;
    proof {
        assert(s@.skip(0) =~= s@);
        assert(Seq::<char>::empty() + spec_escape_regex(s@) =~= spec_escape_regex(s@));
    }
    while i < s.len()
        invariant
            i <= s@.len(),
            spec_escape_regex(s@) == out@ + spec_escape_regex(s@.skip(i as int)),
        decreases s@.len() - i,
    {
        let ghost t0 = s@.skip(i as int);
        let ghost out0 = out@;
        let c = s[i];
        if c == '[' {
            out.push('\\');
            out.push('[');
        } else if c == ']' {
            out.push('\\');
            out.push(']');
        } else {
            out.push(c);
        }
        i = i + 1;
        proof {
            assert(t0.skip(1) =~= s@.skip(i as int));
            assert(out@ =~= out0 + spec_escape_regex_char(t0[0]));
            assert(spec_escape_regex(s@) =~= out@ + spec_escape_regex(s@.skip(i as int)));
        }
    }
    proof {
        assert(s@.skip(s@.len() as int) =~= Seq::<char>::empty());
    }
    out
}

/// The pattern generated for a word of each class: the class's suffix
/// alternation anchored to the escaped word or its stem (the word less its
/// final character), irregular classes using their fixed catalogs.
pub open spec fn spec_find_pattern(word: Seq<char>, tags: Seq<String>) -> Seq<char> {
    let ew = spec_escape_regex(word);
    let stem = ew.drop_last();
    match spec_conjugation_type(word, tags) {
        ConjugationType::NoInflection => " ?"@ + ew,
        ConjugationType::IAdjective => stem + "(?:くありませんでした|くないでしょう|くないだろう|くありません|くなかった|いでしょう|かったです|くなければ|いだろう|くない|いです|かった|ければ|い)"@,
        ConjugationType::IxAdjective => "(?: ?良[よ]|良|よ)くありませんでした|(?: ?良[よ]|良|よ)くありません|(?: ?良[よ]|良|よ)くなかった|(?: ?良[よ]|良|よ)かったです|(?: ?良[よ]|良|よ)ければ|(?: ?良[よ]|良|よ)かった|(?: ?良[よ]|良|よ)くない|(?: ?良[よ]|良|よ)くて|いいです|いい"@,
        ConjugationType::NaAdjective => ew + "(?:ではありませんでした|ではありません|ではなかった|ではない|だった|でした|であれ|です|なれ|だろ|では|なら|なり|なる|で|だ|に|な|)"@,
        ConjugationType::Ichidan => stem + "(?:ていませんでした|なかったでしょう|ませんでしたら|なかっただろう|ないでください|ないでしょう|ませんでした|ないだろう|てください|させません|たでしょう|ていました|ていません|なかったら|られません|られません|るでしょう|られます|られない|させない|ています|るだろう|ただろう|なかった|ましょう|なければ|られます|られない|させます|ましたら|ている|ていた|ません|ました|させる|たろう|られる|られる|れば|ない|たら|よう|ます|るな|る|た|ろ)"@,
        ConjugationType::Godan => {
            match spec_godan_endings(ew.last()) {
                Some(e) => " ?"@ + stem + "(?:"@ + e + ")"@,
                None => Seq::<char>::empty(),
            }
        },
        ConjugationType::Aru => "(?: ?有[あ]|有|あ)|(?: ?有[あ]|有|あ)りませんでした|(?: ?有[あ]|有|あ)ってください|ないでください|(?: ?有[あ]|有|あ)らせません|(?: ?有[あ]|有|あ)られません|(?: ?有[あ]|有|あ)りましょう|(?: ?有[あ]|有|あ)りました|(?: ?有[あ]|有|あ)られない|(?: ?有[あ]|有|あ)られます|(?: ?有[あ]|有|あ)らせない|(?: ?有[あ]|有|あ)らせます|(?: ?有[あ]|有|あ)りません|なかったら|(?: ?有[あ]|有|あ)れません|なかった|(?: ?有[あ]|有|あ)れない|(?: ?有[あ]|有|あ)らせる|(?: ?有[あ]|有|あ)られる|(?: ?有[あ]|有|あ)れます|(?: ?有[あ]|有|あ)ります|なければ|(?: ?有[あ]|有|あ)ったら|(?: ?有[あ]|有|あ)って|なくて|(?: ?有[あ]|有|あ)ろう|(?: ?有[あ]|有|あ)るな|(?: ?有[あ]|有|あ)れば|(?: ?有[あ]|有|あ)った|(?: ?有[あ]|有|あ)れる|(?: ?有[あ]|有|あ)れ|(?: ?有[あ]|有|あ)る|ない"@,
        ConjugationType::Kuru => "(?: ?来[く]|来|く)なかったでしょう|(?: ?来[く]|来|く)なかっただろう|(?: ?来[く]|来|く)ませんでしたら|(?: ?来[く]|来|く)ないでください|(?: ?来[く]|来|く)ないでしょう|(?: ?来[く]|来|く)ませんでした|(?: ?来[く]|来|く)させません|(?: ?来[く]|来|く)るでしょう|(?: ?来[く]|来|く)ませんなら|(?: ?来[く]|来|く)てください|(?: ?来[く]|来|く)なかったら|(?: ?来[く]|来|く)たでしょう|(?: ?来[く]|来|く)られません|(?: ?来[く]|来|く)ないだろう|(?: ?来[く]|来|く)させない|(?: ?来[く]|来|く)なかった|(?: ?来[く]|来|く)させます|(?: ?来[く]|来|く)なければ|(?: ?来[く]|来|く)られない|(?: ?来[く]|来|く)られます|(?: ?来[く]|来|く)ますれば|(?: ?来[く]|来|く)ましたら|(?: ?来[く]|来|く)られる|(?: ?来[く]|来|く)させる|(?: ?来[く]|来|く)ました|(?: ?来[く]|来|く)られる|(?: ?来[く]|来|く)ません|きませば|(?: ?来[く]|来|く)れば|(?: ?来[く]|来|く)ない|(?: ?来[く]|来|く)るな|(?: ?来[く]|来|く)よう|(?: ?来[く]|来|く)たら|(?: ?来[く]|来|く)ます|(?: ?来[く]|来|く)い|(?: ?来[く]|来|く)る|(?: ?来[く]|来|く)た"@,
        ConjugationType::Suru => "していませんでした|しなかっただろう|しないでください|しなかたでしょう|しませんでしたら|しませんでした|しないでしょう|[為す]るでしょう|しましたろう|していません|しませんなら|しないだろう|しなかったら|していました|してください|しなければ|しましたら|しなかった|しますれば|[為す]るだろう|しましょう|できません|しています|しただろう|したろう|しました|できます|しません|しませば|できない|したら|させる|される|できる|[為す]れば|[為す]るな|します|しよう|しない|[為す]る|した|しろ"@,
    }
}

/// Whether a pattern exists for the word: only a strong-conjugation verb
/// whose escaped form ends in a character outside the recognized set has
/// none.
pub open spec fn spec_find_pattern_ok(word: Seq<char>, tags: Seq<String>) -> bool {
    !(spec_conjugation_type(word, tags) == ConjugationType::Godan && spec_godan_endings(
        spec_escape_regex(word).last(),
    ) is None)
}

/// The regular expression matching the word and its recognized inflected
/// surface forms, or an error for a strong-conjugation verb whose ending
/// has no catalog.
pub fn get_find_regex(word: &str, tags: &Vec<String>) -> (r: Result<String, String>)
    requires
        word@.len() >= 1,
    ensures
        r is Ok <==> spec_find_pattern_ok(word@, tags@),
        r is Ok ==> r->Ok_0@ == spec_find_pattern(word@, tags@),
        r is Err ==> r->Err_0@ == "no strong-conjugation catalog for the ending "@ + seq![
            spec_escape_regex(word@).last(),
        ] + " of "@ + word@,
{
    let wv = crate::text::str_to_chars(word);
    let ew = escape_regex(&wv);
    proof {
        lemma_escape_regex_len(word@);
    }
    let end = ew[ew.len() - 1];
    let stem = crate::text::sub_chars(&ew, 0, ew.len() - 1);
    proof {
        assert(stem@ =~= spec_escape_regex(word@).drop_last());
    }
    let ctype = get_conjugation_type(word, tags);
    let mut out: Vec<char> = Vec::new();
    match ctype {
        ConjugationType::NoInflection => {
            crate::text::push_all(&mut out, &crate::text::str_to_chars(" ?"));
            crate::text::push_all(&mut out, &ew);
            proof {
                assert(out@ =~= spec_find_pattern(word@, tags@));
            }
            Ok(crate::text::chars_to_string(&out))
        },
        ConjugationType::IAdjective => {
            crate::text::push_all(&mut out, &stem);
            crate::text::push_all(&mut out, &crate::text::str_to_chars("(?:くありませんでした|くないでしょう|くないだろう|くありません|くなかった|いでしょう|かったです|くなければ|いだろう|くない|いです|かった|ければ|い)"));
            proof {
                assert(out@ =~= spec_find_pattern(word@, tags@));
            }
            Ok(crate::text::chars_to_string(&out))
        },
        ConjugationType::IxAdjective => {
            crate::text::push_all(&mut out, &crate::text::str_to_chars("(?: ?良[よ]|良|よ)くありませんでした|(?: ?良[よ]|良|よ)くありません|(?: ?良[よ]|良|よ)くなかった|(?: ?良[よ]|良|よ)かったです|(?: ?良[よ]|良|よ)ければ|(?: ?良[よ]|良|よ)かった|(?: ?良[よ]|良|よ)くない|(?: ?良[よ]|良|よ)くて|いいです|いい"));
            proof {
                assert(out@ =~= spec_find_pattern(word@, tags@));
            }
            Ok(crate::text::chars_to_string(&out))
        },
        ConjugationType::NaAdjective => {
            crate::text::push_all(&mut out, &ew);
            crate::text::push_all(&mut out, &crate::text::str_to_chars("(?:ではありませんでした|ではありません|ではなかった|ではない|だった|でした|であれ|です|なれ|だろ|では|なら|なり|なる|で|だ|に|な|)"));
            proof {
                assert(out@ =~= spec_find_pattern(word@, tags@));
            }
            Ok(crate::text::chars_to_string(&out))
        },
        ConjugationType::Ichidan => {
            crate::text::push_all(&mut out, &stem);
            crate::text::push_all(&mut out, &crate::text::str_to_chars("(?:ていませんでした|なかったでしょう|ませんでしたら|なかっただろう|ないでください|ないでしょう|ませんでした|ないだろう|てください|させません|たでしょう|ていました|ていません|なかったら|られません|られません|るでしょう|られます|られない|させない|ています|るだろう|ただろう|なかった|ましょう|なければ|られます|られない|させます|ましたら|ている|ていた|ません|ました|させる|たろう|られる|られる|れば|ない|たら|よう|ます|るな|る|た|ろ)"));
            proof {
                assert(out@ =~= spec_find_pattern(word@, tags@));
            }
            Ok(crate::text::chars_to_string(&out))
        },
        ConjugationType::Godan => {
            match godan_endings(end) {
                Some(e) => {
                    crate::text::push_all(&mut out, &crate::text::str_to_chars(" ?"));
                    crate::text::push_all(&mut out, &stem);
                    crate::text::push_all(&mut out, &crate::text::str_to_chars("(?:"));
                    crate::text::push_all(&mut out, &crate::text::str_to_chars(e));
                    crate::text::push_all(&mut out, &crate::text::str_to_chars(")"));
                    proof {
                        assert(out@ =~= spec_find_pattern(word@, tags@));
                    }
                    Ok(crate::text::chars_to_string(&out))
                },
                None => {
                    let mut message = "no strong-conjugation catalog for the ending "
                        .to_owned();
                    let mut tail: Vec<char> = Vec::new();
                    tail.push(end);
                    crate::text::push_str_all(
                        &mut message,
                        crate::text::chars_to_string(&tail).as_str(),
                    );
                    crate::text::push_str_all(&mut message, " of ");
                    crate::text::push_str_all(&mut message, word);
                    proof {
                        assert(tail@ =~= seq![spec_escape_regex(word@).last()]);
                    }
                    Err(message)
                },
            }
        },
        ConjugationType::Aru => {
            crate::text::push_all(&mut out, &crate::text::str_to_chars("(?: ?有[あ]|有|あ)|(?: ?有[あ]|有|あ)りませんでした|(?: ?有[あ]|有|あ)ってください|ないでください|(?: ?有[あ]|有|あ)らせません|(?: ?有[あ]|有|あ)られません|(?: ?有[あ]|有|あ)りましょう|(?: ?有[あ]|有|あ)りました|(?: ?有[あ]|有|あ)られない|(?: ?有[あ]|有|あ)られます|(?: ?有[あ]|有|あ)らせない|(?: ?有[あ]|有|あ)らせます|(?: ?有[あ]|有|あ)りません|なかったら|(?: ?有[あ]|有|あ)れません|なかった|(?: ?有[あ]|有|あ)れない|(?: ?有[あ]|有|あ)らせる|(?: ?有[あ]|有|あ)られる|(?: ?有[あ]|有|あ)れます|(?: ?有[あ]|有|あ)ります|なければ|(?: ?有[あ]|有|あ)ったら|(?: ?有[あ]|有|あ)って|なくて|(?: ?有[あ]|有|あ)ろう|(?: ?有[あ]|有|あ)るな|(?: ?有[あ]|有|あ)れば|(?: ?有[あ]|有|あ)った|(?: ?有[あ]|有|あ)れる|(?: ?有[あ]|有|あ)れ|(?: ?有[あ]|有|あ)る|ない"));
            proof {
                assert(out@ =~= spec_find_pattern(word@, tags@));
            }
            Ok(crate::text::chars_to_string(&out))
        },
        ConjugationType::Kuru => {
            crate::text::push_all(&mut out, &crate::text::str_to_chars("(?: ?来[く]|来|く)なかったでしょう|(?: ?来[く]|来|く)なかっただろう|(?: ?来[く]|来|く)ませんでしたら|(?: ?来[く]|来|く)ないでください|(?: ?来[く]|来|く)ないでしょう|(?: ?来[く]|来|く)ませんでした|(?: ?来[く]|来|く)させません|(?: ?来[く]|来|く)るでしょう|(?: ?来[く]|来|く)ませんなら|(?: ?来[く]|来|く)てください|(?: ?来[く]|来|く)なかったら|(?: ?来[く]|来|く)たでしょう|(?: ?来[く]|来|く)られません|(?: ?来[く]|来|く)ないだろう|(?: ?来[く]|来|く)させない|(?: ?来[く]|来|く)なかった|(?: ?来[く]|来|く)させます|(?: ?来[く]|来|く)なければ|(?: ?来[く]|来|く)られない|(?: ?来[く]|来|く)られます|(?: ?来[く]|来|く)ますれば|(?: ?来[く]|来|く)ましたら|(?: ?来[く]|来|く)られる|(?: ?来[く]|来|く)させる|(?: ?来[く]|来|く)ました|(?: ?来[く]|来|く)られる|(?: ?来[く]|来|く)ません|きませば|(?: ?来[く]|来|く)れば|(?: ?来[く]|来|く)ない|(?: ?来[く]|来|く)るな|(?: ?来[く]|来|く)よう|(?: ?来[く]|来|く)たら|(?: ?来[く]|来|く)ます|(?: ?来[く]|来|く)い|(?: ?来[く]|来|く)る|(?: ?来[く]|来|く)た"));
            proof {
                assert(out@ =~= spec_find_pattern(word@, tags@));
            }
            Ok(crate::text::chars_to_string(&out))
        },
        ConjugationType::Suru => {
            crate::text::push_all(&mut out, &crate::text::str_to_chars("していませんでした|しなかっただろう|しないでください|しなかたでしょう|しませんでしたら|しませんでした|しないでしょう|[為す]るでしょう|しましたろう|していません|しませんなら|しないだろう|しなかったら|していました|してください|しなければ|しましたら|しなかった|しますれば|[為す]るだろう|しましょう|できません|しています|しただろう|したろう|しました|できます|しません|しませば|できない|したら|させる|される|できる|[為す]れば|[為す]るな|します|しよう|しない|[為す]る|した|しろ"));
            proof {
                assert(out@ =~= spec_find_pattern(word@, tags@));
            }
            Ok(crate::text::chars_to_string(&out))
        },
    }
}

/// Escaping never empties a nonempty word.
proof fn lemma_escape_regex_len(s: Seq<char>)
    ensures
        spec_escape_regex(s).len() >= s.len(),
    decreases s.len(),
{
    if s.len() > 0 {
        lemma_escape_regex_len(s.drop_first());
    }
}

} // verus!
