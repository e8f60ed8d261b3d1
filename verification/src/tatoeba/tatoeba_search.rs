//! The sentence-search service client's query model: the filter settings
//! and the page-request text they serialize to; fetching itself happens
//! outside the library, which only decides what to request next.

use vstd::prelude::*;
use crate::json::spec_nat_digits;
use crate::text::{push_str_all, push_all, chars_to_string};

verus! {

/// Filter on how a sentence entered the corpus.
#[derive(PartialEq, Eq, Structural, Clone, Copy, Debug)]
pub enum TatoebaOrigin {
    Original,
    Translation,
    Known,
    Unknown,
}

impl TatoebaOrigin {
    /// The query value of the filter.
    pub fn as_query_value(&self) -> (r: &'static str)
        ensures
            r@ == spec_origin_value(*self),
    {
        match self {
            TatoebaOrigin::Original => "original",
            TatoebaOrigin::Translation => "translation",
            TatoebaOrigin::Known => "known",
            TatoebaOrigin::Unknown => "unknown",
        }
    }
}

pub open spec fn spec_origin_value(o: TatoebaOrigin) -> Seq<char> {
    match o {
        TatoebaOrigin::Original => "original"@,
        TatoebaOrigin::Translation => "translation"@,
        TatoebaOrigin::Known => "known"@,
        TatoebaOrigin::Unknown => "unknown"@,
    }
}

/// Result ordering.
#[derive(PartialEq, Eq, Structural, Clone, Copy, Debug)]
pub enum TatoebaSort {
    Relevance,
    Shortest,
    Longest,
    Newest,
    Oldest,
    Modified,
    Random,
}

impl TatoebaSort {
    /// The query value of the ordering.
    pub fn as_query_value(&self) -> (r: &'static str)
        ensures
            r@ == spec_sort_value(*self),
    {
        match self {
            TatoebaSort::Relevance => "relevance",
            TatoebaSort::Shortest => "words",
            TatoebaSort::Longest => "-words",
            TatoebaSort::Newest => "created",
            TatoebaSort::Oldest => "-created",
            TatoebaSort::Modified => "modified",
            TatoebaSort::Random => "random",
        }
    }
}

pub open spec fn spec_sort_value(s: TatoebaSort) -> Seq<char> {
    match s {
        TatoebaSort::Relevance => "relevance"@,
        TatoebaSort::Shortest => "words"@,
        TatoebaSort::Longest => "-words"@,
        TatoebaSort::Newest => "created"@,
        TatoebaSort::Oldest => "-created"@,
        TatoebaSort::Modified => "modified"@,
        TatoebaSort::Random => "random"@,
    }
}

/// One search configuration: each field that is set becomes one query
/// parameter.
pub struct TatoebaSearch {
    pub lang: Vec<String>,
    pub word_count: (Option<usize>, Option<usize>),
    pub owner: Vec<String>,
    pub is_orphan: Option<bool>,
    pub is_unapproved: Option<bool>,
    pub has_audio: Option<bool>,
    pub tag: Vec<String>,
    pub list: Vec<String>,
    pub is_native: Option<bool>,
    pub origin: Option<TatoebaOrigin>,
    pub trans_lang: Vec<String>,
    pub trans_is_direct: Option<bool>,
    pub trans_owner: Vec<String>,
    pub trans_is_unapproved: Option<bool>,
    pub trans_is_orphan: Option<bool>,
    pub trans_has_audio: Option<bool>,
    pub trans_count: Option<bool>,
    pub sort: Option<TatoebaSort>,
    pub limit: Option<usize>,
}

/// The values of a list, joined with commas.
pub open spec fn spec_joined(v: Seq<String>, i: int) -> Seq<char>
    decreases v.len() - i,
{
    if i < 0 || i >= v.len() {
        Seq::<char>::empty()
    } else if i + 1 == v.len() {
        v[i]@
    } else {
        v[i]@ + seq![','] + spec_joined(v, i + 1)
    }
}

/// A list parameter: nothing when the list is empty.
pub open spec fn spec_list_param(prefix: Seq<char>, v: Seq<String>) -> Seq<char> {
    if v.len() == 0 {
        Seq::<char>::empty()
    } else {
        prefix + spec_joined(v, 0)
    }
}

/// A yes/no parameter: nothing when unset.
pub open spec fn spec_bool_param(prefix: Seq<char>, v: Option<bool>) -> Seq<char> {
    match v {
        Some(b) => if b {
            prefix + "yes"@
        } else {
            prefix + "no"@
        },
        None => Seq::<char>::empty(),
    }
}

/// The word-count range parameter.
pub open spec fn spec_word_count_param(v: (Option<usize>, Option<usize>)) -> Seq<char> {
    match v {
        (Some(lo), Some(hi)) => "&word_count="@ + spec_nat_digits(lo as int) + seq!['-']
            + spec_nat_digits(hi as int),
        (Some(lo), None) => "&word_count="@ + spec_nat_digits(lo as int) + seq!['-'],
        (None, Some(hi)) => "&word_count=-"@ + spec_nat_digits(hi as int),
        (None, None) => Seq::<char>::empty(),
    }
}

/// The whole page-request text for a query, with an optional continuation
/// cursor at the end.
pub open spec fn spec_search_url(
    s: TatoebaSearch,
    query: Seq<char>,
    after: Option<Seq<char>>,
) -> Seq<char> {
    "https://api.tatoeba.org/unstable/sentences?q="@ + query + spec_list_param("&lang="@, s.lang@)
        + spec_word_count_param(s.word_count) + spec_list_param("&owner="@, s.owner@)
        + spec_bool_param("&is_orphan="@, s.is_orphan) + spec_bool_param(
        "&is_unapproved="@,
        s.is_unapproved,
    ) + spec_bool_param("&has_audio="@, s.has_audio) + spec_list_param("&tag="@, s.tag@)
        + spec_list_param("&list="@, s.list@) + spec_bool_param("&is_native="@, s.is_native) + (
    match s.origin {
        Some(o) => "&origin="@ + spec_origin_value(o),
        None => Seq::<char>::empty(),
    }) + spec_list_param("&trans:lang="@, s.trans_lang@) + spec_bool_param(
        "&trans:is_direct="@,
        s.trans_is_direct,
    ) + spec_list_param("&trans:owner="@, s.trans_owner@) + spec_bool_param(
        "&trans:is_unapproved="@,
        s.trans_is_unapproved,
    ) + spec_bool_param("&trans:is_orphan="@, s.trans_is_orphan) + spec_bool_param(
        "&trans:has_audio="@,
        s.trans_has_audio,
    ) + (match s.trans_count {
        Some(b) => if b {
            "&trans:count=!0"@
        } else {
            "&trans:count=0"@
        },
        None => Seq::<char>::empty(),
    }) + (match s.sort {
        Some(o) => "&sort="@ + spec_sort_value(o),
        None => Seq::<char>::empty(),
    }) + (match s.limit {
        Some(l) => "&limit="@ + spec_nat_digits(l as int),
        None => Seq::<char>::empty(),
    }) + spec_list_param("&showtrans="@, s.trans_lang@) + (match after {
        Some(a) => "&after="@ + a,
        None => Seq::<char>::empty(),
    })
}

fn push_joined(out: &mut Vec<char>, v: &Vec<String>, i: usize)
    requires
        i <= v@.len(),
    ensures
        final(out)@ == old(out)@ + spec_joined(v@, i as int),
    decreases v@.len() - i,
{
    let ghost out0 = out@;
    if i == v.len() {
        proof {
            assert(out@ =~= out0 + spec_joined(v@, i as int));
        }
        return;
    }
    push_all(out, &crate::text::str_to_chars(v[i].as_str()));
    if i + 1 < v.len() {
        out.push(',');
        push_joined(out, v, i + 1);
        proof {
            assert(out@ =~= out0 + spec_joined(v@, i as int));
        }
    } else {
        proof {
            assert(out@ =~= out0 + spec_joined(v@, i as int));
        }
    }
}

fn push_list_param(out: &mut Vec<char>, prefix: &str, v: &Vec<String>)
    ensures
        final(out)@ == old(out)@ + spec_list_param(prefix@, v@),
{
    let ghost out0 = out@;
    if v.len() == 0 {
        proof {
            assert(out@ =~= out0 + spec_list_param(prefix@, v@));
        }
        return;
    }
    push_all(out, &crate::text::str_to_chars(prefix));
    push_joined(out, v, 0);
    proof {
        assert(out@ =~= out0 + spec_list_param(prefix@, v@));
    }
}

fn push_bool_param(out: &mut Vec<char>, prefix: &str, v: Option<bool>)
    ensures
        final(out)@ == old(out)@ + spec_bool_param(prefix@, v),
{
    let ghost out0 = out@;
    match v {
        Some(b) => {
            push_all(out, &crate::text::str_to_chars(prefix));
            if b {
                push_all(out, &crate::text::str_to_chars("yes"));
            } else {
                push_all(out, &crate::text::str_to_chars("no"));
            }
            proof {
                assert(out@ =~= out0 + spec_bool_param(prefix@, v));
            }
        },
        None => {
            proof {
                assert(out@ =~= out0 + spec_bool_param(prefix@, v));
            }
        },
    }
}

fn push_nat(out: &mut Vec<char>, n: usize)
    ensures
        final(out)@ == old(out)@ + spec_nat_digits(n as int),
{
    let digits = crate::numeric::u64_to_dec(n as u64);
    proof {
        crate::json::lemma_nat_digits_canonical(digits@, n as int);
    }
    push_all(out, &digits);
}

impl TatoebaSearch {
    /// A search over one source language with translations in one target
    /// language; every other filter is unset.
    pub fn new(from: &str, to: &str) -> (r: Self)
        ensures
            r.lang@.len() == 1 && r.lang@[0]@ == from@,
            r.trans_lang@.len() == 1 && r.trans_lang@[0]@ == to@,
            r.word_count == (None::<usize>, None::<usize>),
            r.owner@.len() == 0,
            r.is_orphan is None,
            r.is_unapproved is None,
            r.has_audio is None,
            r.tag@.len() == 0,
            r.list@.len() == 0,
            r.is_native is None,
            r.origin is None,
            r.trans_is_direct is None,
            r.trans_owner@.len() == 0,
            r.trans_is_unapproved is None,
            r.trans_is_orphan is None,
            r.trans_has_audio is None,
            r.trans_count is None,
            r.sort is None,
            r.limit is None,
    {
        let mut lang: Vec<String> = Vec::new();
        lang.push(from.to_owned());
        let mut trans_lang: Vec<String> = Vec::new();
        trans_lang.push(to.to_owned());
        TatoebaSearch {
            lang,
            word_count: (None, None),
            owner: Vec::new(),
            is_orphan: None,
            is_unapproved: None,
            has_audio: None,
            tag: Vec::new(),
            list: Vec::new(),
            is_native: None,
            origin: None,
            trans_lang,
            trans_is_direct: None,
            trans_owner: Vec::new(),
            trans_is_unapproved: None,
            trans_is_orphan: None,
            trans_has_audio: None,
            trans_count: None,
            sort: None,
            limit: None,
        }
    }

    /// Serializes the search into the page-request text, with an optional
    /// continuation cursor.
    #[verifier::rlimit(100)]
    pub fn to_string(&self, querry: &str, after: Option<&str>) -> (r: String)
        ensures
            r@ == spec_search_url(
                *self,
                querry@,
                match after {
                    Some(a) => Some(a@),
                    None => None,
                },
            ),
    {
        let mut out: Vec<char> = Vec::new();
        push_all(
            &mut out,
            &crate::text::str_to_chars("https://api.tatoeba.org/unstable/sentences?q="),
        );
        push_all(&mut out, &crate::text::str_to_chars(querry));
        push_list_param(&mut out, "&lang=", &self.lang);
        let ghost c0 = out@;
        match self.word_count {
            (Some(lo), Some(hi)) => {
                push_all(&mut out, &crate::text::str_to_chars("&word_count="));
                push_nat(&mut out, lo);
                out.push('-');
                push_nat(&mut out, hi);
                proof {
                    assert(out@ =~= c0 + spec_word_count_param(self.word_count));
                }
            },
            (Some(lo), None) => {
                push_all(&mut out, &crate::text::str_to_chars("&word_count="));
                push_nat(&mut out, lo);
                out.push('-');
                proof {
                    assert(out@ =~= c0 + spec_word_count_param(self.word_count));
                }
            },
            (None, Some(hi)) => {
                push_all(&mut out, &crate::text::str_to_chars("&word_count=-"));
                push_nat(&mut out, hi);
                proof {
                    assert(out@ =~= c0 + spec_word_count_param(self.word_count));
                }
            },
            (None, None) => {
                proof {
                    assert(out@ =~= c0 + spec_word_count_param(self.word_count));
                }
            },
        }
        push_list_param(&mut out, "&owner=", &self.owner);
        push_bool_param(&mut out, "&is_orphan=", self.is_orphan);
        push_bool_param(&mut out, "&is_unapproved=", self.is_unapproved);
        push_bool_param(&mut out, "&has_audio=", self.has_audio);
        push_list_param(&mut out, "&tag=", &self.tag);
        push_list_param(&mut out, "&list=", &self.list);
        push_bool_param(&mut out, "&is_native=", self.is_native);
        let ghost c1 = out@;
        match self.origin {
            Some(o) => {
                push_all(&mut out, &crate::text::str_to_chars("&origin="));
                push_all(&mut out, &crate::text::str_to_chars(o.as_query_value()));
                proof {
                    assert(out@ =~= c1 + ("&origin="@ + spec_origin_value(o)));
                }
            },
            None => {},
        }
        push_list_param(&mut out, "&trans:lang=", &self.trans_lang);
        push_bool_param(&mut out, "&trans:is_direct=", self.trans_is_direct);
        push_list_param(&mut out, "&trans:owner=", &self.trans_owner);
        push_bool_param(&mut out, "&trans:is_unapproved=", self.trans_is_unapproved);
        push_bool_param(&mut out, "&trans:is_orphan=", self.trans_is_orphan);
        push_bool_param(&mut out, "&trans:has_audio=", self.trans_has_audio);
        let ghost c2 = out@;
        match self.trans_count {
            Some(b) => {
                if b {
                    push_all(&mut out, &crate::text::str_to_chars("&trans:count=!0"));
                } else {
                    push_all(&mut out, &crate::text::str_to_chars("&trans:count=0"));
                }
            },
            None => {},
        }
        let ghost c3 = out@;
        match self.sort {
            Some(o) => {
                push_all(&mut out, &crate::text::str_to_chars("&sort="));
                push_all(&mut out, &crate::text::str_to_chars(o.as_query_value()));
                proof {
                    assert(out@ =~= c3 + ("&sort="@ + spec_sort_value(o)));
                }
            },
            None => {},
        }
        let ghost c4 = out@;
        match self.limit {
            Some(l) => {
                push_all(&mut out, &crate::text::str_to_chars("&limit="));
                push_nat(&mut out, l);
                proof {
                    assert(out@ =~= c4 + ("&limit="@ + spec_nat_digits(l as int)));
                }
            },
            None => {},
        }
        push_list_param(&mut out, "&showtrans=", &self.trans_lang);
        let ghost c5 = out@;
        match after {
            Some(a) => {
                push_all(&mut out, &crate::text::str_to_chars("&after="));
                push_all(&mut out, &crate::text::str_to_chars(a));
                proof {
                    assert(out@ =~= c5 + ("&after="@ + a@));
                }
            },
            None => {},
        }
        proof {
            assert(out@ =~= spec_search_url(
                *self,
                querry@,
                match after {
                    Some(a) => Some(a@),
                    None => None,
                },
            ));
        }
        chars_to_string(&out)
    }
}

/// One page of results.
pub struct TatoebaResponse {
    pub paging: TatoebaPaging,
    pub data: Vec<TatoebaEntry>,
}

/// The page cursor data of a response.
pub struct TatoebaPaging {
    pub total: usize,
    pub has_next: bool,
    pub cursor_end: Option<String>,
    pub next: Option<String>,
}

/// One sentence with its transcriptions, recordings and translations.
pub struct TatoebaEntry {
    pub id: u32,
    pub text: String,
    pub lang: String,
    pub script: Option<String>,
    pub license: String,
    pub owner: String,
    pub transcriptions: Vec<TatoebaTranscription>,
    pub audios: Vec<TatoebaAudio>,
    pub translations: Vec<Vec<TatoebaTranslation>>,
}

/// One transcription of a sentence.
pub struct TatoebaTranscription {
    pub script: String,
    pub text: String,
    pub needs_review: bool,
    pub kind: String,
    pub html: String,
}

/// One audio recording of a sentence.
pub struct TatoebaAudio {
    pub author: String,
    pub attribution_url: String,
    pub license: String,
    pub download_url: String,
}

/// One translation of a sentence.
pub struct TatoebaTranslation {
    pub id: u32,
    pub text: String,
    pub lang: String,
    pub script: Option<String>,
    pub license: String,
    pub owner: String,
    pub transcriptions: Vec<TatoebaTranscription>,
    pub audios: Vec<TatoebaAudio>,
}

/// The paging state of iterating a search result.
pub struct TatoebaSearchIter {
    pub response: Option<TatoebaResponse>,
}

impl TatoebaSearchIter {
    /// What to fetch after the current page is drained: the next page's
    /// cursor, when the service reported one.
    pub fn next_cursor(&self) -> (r: Option<&String>)
        ensures
            r is Some <==> (self.response is Some && self.response->0.paging.cursor_end
                is Some),
            r is Some ==> r->0@ == self.response->0.paging.cursor_end->0@,
    {
        match &self.response {
            Some(resp) => {
                match &resp.paging.cursor_end {
                    Some(c) => Some(c),
                    None => None,
                }
            },
            None => None,
        }
    }
}

} // verus!
