//! The retired sentence-search interface: its filter model and the
//! page-request text it serializes to, kept for sources still answering in
//! its shape.

use vstd::prelude::*;
use crate::json::spec_nat_digits;
use crate::text::{push_all, chars_to_string};

verus! {

/// A three-valued filter: indifferent, required, or excluded.
#[derive(PartialEq, Eq, Structural, Clone, Copy, Debug)]
pub enum Optional {
    Any,
    Yes,
    No,
}

impl Optional {
    /// The query value of the filter.
    pub fn as_query_value(&self) -> (r: &'static str)
        ensures
            r@ == spec_optional_value(*self),
    {
        match self {
            Optional::Any => "any",
            Optional::Yes => "yes",
            Optional::No => "no",
        }
    }
}

pub open spec fn spec_optional_value(o: Optional) -> Seq<char> {
    match o {
        Optional::Any => "any"@,
        Optional::Yes => "yes"@,
        Optional::No => "no"@,
    }
}

/// Result ordering of the retired interface.
#[derive(PartialEq, Eq, Structural, Clone, Copy, Debug)]
pub enum Sort {
    Relevance,
    Words,
    Created,
    Modified,
    Random,
}

impl Sort {
    /// The query value of the ordering.
    pub fn as_query_value(&self) -> (r: &'static str)
        ensures
            r@ == spec_sort_value_old(*self),
    {
        match self {
            Sort::Relevance => "relevance",
            Sort::Words => "words",
            Sort::Created => "created",
            Sort::Modified => "modified",
            Sort::Random => "random",
        }
    }
}

pub open spec fn spec_sort_value_old(s: Sort) -> Seq<char> {
    match s {
        Sort::Relevance => "relevance"@,
        Sort::Words => "words"@,
        Sort::Created => "created"@,
        Sort::Modified => "modified"@,
        Sort::Random => "random"@,
    }
}

/// Whether a translation filter limits to or excludes its matches.
#[derive(PartialEq, Eq, Structural, Clone, Copy, Debug)]
pub enum Limit {
    Limit,
    Exclude,
}

impl Limit {
    /// The query value of the filter.
    pub fn as_query_value(&self) -> (r: &'static str)
        ensures
            r@ == spec_limit_value(*self),
    {
        match self {
            Limit::Limit => "limit",
            Limit::Exclude => "exclude",
        }
    }
}

pub open spec fn spec_limit_value(l: Limit) -> Seq<char> {
    match l {
        Limit::Limit => "limit"@,
        Limit::Exclude => "exclude"@,
    }
}

/// One search configuration of the retired interface.
pub struct TatoebaSearch {
    pub from: String,
    pub has_audio: Optional,
    pub native: bool,
    pub original: bool,
    pub orphans: Optional,
    pub sort: Sort,
    pub sort_reverse: bool,
    pub tags: Vec<String>,
    pub to: String,
    pub trans_filter: Limit,
    pub trans_has_audio: Optional,
    pub trans_link: Option<String>,
    pub trans_orphan: Optional,
    pub trans_to: Option<String>,
    pub trans_unapproved: Optional,
    pub trans_user: Option<String>,
    pub unapproved: Optional,
    pub user: Option<String>,
    pub word_count_max: Option<u16>,
    pub word_count_min: Option<u16>,
}

impl Default for TatoebaSearch {
    /// A search with every filter indifferent and empty languages.
    fn default() -> (r: Self)
        ensures
            r.from@.len() == 0,
            r.to@.len() == 0,
            r.has_audio == Optional::Any,
            !r.native,
            !r.original,
            r.orphans == Optional::Any,
            r.sort == Sort::Relevance,
            !r.sort_reverse,
            r.tags@.len() == 0,
            r.trans_filter == Limit::Limit,
            r.trans_has_audio == Optional::Any,
            r.trans_link is None,
            r.trans_orphan == Optional::Any,
            r.trans_to is None,
            r.trans_unapproved == Optional::Any,
            r.trans_user is None,
            r.unapproved == Optional::Any,
            r.user is None,
            r.word_count_max is None,
            r.word_count_min is None,
    {
        TatoebaSearch {
            from: String::new(),
            has_audio: Optional::Any,
            native: false,
            original: false,
            orphans: Optional::Any,
            sort: Sort::Relevance,
            sort_reverse: false,
            tags: Vec::new(),
            to: String::new(),
            trans_filter: Limit::Limit,
            trans_has_audio: Optional::Any,
            trans_link: None,
            trans_orphan: Optional::Any,
            trans_to: None,
            trans_unapproved: Optional::Any,
            trans_user: None,
            unapproved: Optional::Any,
            user: None,
            word_count_max: None,
            word_count_min: None,
        }
    }
}

impl TatoebaSearch {
    /// A search over one source language toward one target language.
    pub fn new(from: &str, to: &str) -> (r: Self)
        ensures
            r.from@ == from@,
            r.to@ == to@,
            r.has_audio == Optional::Any,
            r.sort == Sort::Relevance,
            r.tags@.len() == 0,
            r.word_count_max is None,
            r.word_count_min is None,
    {
        let mut s = TatoebaSearch::default();
        s.from = from.to_owned();
        s.to = to.to_owned();
        s
    }

    /// Serializes the search into the page-request text for one result page.
    pub fn search_url(&self, query: &str, page: usize) -> (r: String)
        ensures
            r@ == spec_search_url_old(*self, query@, page as int),
    {
        let mut out: Vec<char> = Vec::new();
        push_all(
            &mut out,
            &crate::text::str_to_chars("https://dev.tatoeba.org/eng/api_v0/search?query="),
        );
        push_all(&mut out, &crate::text::str_to_chars(query));
        push_all(&mut out, &crate::text::str_to_chars("&page="));
        let digits = crate::numeric::u64_to_dec(page as u64);
        proof {
            crate::json::lemma_nat_digits_canonical(digits@, page as int);
        }
        push_all(&mut out, &digits);
        push_all(&mut out, &crate::text::str_to_chars("&from="));
        push_all(&mut out, &crate::text::str_to_chars(self.from.as_str()));
        push_all(&mut out, &crate::text::str_to_chars("&to="));
        push_all(&mut out, &crate::text::str_to_chars(self.to.as_str()));
        proof {
            assert(out@ =~= spec_search_url_old(*self, query@, page as int));
        }
        chars_to_string(&out)
    }
}

/// The page-request text of the retired interface: the query, the page
/// number, and the two languages.
pub open spec fn spec_search_url_old(s: TatoebaSearch, query: Seq<char>, page: int) -> Seq<char> {
    "https://dev.tatoeba.org/eng/api_v0/search?query="@ + query + "&page="@ + spec_nat_digits(
        page,
    ) + "&from="@ + s.from@ + "&to="@ + s.to@
}

/// One page of results of the retired interface.
pub struct TatoebaResponse {
    pub paging: TatoebaPaging,
    pub results: Vec<TatoebaResult>,
}

/// The paging envelope.
pub struct TatoebaPaging {
    pub sentences: TatoebaPagingSentences,
}

/// The page counters of a result set.
pub struct TatoebaPagingSentences {
    pub finder: String,
    pub page: usize,
    pub current: u32,
    pub count: u32,
    pub per_page: usize,
    pub start: u32,
    pub end: u32,
    pub prev_page: bool,
    pub next_page: bool,
    pub page_count: usize,
    pub sort: String,
    pub direction: bool,
    pub limit: Option<String>,
    pub sort_default: bool,
    pub direction_default: bool,
    pub scope: Option<String>,
    pub complete_sort: Vec<String>,
}

/// One sentence result.
pub struct TatoebaResult {
    pub id: u32,
    pub text: String,
    pub lang: String,
    pub correctness: i32,
    pub script: Option<String>,
    pub license: String,
    pub translations: Vec<Vec<TatoebaResultTranslation>>,
    pub transcriptions: Vec<TatoebaResultTranscription>,
    pub audios: Vec<TatoebaResultAudio>,
    pub user: Option<TatoebaResultUser>,
    pub lang_name: String,
    pub dir: String,
    pub lang_tag: String,
    pub is_favorite: Option<bool>,
    pub is_owned_by_current_user: bool,
    pub permissions: Option<Vec<String>>,
    pub max_visible_translations: u32,
    pub current_user_review: Option<TatoebaResultUser>,
}

/// One translation of a result.
pub struct TatoebaResultTranslation {
    pub id: u32,
    pub text: String,
    pub lang: String,
    pub correctness: i32,
    pub script: Option<String>,
    pub transcriptions: Vec<TatoebaResultTranscription>,
    pub audios: Vec<TatoebaResultAudio>,
    pub is_direct: Option<bool>,
    pub lang_name: String,
    pub dir: String,
    pub lang_tag: String,
}

/// One transcription of a result.
pub struct TatoebaResultTranscription {
    pub id: u32,
    pub sentence_id: u32,
    pub script: Option<String>,
    pub text: String,
    pub user_id: Option<u32>,
    pub needs_review: bool,
    pub modified: String,
    pub user: Option<TatoebaResultUser>,
    pub readonly: bool,
    pub kind: String,
    pub html: String,
    pub markup: Option<String>,
    pub info_message: String,
}

/// One audio recording of a result.
pub struct TatoebaResultAudio {
    pub id: u32,
    pub external: Option<String>,
    pub sentence_id: Option<u32>,
    pub user: Option<TatoebaResultUser>,
    pub author: String,
    pub attribution_url: Option<String>,
    pub license: Option<String>,
}

/// The owner of a sentence or recording.
pub struct TatoebaResultUser {
    pub username: String,
}

/// The paging state of iterating a search of the retired interface.
pub struct TatoebaSearchIter {
    pub response: Option<TatoebaResponse>,
}

impl TatoebaSearchIter {
    /// The page to fetch after the current one is drained, when any is left.
    pub fn next_page(&self) -> (r: Option<usize>)
        ensures
            r is Some <==> (self.response is Some
                && self.response->0.paging.sentences.page + 1
                <= self.response->0.paging.sentences.page_count),
            r is Some ==> r->0 == self.response->0.paging.sentences.page + 1,
    {
        match &self.response {
            Some(resp) => {
                let p = resp.paging.sentences.page;
                let pc = resp.paging.sentences.page_count;
                if p < pc {
                    Some(p + 1)
                } else {
                    None
                }
            },
            None => None,
        }
    }
}

} // verus!
