pub mod tatoeba_search;
pub mod tatoeba_search_old;
