//! Ranking signals read from a query and a piece of content.
use vstd::prelude::*;
use crate::symbol_index::SymbolIndex;
use crate::text::{chars_of, contains, contains_exec};

verus! {

/// Reads ranking signals, with the help of a symbol index when there is one.
pub struct FeatureExtractor<'a> {
    symbol_index: Option<&'a SymbolIndex>,
}

impl<'a> FeatureExtractor<'a> {
    /// The index consulted, if any.
    pub closed spec fn index(&self) -> Option<SymbolIndex> {
        match self.symbol_index {
            Some(i) => Some(*i),
            None => None,
        }
    }

    /// An extractor that consults `symbol_index`.
    pub fn new(symbol_index: Option<&'a SymbolIndex>) -> (r: Self)
        ensures
            r.index() == match symbol_index {
                Some(i) => Some(*i),
                None => None::<SymbolIndex>,
            },
    {
        FeatureExtractor { symbol_index }
    }

    /// Whether the content holds the query verbatim.
    pub fn exact_match(&self, query: &str, content: &str) -> (b: bool)
        ensures
            b == contains(content@, query@),
    {
        let q = chars_of(query);
        let c = chars_of(content);
        contains_exec(c.as_slice(), q.as_slice())
    }

    /// Whether the query names a known symbol and the content holds it.
    pub fn symbol_match(&self, query: &str, content: &str) -> (b: bool)
        requires
            self.index() matches Some(i) ==> i.wf(),
        ensures
            b == match self.index() {
                Some(i) => i.get(query@).len() > 0 && contains(content@, query@),
                None => false,
            },
    {
        match self.symbol_index {
            Some(index) => {
                let found = index.search(query);
                found.len() > 0 && self.exact_match(query, content)
            },
            None => false,
        }
    }
}

} // verus!
