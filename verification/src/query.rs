//! The query of a request.

use crate::codec::{self, parse_url_query};
use crate::text::{same_text, Text};
use vstd::prelude::*;

verus! {

/// The value of `name`: of several, the last counts.
pub open spec fn lookup(pairs: Seq<(Text, Text)>, name: Text) -> Option<Text>
    decreases pairs.len(),
{
    if pairs.len() == 0 {
        None
    } else if pairs.last().0 == name {
        Some(pairs.last().1)
    } else {
        lookup(pairs.drop_last(), name)
    }
}

/// The decoded name and value pairs of a query.
pub struct Query {
    pub pairs: Vec<(String, String)>,
}

impl View for Query {
    type V = Seq<(Text, Text)>;

    open spec fn view(&self) -> Seq<(Text, Text)> {
        self.pairs.deep_view()
    }
}

impl Query {
    /// The value of `name`, if it was given.
    pub fn get(&self, name: &str) -> (r: Option<&str>)
        ensures
            r.deep_view() == lookup(self@, name@),
    {
        let mut i: usize = self.pairs.len();
        let ghost all = self@;
        assert(all.take(i as int) =~= all);
        while i > 0
            invariant
                i <= self.pairs@.len(),
                all == self@,
                lookup(all, name@) == lookup(all.take(i as int), name@),
            decreases i,
        {
            let pair = &self.pairs[i - 1];
            assert(all.take(i as int).last() == (pair.0@, pair.1@));
            assert(all.take(i as int).drop_last() =~= all.take(i - 1));
            if same_text(pair.0.as_str(), name) {
                return Some(pair.1.as_str());
            }
            i -= 1;
        }
        None
    }

    /// Whether `name` was given.
    pub fn has(&self, name: &str) -> (r: bool)
        ensures
            r == lookup(self@, name@) is Some,
    {
        self.get(name).is_some()
    }

    /// Whether `name` was given with the value `value`.
    pub fn is(&self, name: &str, value: &str) -> (r: bool)
        ensures
            r == (lookup(self@, name@) == Some(value@)),
    {
        match self.get(name) {
            Some(given) => same_text(given, value),
            None => false,
        }
    }
}

/// The query of the absolute URL `url`; none if it is no absolute URL.
pub fn query_params(url: &str) -> (r: Option<Query>)
    ensures
        match codec::url_query_pairs(url@) {
            Some(pairs) => r matches Some(query) && query@ == pairs,
            None => r is None,
        },
{
    match parse_url_query(url) {
        Some(pairs) => Some(Query { pairs }),
        None => None,
    }
}

} // verus!
