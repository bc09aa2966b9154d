//! The session: what was read, searched and expanded since the start.

use vstd::prelude::*;

use crate::paths::{components, same_path};
use crate::text::{push_decimal, push_str};

verus! {

/// A definition that was shown in full, by file and line.
pub struct Shown {
    pub path: String,
    pub line: u32,
}

/// A record of activity, kept for the life of the process.
pub struct Session {
    reads: Vec<String>,
    searches: Vec<String>,
    expansions: Vec<Shown>,
    map_calls: u64,
}

impl Session {
    /// The definitions that were expanded, each by the components of its path
    /// and its line.
    pub closed spec fn shown(&self) -> Set<(Seq<Seq<char>>, u32)> {
        Set::new(
            |k: (Seq<Seq<char>>, u32)|
                exists|i: int|
                    0 <= i < self.expansions@.len() && components(
                        (#[trigger] self.expansions@[i]).path@,
                    ) == k.0 && self.expansions@[i].line == k.1,
        )
    }

    /// Whether the definition at `line` of `path` was expanded before.
    pub open spec fn expanded(&self, path: Seq<char>, line: u32) -> bool {
        self.shown().contains((components(path), line))
    }

    /// The paths that were read, one entry per read.
    pub closed spec fn reads(&self) -> Seq<String> {
        self.reads@
    }

    /// The queries that were searched, one entry per search.
    pub closed spec fn searches(&self) -> Seq<String> {
        self.searches@
    }

    /// The number of expansions recorded.
    pub closed spec fn expansion_count(&self) -> nat {
        self.expansions@.len()
    }

    /// The number of map calls, as far as a `u64` counts.
    pub closed spec fn map_calls(&self) -> u64 {
        self.map_calls
    }

    /// A session without any activity.
    pub fn new() -> (s: Session)
        ensures
            s.shown() == Set::<(Seq<Seq<char>>, u32)>::empty(),
            s.reads().len() == 0,
            s.searches().len() == 0,
            s.expansion_count() == 0,
            s.map_calls() == 0,
    {
        let s = Session {
            reads: Vec::new(),
            searches: Vec::new(),
            expansions: Vec::new(),
            map_calls: 0,
        };
        assert(s.shown() =~= Set::<(Seq<Seq<char>>, u32)>::empty());
        s
    }

    /// Notes that `path` was read.
    pub fn record_read(&mut self, path: &str)
        ensures
            final(self).reads().len() == old(self).reads().len() + 1,
            final(self).reads().last()@ == path@,
            final(self).reads().drop_last() == old(self).reads(),
            final(self).searches() == old(self).searches(),
            final(self).map_calls() == old(self).map_calls(),
            final(self).expansion_count() == old(self).expansion_count(),
            final(self).shown() == old(self).shown(),
    {
        self.reads.push(path.to_owned());
        assert(self.reads@.drop_last() =~= old(self).reads@);
        assert(self.shown() =~= old(self).shown());
    }

    /// Notes that `query` was searched.
    pub fn record_search(&mut self, query: &str)
        ensures
            final(self).searches().len() == old(self).searches().len() + 1,
            final(self).searches().last()@ == query@,
            final(self).searches().drop_last() == old(self).searches(),
            final(self).reads() == old(self).reads(),
            final(self).map_calls() == old(self).map_calls(),
            final(self).expansion_count() == old(self).expansion_count(),
            final(self).shown() == old(self).shown(),
    {
        self.searches.push(query.to_owned());
        assert(self.searches@.drop_last() =~= old(self).searches@);
        assert(self.shown() =~= old(self).shown());
    }

    /// Notes one more map call.
    pub fn record_map(&mut self)
        ensures
            final(self).map_calls() == if old(self).map_calls() == u64::MAX {
                u64::MAX
            } else {
                (old(self).map_calls() + 1) as u64
            },
            final(self).reads() == old(self).reads(),
            final(self).searches() == old(self).searches(),
            final(self).expansion_count() == old(self).expansion_count(),
            final(self).shown() == old(self).shown(),
    {
        if self.map_calls < u64::MAX {
            self.map_calls = self.map_calls + 1;
        }
        assert(self.shown() =~= old(self).shown());
    }

    /// Whether the definition at `line` of `path` was expanded before.
    pub fn is_expanded(&self, path: &str, line: u32) -> (b: bool)
        ensures
            b == self.expanded(path@, line),
    {
        let mut i: usize = 0;
        while i < self.expansions.len()
            invariant
                i <= self.expansions.len(),
                forall|j: int|
                    0 <= j < i ==> !(components((#[trigger] self.expansions@[j]).path@)
                        == components(path@) && self.expansions@[j].line == line),
            decreases self.expansions.len() - i,
        {
            if self.expansions[i].line == line && same_path(self.expansions[i].path.as_str(), path) {
                return true;
            }
            i += 1;
        }
        false
    }

    /// Notes that the definition at `line` of `path` was expanded.
    pub fn record_expand(&mut self, path: &str, line: u32)
        ensures
            final(self).shown() == old(self).shown().insert((components(path@), line)),
            final(self).expansion_count() == old(self).expansion_count() + 1,
            final(self).reads() == old(self).reads(),
            final(self).searches() == old(self).searches(),
            final(self).map_calls() == old(self).map_calls(),
    {
        self.expansions.push(Shown { path: path.to_owned(), line });
        proof {
            let before = old(self).expansions@;
            let after = self.expansions@;
            let key = (components(path@), line);
            assert forall|k: (Seq<Seq<char>>, u32)|
                self.shown().contains(k) == old(self).shown().insert(key).contains(k) by {
                if old(self).shown().contains(k) {
                    let i = choose|i: int|
                        0 <= i < before.len() && components((#[trigger] before[i]).path@) == k.0
                            && before[i].line == k.1;
                    assert(after[i] == before[i]);
                }
                if k == key {
                    assert(components(after[before.len() as int].path@) == k.0);
                }
                if self.shown().contains(k) {
                    let i = choose|i: int|
                        0 <= i < after.len() && components((#[trigger] after[i]).path@) == k.0
                            && after[i].line == k.1;
                    if i < before.len() {
                        assert(after[i] == before[i]);
                    }
                }
            }
            assert(self.shown() =~= old(self).shown().insert(key));
        }
    }

    /// Forgets everything.
    pub fn reset(&mut self)
        ensures
            final(self).shown() == Set::<(Seq<Seq<char>>, u32)>::empty(),
            final(self).reads().len() == 0,
            final(self).searches().len() == 0,
            final(self).expansion_count() == 0,
            final(self).map_calls() == 0,
    {
        self.reads = Vec::new();
        self.searches = Vec::new();
        self.expansions = Vec::new();
        self.map_calls = 0;
        assert(self.shown() =~= Set::<(Seq<Seq<char>>, u32)>::empty());
    }

    /// The counters as one line of text.
    pub open spec fn summary_text(&self) -> Seq<char> {
        "Session: "@ + crate::text::decimal(self.reads().len()) + " reads, "@
            + crate::text::decimal(self.searches().len()) + " searches, "@ + crate::text::decimal(
            self.expansion_count(),
        ) + " expansions, "@ + crate::text::decimal(self.map_calls() as nat) + " map calls"@
    }

    /// The counters as one line of text.
    pub fn summary(&self) -> (text: String)
        ensures
            text@ == self.summary_text(),
    {
        let mut out = String::new();
        push_str(&mut out, "Session: ");
        push_decimal(&mut out, self.reads.len() as u64);
        push_str(&mut out, " reads, ");
        push_decimal(&mut out, self.searches.len() as u64);
        push_str(&mut out, " searches, ");
        push_decimal(&mut out, self.expansions.len() as u64);
        push_str(&mut out, " expansions, ");
        push_decimal(&mut out, self.map_calls);
        push_str(&mut out, " map calls");
        assert(out@ =~= self.summary_text());
        out
    }

    /// Answers a call of the session tool: after a reset, a notice that
    /// everything was forgotten; else the counters, which stay as they are.
    pub fn respond(&mut self, reset: bool) -> (text: String)
        ensures
            reset ==> text@ == "Session reset."@ && final(self).shown() == Set::<
                (Seq<Seq<char>>, u32),
            >::empty() && final(self).reads().len() == 0 && final(self).searches().len() == 0
                && final(self).expansion_count() == 0 && final(self).map_calls() == 0,
            !reset ==> text@ == old(self).summary_text() && *final(self) == *old(self),
    {
        if reset {
            self.reset();
            crate::text::string_of(&crate::text::to_chars("Session reset."))
        } else {
            self.summary()
        }
    }
}

} // verus!
