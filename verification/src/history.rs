//! The history-registry cache: a lazily loaded, wholesale-invalidated
//! snapshot of the registry file's entries.
//!
//! The snapshot is either unset or complete, never partial.  Loading
//! skips blank lines and lines that are not understood; a missing
//! registry file loads as an empty snapshot.

use vstd::prelude::*;

use crate::framing::{lines_spec, split_lines, trim_bytes, trim_spec};
use crate::parse::{history_entry_of, parse_history_line};
use crate::types::HistoryEntry;

verus! {

/// What loading the given registry lines yields: each non-blank line
/// that is understood, in file order.
pub open spec fn registry_of(lines: Seq<Seq<u8>>) -> Seq<HistoryEntry>
    decreases lines.len(),
{
    if lines.len() == 0 {
        Seq::empty()
    } else {
        let prior = registry_of(lines.drop_last());
        let t = trim_spec(lines.last());
        if t.len() == 0 {
            prior
        } else {
            match history_entry_of(t) {
                None => prior,
                Some(e) => prior.push(e),
            }
        }
    }
}

/// What loading yields for the registry file's contents, or for a
/// missing file.
pub open spec fn registry_result(content: Option<Vec<u8>>) -> Seq<HistoryEntry> {
    match content {
        None => Seq::empty(),
        Some(c) => registry_of(lines_spec(c@)),
    }
}

/// The registry snapshot: unset, or a complete list of entries.
pub struct HistoryCache {
    entries: Option<Vec<HistoryEntry>>,
}

impl HistoryCache {
    /// True when a snapshot is held.
    pub closed spec fn is_loaded(self) -> bool {
        self.entries is Some
    }

    /// The held snapshot.
    pub closed spec fn snapshot(self) -> Seq<HistoryEntry>
        recommends
            self.is_loaded(),
    {
        self.entries->0@
    }

    /// A cache with no snapshot yet.
    pub fn new() -> (r: HistoryCache)
        ensures
            !r.is_loaded(),
    {
        HistoryCache { entries: None }
    }

    /// Whether the next read needs a load first.
    pub fn needs_load(&self) -> (r: bool)
        ensures
            r == !self.is_loaded(),
    {
        match &self.entries {
            Some(_) => false,
            None => true,
        }
    }

    /// Drops the snapshot; the next read reloads in full.
    pub fn invalidate(&mut self)
        ensures
            !final(self).is_loaded(),
    {
        self.entries = None;
    }

    /// Replaces the snapshot, wholesale, with what the registry file
    /// holds: each non-blank line that is understood, in file order; a
    /// missing file gives an empty snapshot.
    pub fn load_from_bytes(&mut self, content: Option<Vec<u8>>)
        ensures
            final(self).is_loaded(),
            final(self).snapshot() == registry_result(content),
    {
        let bytes = match content {
            None => {
                self.entries = Some(Vec::new());
                proof {
                    assert(self.snapshot() =~= Seq::<HistoryEntry>::empty());
                }
                return ;
            },
            Some(b) => b,
        };
        let lines = split_lines(&bytes);
        let mut out: Vec<HistoryEntry> = Vec::new();
        let n = lines.len();
        let mut i: usize = 0;
        proof {
            assert(lines.deep_view().take(0) =~= Seq::<Seq<u8>>::empty());
        }
        while i < n
            invariant
                n == lines@.len(),
                0 <= i <= n,
                lines.deep_view() == lines_spec(bytes@),
                out@ == registry_of(lines.deep_view().take(i as int)),
            decreases n - i,
        {
            let ghost pref = lines.deep_view().take(i + 1);
            proof {
                assert(pref.drop_last() =~= lines.deep_view().take(i as int));
                assert(pref.last() =~= lines@[i as int]@);
                assert(lines.deep_view()[i as int] =~= lines@[i as int]@);
            }
            let t = trim_bytes(lines[i].as_slice());
            if t.len() > 0 {
                match parse_history_line(t.as_slice()) {
                    None => {},
                    Some(e) => {
                        out.push(e);
                    },
                }
            }
            i += 1;
        }
        proof {
            assert(lines.deep_view().take(n as int) =~= lines.deep_view());
        }
        self.entries = Some(out);
    }

    /// The loaded entries, borrowed.
    pub fn entries(&self) -> (r: Option<&Vec<HistoryEntry>>)
        ensures
            match r {
                None => !self.is_loaded(),
                Some(v) => self.is_loaded() && v@ == self.snapshot(),
            },
    {
        match &self.entries {
            Some(v) => Some(v),
            None => None,
        }
    }
}

} // verus!
