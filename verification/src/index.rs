//! The session file index: session id to transcript path.
//!
//! Keys are unique; inserting for a present id silently overwrites the
//! earlier mapping, whichever project it came from.

use vstd::prelude::*;

use crate::text::{ends_jsonl, path_join, stem_spec, transcript_stem};

verus! {

/// Maps each known session id to the path of its transcript file.
pub struct FileIndex {
    entries: Vec<(String, String)>,
}

impl FileIndex {
    /// Keys are unique.
    pub closed spec fn wf(self) -> bool {
        forall|i: int, j: int|
            0 <= i < j < self.entries@.len() ==> self.entries@[i].0@ != self.entries@[j].0@
    }

    /// True when the id is present.
    pub closed spec fn has_id(self, id: Seq<char>) -> bool {
        exists|k: int| 0 <= k < self.entries@.len() && self.entries@[k].0@ == id
    }

    /// The path mapped for an id, if any.
    pub closed spec fn spec_get(self, id: Seq<char>) -> Option<Seq<char>> {
        if self.has_id(id) {
            let k = choose|k: int| 0 <= k < self.entries@.len() && self.entries@[k].0@ == id;
            Some(self.entries@[k].1@)
        } else {
            None
        }
    }

    /// An empty index.
    pub fn new() -> (r: FileIndex)
        ensures
            r.wf(),
            forall|id: Seq<char>| !r.has_id(id),
    {
        FileIndex { entries: Vec::new() }
    }

    /// Upserts one mapping: afterwards the id maps to the path and every
    /// other id is as before.
    pub fn insert(&mut self, id: String, path: String)
        requires
            old(self).wf(),
        ensures
            final(self).wf(),
            final(self).spec_get(id@) == Some(path@),
            forall|o: Seq<char>|
                o != id@ ==> final(self).spec_get(o) == old(self).spec_get(o),
            forall|o: Seq<char>| o != id@ ==> final(self).has_id(o) == old(self).has_id(o),
            final(self).has_id(id@),
    {
        let ghost pre = *self;
        let n = self.entries.len();
        let mut k: usize = 0;
        while k < n && !str_eq_pair(&self.entries, k, id.as_str())
            invariant
                n == self.entries@.len(),
                0 <= k <= n,
                *self == pre,
                forall|t: int| 0 <= t < k ==> self.entries@[t].0@ != id@,
            decreases n - k,
        {
            k += 1;
        }
        if k < n {
            self.entries.remove(k);
            proof {
                assert(forall|t: int|
                    0 <= t < self.entries@.len() ==> self.entries@[t]
                        == (if t < k { pre.entries@[t] } else { pre.entries@[t + 1] }));
                assert(forall|t: int|
                    0 <= t < self.entries@.len() ==> self.entries@[t].0@ != id@);
            }
        }
        let ghost mid = *self;
        self.entries.push((id, path));
        proof {
            let last = self.entries@.len() - 1;
            assert(self.entries@[last].0@ == id@ && self.entries@[last].1@ == path@);
            assert(forall|t: int| 0 <= t < last ==> self.entries@[t] == mid.entries@[t]);
            assert(self.wf());
            assert(self.has_id(id@));
            let w = choose|w: int|
                0 <= w < self.entries@.len() && self.entries@[w].0@ == id@;
            assert(w == last);
            assert forall|o: Seq<char>| o != id@ implies self.has_id(o) == pre.has_id(
                o,
            ) by {
                if self.has_id(o) {
                    let t = choose|t: int|
                        0 <= t < self.entries@.len() && self.entries@[t].0@ == o;
                    assert(t < last);
                    if k < n {
                        if t < k {
                            assert(pre.entries@[t].0@ == o);
                        } else {
                            assert(pre.entries@[t + 1].0@ == o);
                        }
                    } else {
                        assert(pre.entries@[t].0@ == o);
                    }
                }
                if pre.has_id(o) {
                    let t = choose|t: int|
                        0 <= t < pre.entries@.len() && pre.entries@[t].0@ == o;
                    if k < n {
                        assert(t != k);
                        if t < k {
                            assert(self.entries@[t].0@ == o);
                        } else {
                            assert(self.entries@[t - 1].0@ == o);
                        }
                    } else {
                        assert(self.entries@[t].0@ == o);
                    }
                }
            }
            assert forall|o: Seq<char>|
                o != id@ && self.has_id(o) implies self.spec_get(o)
                == pre.spec_get(o) by {
                let t = choose|t: int|
                    0 <= t < self.entries@.len() && self.entries@[t].0@ == o;
                let t0 = choose|t0: int|
                    0 <= t0 < pre.entries@.len() && pre.entries@[t0].0@ == o;
                if k < n {
                    if t < k {
                        assert(pre.entries@[t].0@ == o);
                        assert(t0 == t || pre.entries@[t0].0@ == pre.entries@[t].0@);
                        assert(t0 == t);
                    } else {
                        assert(pre.entries@[t + 1].0@ == o);
                        assert(t0 == t + 1);
                    }
                } else {
                    assert(t0 == t);
                }
            }
        }
    }

    /// Looks an id up, handing back a copy of the mapped path.
    pub fn get(&self, id: &str) -> (r: Option<String>)
        requires
            self.wf(),
        ensures
            r is Some <==> self.has_id(id@),
            match r {
                None => self.spec_get(id@) is None,
                Some(p) => self.spec_get(id@) == Some(p@),
            },
    {
        let n = self.entries.len();
        let mut k: usize = 0;
        while k < n
            invariant
                self.wf(),
                n == self.entries@.len(),
                0 <= k <= n,
                forall|t: int| 0 <= t < k ==> self.entries@[t].0@ != id@,
            decreases n - k,
        {
            if str_eq_pair(&self.entries, k, id) {
                let p = self.entries[k].1.clone();
                proof {
                    let w = choose|w: int|
                        0 <= w < self.entries@.len() && self.entries@[w].0@ == id@;
                    assert(w == k);
                }
                return Some(p);
            }
            k += 1;
        }
        None
    }

    /// Records every transcript file of a directory scan: under each
    /// project directory, each file with the transcript extension is
    /// mapped from its stem to its full path.  With duplicate stems the
    /// surviving mapping is one of them, which one being deliberately
    /// unspecified.
    pub fn build_from_scan(&mut self, projects_dir: &str, scan: &Vec<(String, Vec<String>)>)
        requires
            old(self).wf(),
        ensures
            final(self).wf(),
            // nothing is lost: every old id is still present
            forall|id: Seq<char>| old(self).has_id(id) ==> final(self).has_id(id),
            // every scanned transcript file is indexed under its stem
            forall|d: int, f: int|
                0 <= d < scan@.len() && 0 <= f < scan@[d].1@.len() && ends_jsonl(
                    scan@[d].1@[f]@,
                ) ==> final(self).has_id(stem_spec(scan@[d].1@[f]@)),
            // nothing else appears, and every new mapping is a scanned path
            forall|id: Seq<char>|
                !old(self).has_id(id) && final(self).has_id(id) ==> exists|d: int, f: int|
                    0 <= d < scan@.len() && 0 <= f < scan@[d].1@.len() && ends_jsonl(
                        scan@[d].1@[f]@,
                    ) && stem_spec(scan@[d].1@[f]@) == id && final(self).spec_get(id) == Some(
                        projects_dir@ + seq!['/'] + scan@[d].0@ + seq!['/'] + scan@[d].1@[f]@,
                    ),
    {
        let nd = scan.len();
        let mut d: usize = 0;
        while d < nd
            invariant
                nd == scan@.len(),
                0 <= d <= nd,
                self.wf(),
                forall|id: Seq<char>| old(self).has_id(id) ==> self.has_id(id),
                forall|dd: int, f: int|
                    0 <= dd < d && 0 <= f < scan@[dd].1@.len() && ends_jsonl(scan@[dd].1@[f]@)
                        ==> self.has_id(stem_spec(scan@[dd].1@[f]@)),
                forall|id: Seq<char>|
                    !old(self).has_id(id) && self.has_id(id) ==> exists|dd: int, f: int|
                        0 <= dd < scan@.len() && 0 <= f < scan@[dd].1@.len() && ends_jsonl(
                            scan@[dd].1@[f]@,
                        ) && stem_spec(scan@[dd].1@[f]@) == id && self.spec_get(id)
                            == Some(
                            projects_dir@ + seq!['/'] + scan@[dd].0@ + seq!['/']
                                + scan@[dd].1@[f]@,
                        ),
            decreases nd - d,
        {
            let dir_path = path_join(projects_dir, scan[d].0.as_str());
            let nf = scan[d].1.len();
            let mut f: usize = 0;
            while f < nf
                invariant
                    nd == scan@.len(),
                    0 <= d < nd,
                    nf == scan@[d as int].1@.len(),
                    0 <= f <= nf,
                    dir_path@ == projects_dir@ + seq!['/'] + scan@[d as int].0@,
                    self.wf(),
                    forall|id: Seq<char>| old(self).has_id(id) ==> self.has_id(id),
                    forall|dd: int, ff: int|
                        0 <= dd < d && 0 <= ff < scan@[dd].1@.len() && ends_jsonl(
                            scan@[dd].1@[ff]@,
                        ) ==> self.has_id(stem_spec(scan@[dd].1@[ff]@)),
                    forall|ff: int|
                        0 <= ff < f && ends_jsonl(scan@[d as int].1@[ff]@) ==> self.has_id(
                            stem_spec(scan@[d as int].1@[ff]@),
                        ),
                    forall|id: Seq<char>|
                        !old(self).has_id(id) && self.has_id(id) ==> exists|
                            dd: int,
                            ff: int,
                        |
                            0 <= dd < scan@.len() && 0 <= ff < scan@[dd].1@.len() && ends_jsonl(
                                scan@[dd].1@[ff]@,
                            ) && stem_spec(scan@[dd].1@[ff]@) == id && self.spec_get(id)
                                == Some(
                                projects_dir@ + seq!['/'] + scan@[dd].0@ + seq!['/']
                                    + scan@[dd].1@[ff]@,
                            ),
                decreases nf - f,
            {
                let name = &scan[d].1[f];
                match transcript_stem(name.as_str()) {
                    None => {},
                    Some(stem) => {
                        let path = path_join(dir_path.as_str(), name.as_str());
                        self.insert(stem, path);
                    },
                }
                f += 1;
            }
            d += 1;
        }
    }
}

/// Compares the key at one index with a candidate id.
fn str_eq_pair(entries: &Vec<(String, String)>, k: usize, id: &str) -> (r: bool)
    requires
        0 <= k < entries@.len(),
    ensures
        r == (entries@[k as int].0@ == id@),
{
    crate::text::str_eq(entries[k].0.as_str(), id)
}

} // verus!
