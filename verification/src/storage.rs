//! The storage service: owns the file index and the history cache, and
//! offers the operations the request-dispatch layer calls.
//!
//! All file and directory I/O stays with the caller: scans, file
//! contents and sizes come in as plain values, and the contracts say
//! exactly what each operation makes of them.

use vstd::prelude::*;

use crate::history::{registry_result, HistoryCache};
use crate::index::FileIndex;
use crate::reader;
use crate::reader::{conversation_result, next_offset_spec, stream_msgs, views_of, StreamSource};
use crate::sessions::{
    distinct_ids, has_view, projects_from, project_present, raw_sessions, sessions_from,
    sorted_desc,
};
use crate::text::{ends_jsonl, jsonl_suffix, lex_lt, path_join, stem_spec, str_eq};
use crate::framing::lines_spec;
use crate::types::{ConversationMessage, HistoryEntry, Session, SessionView, StreamResult};

verus! {

/// The directory name under which the per-project transcript trees live.
pub open spec fn projects_segment() -> Seq<char> {
    seq!['p', 'r', 'o', 'j', 'e', 'c', 't', 's']
}

/// The name of the registry file.
pub open spec fn registry_file_name() -> Seq<char> {
    seq!['h', 'i', 's', 't', 'o', 'r', 'y', '.', 'j', 's', 'o', 'n', 'l']
}

/// Owns the session file index and the history-registry cache.
pub struct Storage {
    base_dir: String,
    projects_dir: String,
    file_index: FileIndex,
    history_cache: HistoryCache,
}

impl Storage {
    /// The held file index.
    pub closed spec fn index(self) -> FileIndex {
        self.file_index
    }

    /// The held registry cache.
    pub closed spec fn cache(self) -> HistoryCache {
        self.history_cache
    }

    /// The base directory.
    pub closed spec fn base_dir_spec(self) -> Seq<char> {
        self.base_dir@
    }

    /// The directory holding the per-project transcript trees.
    pub closed spec fn projects_dir_spec(self) -> Seq<char> {
        self.projects_dir@
    }

    /// The index keys are unique.
    pub open spec fn wf(self) -> bool {
        self.index().wf()
    }

    /// A storage rooted at the given base directory, with an empty index
    /// and no registry snapshot.
    pub fn new(dir: &str) -> (r: Storage)
        ensures
            r.wf(),
            !r.cache().is_loaded(),
            forall|id: Seq<char>| !r.index().has_id(id),
            r.base_dir_spec() == dir@,
            r.projects_dir_spec() == dir@ + seq!['/'] + projects_segment(),
    {
        let projects_dir = path_join(dir, "projects");
        proof {
            reveal_strlit("projects");
            assert("projects"@ =~= projects_segment());
        }
        Storage {
            base_dir: dir.to_owned(),
            projects_dir,
            file_index: FileIndex::new(),
            history_cache: HistoryCache::new(),
        }
    }

    /// The base directory.
    pub fn base_dir(&self) -> (r: &String)
        ensures
            r@ == self.base_dir_spec(),
    {
        &self.base_dir
    }

    /// The directory holding the per-project transcript trees.
    pub fn projects_dir(&self) -> (r: &String)
        ensures
            r@ == self.projects_dir_spec(),
    {
        &self.projects_dir
    }

    /// The path of the registry file.
    pub fn history_path(&self) -> (r: String)
        ensures
            r@ == self.base_dir_spec() + seq!['/'] + registry_file_name(),
    {
        let r = path_join(self.base_dir.as_str(), "history.jsonl");
        proof {
            reveal_strlit("history.jsonl");
            assert("history.jsonl"@ =~= registry_file_name());
        }
        r
    }

    /// Builds the index from a scan of the projects directory and loads
    /// the registry snapshot from the registry file's contents, both in
    /// full.
    pub fn load(&mut self, scan: &Vec<(String, Vec<String>)>, registry: Option<Vec<u8>>)
        requires
            old(self).wf(),
        ensures
            final(self).wf(),
            final(self).base_dir_spec() == old(self).base_dir_spec(),
            final(self).projects_dir_spec() == old(self).projects_dir_spec(),
            final(self).cache().is_loaded(),
            final(self).cache().snapshot() == registry_result(registry),
            forall|id: Seq<char>|
                old(self).index().has_id(id) ==> final(self).index().has_id(id),
            forall|d: int, f: int|
                0 <= d < scan@.len() && 0 <= f < scan@[d].1@.len() && ends_jsonl(
                    scan@[d].1@[f]@,
                ) ==> final(self).index().has_id(stem_spec(scan@[d].1@[f]@)),
            forall|id: Seq<char>|
                !old(self).index().has_id(id) && final(self).index().has_id(id) ==> exists|
                    d: int,
                    f: int,
                |
                    0 <= d < scan@.len() && 0 <= f < scan@[d].1@.len() && ends_jsonl(
                        scan@[d].1@[f]@,
                    ) && stem_spec(scan@[d].1@[f]@) == id && final(self).index().spec_get(id)
                        == Some(
                        old(self).projects_dir_spec() + seq!['/'] + scan@[d].0@ + seq!['/']
                            + scan@[d].1@[f]@,
                    ),
    {
        self.file_index.build_from_scan(self.projects_dir.as_str(), scan);
        self.history_cache.load_from_bytes(registry);
    }

    /// Drops the registry snapshot; the next listing reloads it.
    pub fn invalidate_history_cache(&mut self)
        ensures
            !final(self).cache().is_loaded(),
            final(self).index() == old(self).index(),
            final(self).base_dir_spec() == old(self).base_dir_spec(),
            final(self).projects_dir_spec() == old(self).projects_dir_spec(),
    {
        self.history_cache.invalidate();
    }

    /// Records one session id to transcript path mapping, as the watcher
    /// does when a transcript changes.
    pub fn add_to_file_index(&mut self, session_id: String, path: String)
        requires
            old(self).wf(),
        ensures
            final(self).wf(),
            final(self).index().spec_get(session_id@) == Some(path@),
            forall|o: Seq<char>|
                o != session_id@ ==> final(self).index().spec_get(o) == old(
                    self,
                ).index().spec_get(o),
            final(self).cache() == old(self).cache(),
            final(self).base_dir_spec() == old(self).base_dir_spec(),
            final(self).projects_dir_spec() == old(self).projects_dir_spec(),
    {
        self.file_index.insert(session_id, path);
    }

    /// Whether the registry snapshot must be loaded before a listing.
    pub fn needs_history_load(&self) -> (r: bool)
        ensures
            r == !self.cache().is_loaded(),
    {
        self.history_cache.needs_load()
    }

    /// Replaces the registry snapshot with the registry file's contents.
    pub fn load_history_cache(&mut self, content: Option<Vec<u8>>)
        ensures
            final(self).wf() == old(self).wf(),
            final(self).cache().is_loaded(),
            final(self).cache().snapshot() == registry_result(content),
            final(self).index() == old(self).index(),
            final(self).base_dir_spec() == old(self).base_dir_spec(),
            final(self).projects_dir_spec() == old(self).projects_dir_spec(),
    {
        self.history_cache.load_from_bytes(content);
    }

    /// The loaded registry entries, borrowed.
    pub fn history_entries(&self) -> (r: Option<&Vec<HistoryEntry>>)
        ensures
            match r {
                None => !self.cache().is_loaded(),
                Some(v) => self.cache().is_loaded() && v@ == self.cache().snapshot(),
            },
    {
        self.history_cache.entries()
    }

    /// The session listing: one session per resolved id, first occurrence
    /// winning, sorted by timestamp descending.  For each registry entry
    /// the caller supplies the listing of the entry's encoded project
    /// directory (file name and modification time, in directory order;
    /// empty for a missing directory), used only where the entry has no
    /// explicit id.
    pub fn get_sessions(&self, listings: &Vec<Vec<(String, u64)>>) -> (r: Vec<Session>)
        requires
            self.cache().is_loaded(),
            listings@.len() == self.cache().snapshot().len(),
        ensures
            sorted_desc(r@),
            distinct_ids(r@),
            forall|sv: SessionView|
                has_view(r@, sv) <==> raw_sessions(self.cache().snapshot(), listings@).contains(
                    sv,
                ),
    {
        match self.history_cache.entries() {
            Some(v) => sessions_from(v, listings),
            None => {
                proof {
                    assert(false);
                }
                Vec::new()
            },
        }
    }

    /// The distinct non-empty project paths of the registry, sorted
    /// ascending.
    pub fn get_projects(&self) -> (r: Vec<String>)
        requires
            self.cache().is_loaded(),
        ensures
            forall|i: int, j: int| 0 <= i < j < r@.len() ==> lex_lt(r@[i]@, r@[j]@),
            forall|p: Seq<char>|
                (exists|i: int| 0 <= i < r@.len() && r@[i]@ == p) <==> project_present(
                    self.cache().snapshot(),
                    p,
                ),
    {
        match self.history_cache.entries() {
            Some(v) => projects_from(v),
            None => {
                proof {
                    assert(false);
                }
                Vec::new()
            },
        }
    }

    /// The session with the given id, if the listing holds one.
    pub fn get_session_meta(&self, session_id: &str, listings: &Vec<Vec<(String, u64)>>) -> (r:
        Option<Session>)
        requires
            self.cache().is_loaded(),
            listings@.len() == self.cache().snapshot().len(),
        ensures
            match r {
                Some(s) => s@.id == session_id@ && raw_sessions(
                    self.cache().snapshot(),
                    listings@,
                ).contains(s@),
                None => forall|sv: SessionView|
                    raw_sessions(self.cache().snapshot(), listings@).contains(sv) ==> sv.id
                        != session_id@,
            },
    {
        let mut ss = self.get_sessions(listings);
        let n = ss.len();
        let mut k: usize = 0;
        while k < n
            invariant
                n == ss@.len(),
                0 <= k <= n,
                forall|t: int| 0 <= t < k ==> ss@[t]@.id != session_id@,
                forall|sv: SessionView|
                    has_view(ss@, sv) <==> raw_sessions(
                        self.cache().snapshot(),
                        listings@,
                    ).contains(sv),
            decreases n - k,
        {
            if str_eq(ss[k].id.as_str(), session_id) {
                let ghost pre = ss@;
                let s = ss.remove(k);
                proof {
                    assert(pre[k as int] == s);
                    assert(has_view(pre, s@));
                }
                return Some(s);
            }
            k += 1;
        }
        proof {
            assert forall|sv: SessionView|
                raw_sessions(self.cache().snapshot(), listings@).contains(sv) implies sv.id
                != session_id@ by {
                if sv.id == session_id@ {
                    assert(has_view(ss@, sv));
                    let t = choose|t: int| 0 <= t < ss@.len() && ss@[t]@ == sv;
                    assert(ss@[t]@.id == session_id@);
                }
            }
        }
        None
    }

    /// Resolves the transcript path of a session: from the index when
    /// present; otherwise the projects-directory scan is searched for a
    /// file named `<id>.jsonl`, and a hit is recorded in the index
    /// before it is returned.
    pub fn find_session_file(&mut self, session_id: &str, scan: &Vec<(String, Vec<String>)>)
        -> (r: Option<String>)
        requires
            old(self).wf(),
        ensures
            final(self).wf(),
            final(self).cache() == old(self).cache(),
            final(self).base_dir_spec() == old(self).base_dir_spec(),
            final(self).projects_dir_spec() == old(self).projects_dir_spec(),
            old(self).index().has_id(session_id@) ==> final(self).index() == old(self).index()
                && (r matches Some(p) && old(self).index().spec_get(session_id@) == Some(p@)),
            !old(self).index().has_id(session_id@) ==> match r {
                Some(p) => {
                    &&& exists|d: int, f: int|
                        0 <= d < scan@.len() && 0 <= f < scan@[d].1@.len() && scan@[d].1@[f]@
                            == session_id@ + jsonl_suffix() && p@ == old(
                            self,
                        ).projects_dir_spec() + seq!['/'] + scan@[d].0@ + seq!['/']
                            + scan@[d].1@[f]@
                    &&& final(self).index().spec_get(session_id@) == Some(p@)
                    &&& forall|o: Seq<char>|
                        o != session_id@ ==> final(self).index().spec_get(o) == old(
                            self,
                        ).index().spec_get(o)
                },
                None => final(self).index() == old(self).index() && forall|d: int, f: int|
                    0 <= d < scan@.len() && 0 <= f < scan@[d].1@.len() ==> scan@[d].1@[f]@
                        != session_id@ + jsonl_suffix(),
            },
    {
        match self.file_index.get(session_id) {
            Some(p) => Some(p),
            None => {
                let mut target = session_id.to_owned();
                target.push('.');
                target.push('j');
                target.push('s');
                target.push('o');
                target.push('n');
                target.push('l');
                proof {
                    assert(target@ =~= session_id@ + jsonl_suffix());
                }
                let nd = scan.len();
                let mut d: usize = 0;
                while d < nd
                    invariant
                        nd == scan@.len(),
                        0 <= d <= nd,
                        *self == *old(self),
                        self.wf(),
                        !self.index().has_id(session_id@),
                        target@ == session_id@ + jsonl_suffix(),
                        forall|dd: int, ff: int|
                            0 <= dd < d && 0 <= ff < scan@[dd].1@.len() ==> scan@[dd].1@[ff]@
                                != target@,
                    decreases nd - d,
                {
                    let nf = scan[d].1.len();
                    let mut f: usize = 0;
                    while f < nf
                        invariant
                            nd == scan@.len(),
                            0 <= d < nd,
                            nf == scan@[d as int].1@.len(),
                            0 <= f <= nf,
                            *self == *old(self),
                            self.wf(),
                            !self.index().has_id(session_id@),
                            target@ == session_id@ + jsonl_suffix(),
                            forall|dd: int, ff: int|
                                0 <= dd < d && 0 <= ff < scan@[dd].1@.len() ==> scan@[dd].1@[ff]@
                                    != target@,
                            forall|ff: int|
                                0 <= ff < f ==> scan@[d as int].1@[ff]@ != target@,
                        decreases nf - f,
                    {
                        if str_eq(scan[d].1[f].as_str(), target.as_str()) {
                            let dir_path = path_join(
                                self.projects_dir.as_str(),
                                scan[d].0.as_str(),
                            );
                            let path = path_join(dir_path.as_str(), scan[d].1[f].as_str());
                            proof {
                                assert(path@ =~= old(self).projects_dir_spec() + seq!['/']
                                    + scan@[d as int].0@ + seq!['/'] + scan@[d as int].1@[f as int]@);
                            }
                            self.file_index.insert(session_id.to_owned(), path.clone());
                            return Some(path);
                        }
                        f += 1;
                    }
                    d += 1;
                }
                None
            },
        }
    }

    /// A full read of a transcript file's contents; a missing file reads
    /// as empty.
    pub fn get_conversation(&self, content: Option<Vec<u8>>) -> (r: Vec<ConversationMessage>)
        ensures
            views_of(r@) == conversation_result(content),
    {
        reader::get_conversation(content)
    }

    /// An incremental read from a byte offset; see
    /// [`reader::get_conversation_stream`].
    pub fn get_conversation_stream(&self, src: StreamSource, from_offset: u64) -> (r:
        StreamResult)
        requires
            src matches StreamSource::Ready { file_size, tail } ==> file_size
                <= 0x7fff_ffff_ffff_ffff && (from_offset < file_size ==> tail@.len() == file_size
                - from_offset),
        ensures
            match src {
                StreamSource::Missing => r.messages@.len() == 0 && r.next_offset == 0,
                StreamSource::Unreadable => r.messages@.len() == 0 && r.next_offset
                    == from_offset,
                StreamSource::Ready { file_size, tail } => if from_offset >= file_size {
                    r.messages@.len() == 0 && r.next_offset == from_offset
                } else {
                    views_of(r.messages@) == stream_msgs(lines_spec(tail@)) && r.next_offset
                        == next_offset_spec(tail@, from_offset, file_size) && from_offset
                        <= r.next_offset <= file_size
                },
            },
    {
        reader::get_conversation_stream(src, from_offset)
    }
}

} // verus!
