//! Session resolution: from registry entries (and directory listings for
//! entries without an explicit id) to the deduplicated session list,
//! sorted by timestamp descending, and to the sorted project list.

use vstd::prelude::*;

use crate::text::{
    ends_jsonl, lex_lt, project_name, project_name_spec, stem_spec, str_eq, str_lt,
    transcript_stem,
};
use crate::types::{HistoryEntry, Session, SessionView};

verus! {

/// Distance between a file's modification time and an entry's timestamp,
/// in milliseconds.
pub open spec fn time_diff(mt: u64, ts: u64) -> nat {
    if mt >= ts {
        (mt - ts) as nat
    } else {
        (ts - mt) as nat
    }
}

/// The transcript file of a listing whose modification time lies closest
/// to the timestamp, with its distance; on equal distance the earlier
/// listed file wins.  Files without the transcript extension do not
/// count.
pub open spec fn closest_spec(files: Seq<(String, u64)>, ts: u64) -> Option<(Seq<char>, nat)>
    decreases files.len(),
{
    if files.len() == 0 {
        None
    } else {
        let prior = closest_spec(files.drop_last(), ts);
        let name = files.last().0@;
        if !ends_jsonl(name) {
            prior
        } else {
            let d = time_diff(files.last().1, ts);
            match prior {
                None => Some((stem_spec(name), d)),
                Some(p) => if d < p.1 {
                    Some((stem_spec(name), d))
                } else {
                    prior
                },
            }
        }
    }
}

/// The id a registry entry resolves to: its own, or the closest file of
/// its project directory's listing.
pub open spec fn resolved_id(e: HistoryEntry, files: Seq<(String, u64)>) -> Option<Seq<char>> {
    match e.session_id {
        Some(id) => Some(id@),
        None => match closest_spec(files, e.timestamp) {
            None => None,
            Some(p) => Some(p.0),
        },
    }
}

/// The session a registry entry yields once its id is resolved.
pub open spec fn session_view_of(e: HistoryEntry, id: Seq<char>) -> SessionView {
    SessionView {
        id: id,
        display: e.display@,
        timestamp: e.timestamp,
        project: e.project@,
        project_name: project_name_spec(e.project@),
    }
}

/// True when some session in the list carries the id.
pub open spec fn has_sid(s: Seq<SessionView>, id: Seq<char>) -> bool {
    exists|k: int| 0 <= k < s.len() && s[k].id == id
}

/// The session list in file order, before sorting: entries that resolve
/// to an id already listed contribute nothing (the first occurrence
/// wins); entries that resolve to no id contribute nothing.
pub open spec fn raw_sessions(entries: Seq<HistoryEntry>, listings: Seq<Vec<(String, u64)>>)
    -> Seq<SessionView>
    decreases entries.len(),
{
    if entries.len() == 0 || entries.len() > listings.len() {
        Seq::empty()
    } else {
        let prior = raw_sessions(entries.drop_last(), listings);
        let e = entries.last();
        match resolved_id(e, listings[entries.len() - 1]@) {
            None => prior,
            Some(id) => if has_sid(prior, id) {
                prior
            } else {
                prior.push(session_view_of(e, id))
            },
        }
    }
}

/// The views of a session vector.
pub open spec fn session_views(s: Seq<Session>) -> Seq<SessionView> {
    s.map_values(|x: Session| x@)
}

/// True when some session in the vector has the given view.
pub open spec fn has_view(s: Seq<Session>, sv: SessionView) -> bool {
    exists|i: int| 0 <= i < s.len() && s[i]@ == sv
}

/// Session ids are pairwise distinct.
pub open spec fn distinct_ids(s: Seq<Session>) -> bool {
    forall|i: int, j: int| 0 <= i < j < s.len() ==> s[i]@.id != s[j]@.id
}

/// Timestamps never increase along the list.
pub open spec fn sorted_desc(s: Seq<Session>) -> bool {
    forall|i: int, j: int| 0 <= i < j < s.len() ==> s[i].timestamp >= s[j].timestamp
}

/// Picks from a directory listing the transcript file whose modification
/// time is closest to the timestamp; the earliest listed wins ties.
fn closest_session(files: &Vec<(String, u64)>, ts: u64) -> (r: Option<String>)
    ensures
        match (r, closest_spec(files@, ts)) {
            (None, None) => true,
            (Some(s), Some(p)) => s@ == p.0,
            _ => false,
        },
{
    let n = files.len();
    let mut best_name: Option<String> = None;
    let mut best_diff: u64 = 0;
    let mut i: usize = 0;
    proof {
        assert(files@.take(0) =~= Seq::<(String, u64)>::empty());
    }
    while i < n
        invariant
            n == files@.len(),
            0 <= i <= n,
            match closest_spec(files@.take(i as int), ts) {
                None => best_name is None,
                Some(p) => best_name matches Some(s) && s@ == p.0 && best_diff == p.1,
            },
        decreases n - i,
    {
        let ghost pref = files@.take(i + 1);
        proof {
            assert(pref.drop_last() =~= files@.take(i as int));
            assert(pref.last() == files@[i as int]);
        }
        match transcript_stem(files[i].0.as_str()) {
            None => {},
            Some(stem) => {
                let mt = files[i].1;
                let d = if mt >= ts {
                    mt - ts
                } else {
                    ts - mt
                };
                let replace = match &best_name {
                    None => true,
                    Some(_) => d < best_diff,
                };
                if replace {
                    best_name = Some(stem);
                    best_diff = d;
                }
            },
        }
        i += 1;
    }
    proof {
        assert(files@.take(n as int) =~= files@);
    }
    best_name
}

/// True when some already collected session carries the id.
fn seen_id(out: &Vec<Session>, id: &str) -> (r: bool)
    ensures
        r == has_sid(session_views(out@), id@),
{
    let n = out.len();
    let mut k: usize = 0;
    while k < n
        invariant
            n == out@.len(),
            0 <= k <= n,
            forall|t: int| 0 <= t < k ==> out@[t]@.id != id@,
        decreases n - k,
    {
        if str_eq(out[k].id.as_str(), id) {
            proof {
                assert(session_views(out@)[k as int].id == id@);
            }
            return true;
        }
        k += 1;
    }
    proof {
        assert(forall|t: int|
            0 <= t < session_views(out@).len() ==> session_views(out@)[t].id != id@);
    }
    false
}

/// Collects the session list in file order: the first entry to resolve
/// to each id wins; entries resolving to no id are dropped.
fn collect_sessions(entries: &Vec<HistoryEntry>, listings: &Vec<Vec<(String, u64)>>) -> (r:
    Vec<Session>)
    requires
        entries@.len() == listings@.len(),
    ensures
        session_views(r@) == raw_sessions(entries@, listings@),
{
    let n = entries.len();
    let mut out: Vec<Session> = Vec::new();
    let mut i: usize = 0;
    proof {
        assert(entries@.take(0) =~= Seq::<HistoryEntry>::empty());
        assert(session_views(out@) =~= Seq::<SessionView>::empty());
    }
    while i < n
        invariant
            n == entries@.len(),
            entries@.len() == listings@.len(),
            0 <= i <= n,
            session_views(out@) == raw_sessions(entries@.take(i as int), listings@),
        decreases n - i,
    {
        let ghost pref = entries@.take(i + 1);
        proof {
            assert(pref.drop_last() =~= entries@.take(i as int));
            assert(pref.last() == entries@[i as int]);
            assert(pref.len() - 1 == i);
        }
        let sid: Option<String> = match &entries[i].session_id {
            Some(id) => Some(id.clone()),
            None => closest_session(&listings[i], entries[i].timestamp),
        };
        match sid {
            None => {},
            Some(id) => {
                if !seen_id(&out, id.as_str()) {
                    let ghost old_views = session_views(out@);
                    let s = Session {
                        id,
                        display: entries[i].display.clone(),
                        timestamp: entries[i].timestamp,
                        project: entries[i].project.clone(),
                        project_name: project_name(entries[i].project.as_str()),
                    };
                    out.push(s);
                    proof {
                        assert(session_views(out@) =~= old_views.push(s@));
                    }
                }
            },
        }
        i += 1;
    }
    proof {
        assert(entries@.take(n as int) =~= entries@);
    }
    out
}

/// Sorts the collected sessions by timestamp descending.  The order of
/// equal timestamps is left unspecified; the contents, and the
/// distinctness of ids, are untouched.
fn sort_sessions(v: &mut Vec<Session>)
    ensures
        final(v)@.len() == old(v)@.len(),
        sorted_desc(final(v)@),
        forall|x: Session| final(v)@.contains(x) <==> old(v)@.contains(x),
        distinct_ids(old(v)@) ==> distinct_ids(final(v)@),
{
    broadcast use vstd::seq_lib::group_to_multiset_ensures;

    let ghost orig = v@;
    let n = v.len();
    if n <= 1 {
        return ;
    }
    let mut i: usize = 1;
    while i < n
        invariant
            n == v@.len(),
            1 <= i <= n,
            sorted_desc(v@.take(i as int)),
            v@.to_multiset() == orig.to_multiset(),
            distinct_ids(orig) ==> distinct_ids(v@),
        decreases n - i,
    {
        let ts = v[i].timestamp;
        let mut j: usize = 0;
        while j < i && v[j].timestamp >= ts
            invariant
                n == v@.len(),
                0 <= j <= i < n,
                ts == v@[i as int].timestamp,
                forall|k: int| 0 <= k < j ==> v@[k].timestamp >= ts,
            decreases i - j,
        {
            j += 1;
        }
        if j < i {
            let ghost pre = v@;
            let x = v.remove(i);
            let ghost mid = v@;
            v.insert(j, x);
            proof {
                assert(forall|t: int| 0 <= t < j ==> v@[t] == pre[t]);
                assert(v@[j as int] == pre[i as int]);
                assert(forall|t: int| j < t <= i ==> v@[t] == pre[t - 1]);
                assert(forall|t: int| i < t < v@.len() ==> v@[t] == pre[t]);
                // contents are preserved
                vstd::seq_lib::to_multiset_remove(pre, i as int);
                vstd::seq_lib::to_multiset_insert(mid, j as int, x);
                vstd::seq_lib::to_multiset_contains(pre, pre[i as int]);
                assert(pre.contains(pre[i as int]));
                assert(v@.to_multiset() =~= pre.to_multiset());
                // the moved prefix is sorted again
                assert(forall|t: int| 0 <= t < i ==> pre.take(i as int)[t] == pre[t]);
                assert(forall|t1: int, t2: int|
                    0 <= t1 < t2 < i ==> pre[t1].timestamp >= pre[t2].timestamp);
                assert(pre[j as int].timestamp < ts);
                assert(pre[i as int].timestamp == ts);
                assert forall|a: int, b: int|
                    0 <= a < b < i + 1 implies v@[a].timestamp >= v@[b].timestamp by {
                    let pa = if a < j {
                        a
                    } else if a == j {
                        i as int
                    } else {
                        a - 1
                    };
                    let pb = if b < j {
                        b
                    } else if b == j {
                        i as int
                    } else {
                        b - 1
                    };
                    assert(v@[a] == pre[pa]);
                    assert(v@[b] == pre[pb]);
                    if a == j {
                        // the moved element against what follows it
                        assert(j <= pb < i);
                        if pb == j {
                            assert(pre[pb].timestamp < ts);
                        } else {
                            assert(pre[pb].timestamp <= pre[j as int].timestamp);
                        }
                    } else if b == j {
                        assert(pa < j);
                        assert(pre[pa].timestamp >= ts);
                    } else {
                        assert(0 <= pa < pb < i);
                    }
                }
                assert(sorted_desc(v@.take(i + 1)));
                // distinct ids are preserved under the permutation
                if distinct_ids(orig) {
                    assert forall|a: int, b: int|
                        0 <= a < b < v@.len() implies v@[a]@.id != v@[b]@.id by {
                        let pa = if a < j {
                            a
                        } else if a == j {
                            i as int
                        } else if a <= i {
                            a - 1
                        } else {
                            a
                        };
                        let pb = if b < j {
                            b
                        } else if b == j {
                            i as int
                        } else if b <= i {
                            b - 1
                        } else {
                            b
                        };
                        assert(v@[a] == pre[pa]);
                        assert(v@[b] == pre[pb]);
                        assert(pa != pb);
                    }
                }
            }
        } else {
            proof {
                assert(v@.take(i + 1) =~= v@.take(i as int).push(v@[i as int]));
            }
        }
        i += 1;
    }
    proof {
        assert(v@.take(n as int) =~= v@);
        assert forall|x: Session| v@.contains(x) <==> orig.contains(x) by {
            assert(v@.contains(x) <==> v@.to_multiset().count(x) > 0);
            assert(orig.contains(x) <==> orig.to_multiset().count(x) > 0);
        }
    }
}

proof fn lemma_raw_sessions_distinct(entries: Seq<HistoryEntry>, listings: Seq<Vec<(String, u64)>>)
    ensures
        forall|i: int, j: int|
            0 <= i < j < raw_sessions(entries, listings).len() ==> raw_sessions(
                entries,
                listings,
            )[i].id != raw_sessions(entries, listings)[j].id,
    decreases entries.len(),
{
    if entries.len() > 0 && entries.len() <= listings.len() {
        lemma_raw_sessions_distinct(entries.drop_last(), listings);
        let prior = raw_sessions(entries.drop_last(), listings);
        let r = raw_sessions(entries, listings);
        if r.len() > prior.len() {
            assert(!has_sid(prior, r.last().id));
        }
    }
}

/// Derives the session listing from the registry entries, using for each
/// entry without an explicit id the listing of its encoded project
/// directory (aligned by position).  The result carries each resolved id
/// once, first occurrence winning, and is sorted by timestamp
/// descending; the order of equal timestamps is unspecified.
pub fn sessions_from(entries: &Vec<HistoryEntry>, listings: &Vec<Vec<(String, u64)>>) -> (r:
    Vec<Session>)
    requires
        entries@.len() == listings@.len(),
    ensures
        sorted_desc(r@),
        distinct_ids(r@),
        forall|sv: SessionView|
            has_view(r@, sv) <==> raw_sessions(entries@, listings@).contains(sv),
{
    let mut out = collect_sessions(entries, listings);
    let ghost collected = out@;
    proof {
        lemma_raw_sessions_distinct(entries@, listings@);
        let raw = raw_sessions(entries@, listings@);
        assert(forall|t: int|
            0 <= t < collected.len() ==> session_views(collected)[t] == collected[t]@);
        assert forall|a: int, b: int|
            0 <= a < b < collected.len() implies collected[a]@.id != collected[b]@.id by {
            assert(raw[a].id != raw[b].id);
        }
        assert(distinct_ids(collected));
    }
    sort_sessions(&mut out);
    proof {
        let raw = raw_sessions(entries@, listings@);
        assert forall|sv: SessionView| has_view(out@, sv) <==> raw.contains(sv) by {
            if has_view(out@, sv) {
                let i = choose|i: int| 0 <= i < out@.len() && out@[i]@ == sv;
                assert(collected.contains(out@[i]));
                let k = choose|k: int| 0 <= k < collected.len() && collected[k] == out@[i];
                assert(session_views(collected)[k] == sv);
                assert(raw.contains(sv));
            }
            if raw.contains(sv) {
                let k = choose|k: int| 0 <= k < raw.len() && raw[k] == sv;
                assert(session_views(collected)[k] == sv);
                assert(collected[k]@ == sv);
                assert(out@.contains(collected[k]));
                let i = choose|i: int| 0 <= i < out@.len() && out@[i] == collected[k];
                assert(has_view(out@, sv));
            }
        }
    }
    out
}

/// True when some registry entry names the project.
pub open spec fn project_present(entries: Seq<HistoryEntry>, p: Seq<char>) -> bool {
    p.len() > 0 && exists|i: int| 0 <= i < entries.len() && entries[i].project@ == p
}

/// The distinct non-empty project paths of the registry entries, sorted
/// ascending.
pub fn projects_from(entries: &Vec<HistoryEntry>) -> (r: Vec<String>)
    ensures
        forall|i: int, j: int| 0 <= i < j < r@.len() ==> lex_lt(r@[i]@, r@[j]@),
        forall|p: Seq<char>|
            (exists|i: int| 0 <= i < r@.len() && r@[i]@ == p) <==> project_present(entries@, p),
{
    let n = entries.len();
    let mut out: Vec<String> = Vec::new();
    let mut i: usize = 0;
    while i < n
        invariant
            n == entries@.len(),
            0 <= i <= n,
            forall|a: int, b: int| 0 <= a < b < out@.len() ==> lex_lt(out@[a]@, out@[b]@),
            forall|p: Seq<char>|
                (exists|t: int| 0 <= t < out@.len() && out@[t]@ == p) <==> project_present(
                    entries@.take(i as int),
                    p,
                ),
        decreases n - i,
    {
        let p = &entries[i].project;
        let ghost pold = entries@.take(i as int);
        let ghost pnew = entries@.take(i + 1);
        proof {
            assert(forall|t: int| 0 <= t < i ==> pnew[t] == entries@[t] && pold[t] == entries@[t]);
            assert(pnew[i as int] == entries@[i as int]);
            assert forall|q: Seq<char>| project_present(pnew, q) implies (project_present(
                pold,
                q,
            ) || (q.len() > 0 && q == entries@[i as int].project@)) by {
                let t = choose|t: int| 0 <= t < pnew.len() && pnew[t].project@ == q;
                if t < i {
                    assert(pold[t].project@ == q);
                }
            }
            assert forall|q: Seq<char>| project_present(pold, q) implies project_present(
                pnew,
                q,
            ) by {
                let t = choose|t: int| 0 <= t < pold.len() && pold[t].project@ == q;
                assert(pnew[t].project@ == q);
            }
        }
        if p.as_str().unicode_len() > 0 {
            let m = out.len();
            let mut j: usize = 0;
            while j < m && str_lt(out[j].as_str(), p.as_str())
                invariant
                    m == out@.len(),
                    0 <= j <= m,
                    forall|t: int| 0 <= t < j ==> lex_lt(out@[t]@, p@),
                decreases m - j,
            {
                j += 1;
            }
            let dup = if j < m {
                str_eq(out[j].as_str(), p.as_str())
            } else {
                false
            };
            if !dup {
                let ghost pre = out@;
                out.insert(j, p.clone());
                proof {
                    assert(forall|t: int| 0 <= t < j ==> out@[t] == pre[t]);
                    assert(out@[j as int]@ == p@);
                    assert(forall|t: int| j < t < out@.len() ==> out@[t] == pre[t - 1]);
                    if j < m {
                        lemma_lex_total(pre[j as int]@, p@);
                        assert(lex_lt(p@, pre[j as int]@));
                    }
                    assert forall|a: int, b: int|
                        0 <= a < b < out@.len() implies lex_lt(out@[a]@, out@[b]@) by {
                        if b == j {
                            assert(lex_lt(out@[a]@, p@));
                        } else if a == j && b > j {
                            assert(out@[b] == pre[b - 1]);
                            if b - 1 == j {
                                assert(lex_lt(p@, pre[j as int]@));
                            } else {
                                assert(lex_lt(pre[j as int]@, pre[b - 1]@));
                                lemma_lex_trans(p@, pre[j as int]@, pre[b - 1]@);
                            }
                        } else if a < j && b > j {
                            assert(out@[a] == pre[a]);
                            assert(out@[b] == pre[b - 1]);
                            if b - 1 == j {
                                lemma_lex_trans(pre[a]@, p@, pre[j as int]@);
                            }
                        }
                    }
                    assert(p@.len() > 0);
                    assert forall|q: Seq<char>|
                        (exists|t: int| 0 <= t < out@.len() && out@[t]@ == q) implies
                        project_present(pnew, q) by {
                        let t = choose|t: int| 0 <= t < out@.len() && out@[t]@ == q;
                        if t < j {
                            assert(pre[t]@ == q);
                        } else if t > j {
                            assert(pre[t - 1]@ == q);
                        } else {
                            assert(q == p@);
                            assert(pnew[i as int].project@ == q);
                        }
                    }
                    assert forall|q: Seq<char>| project_present(pnew, q) implies (exists|t: int|
                        0 <= t < out@.len() && out@[t]@ == q) by {
                        if project_present(pold, q) {
                            let u = choose|u: int| 0 <= u < pre.len() && pre[u]@ == q;
                            if u < j {
                                assert(out@[u]@ == q);
                            } else {
                                assert(out@[u + 1]@ == q);
                            }
                        } else {
                            assert(q == p@);
                            assert(out@[j as int]@ == q);
                        }
                    }
                }
            } else {
                proof {
                    assert(out@[j as int]@ == p@);
                    assert forall|q: Seq<char>| project_present(pnew, q) implies (exists|t: int|
                        0 <= t < out@.len() && out@[t]@ == q) by {
                        if !project_present(pold, q) {
                            assert(q == p@);
                            assert(out@[j as int]@ == q);
                        }
                    }
                }
            }
        } else {
            proof {
                assert(entries@[i as int].project@.len() == 0);
                assert forall|q: Seq<char>| project_present(pnew, q) implies project_present(
                    pold,
                    q,
                ) by {
                    assert(q.len() > 0);
                    assert(q != entries@[i as int].project@);
                }
            }
        }
        i += 1;
    }
    proof {
        assert(entries@.take(n as int) =~= entries@);
    }
    out
}

/// Strict lexicographic order is transitive.
proof fn lemma_lex_trans(a: Seq<char>, b: Seq<char>, c: Seq<char>)
    requires
        lex_lt(a, b),
        lex_lt(b, c),
    ensures
        lex_lt(a, c),
    decreases a.len() + b.len() + c.len(),
{
    if a.len() > 0 && b.len() > 0 && c.len() > 0 {
        if a[0] == b[0] && b[0] == c[0] {
            lemma_lex_trans(a.drop_first(), b.drop_first(), c.drop_first());
        }
    }
}

/// Two strings are lexicographically ordered one way or the other, or
/// they are equal.
proof fn lemma_lex_total(a: Seq<char>, b: Seq<char>)
    ensures
        lex_lt(a, b) || lex_lt(b, a) || a == b,
    decreases a.len(),
{
    if b.len() == 0 {
        if a.len() == 0 {
            assert(a =~= b);
        } else {
            assert(lex_lt(b, a));
        }
    } else if a.len() == 0 {
        assert(lex_lt(a, b));
    } else if a[0] != b[0] {
        assert((a[0] as u32) != (b[0] as u32)) by {
            if (a[0] as u32) == (b[0] as u32) {
                vstd::utf8::char_u32_cast(a[0], a[0] as u32);
                vstd::utf8::char_u32_cast(b[0], b[0] as u32);
            }
        }
    } else {
        lemma_lex_total(a.drop_first(), b.drop_first());
        if a.drop_first() == b.drop_first() {
            assert(a.drop_first().len() == a.len() - 1);
            assert(b.drop_first().len() == b.len() - 1);
            assert(a.len() == b.len());
            assert forall|k: int| 0 <= k < a.len() implies a[k] == b[k] by {
                if k > 0 {
                    assert(a[k] == a.drop_first()[k - 1]);
                    assert(b[k] == b.drop_first()[k - 1]);
                }
            }
            assert(a =~= b);
        }
    }
}

} // verus!
