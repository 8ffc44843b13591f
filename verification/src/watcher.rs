//! The decisions of the filesystem-change watcher.
//!
//! The caller's watch callback hands the debounced events in as plain
//! values; this module decides, without touching the filesystem, whether
//! the registry cache must be invalidated and which sessions' transcripts
//! changed.  The caller then applies the plan: it invalidates or updates
//! the storage and emits the matching notifications.

use vstd::prelude::*;

use crate::text::{cut_ext, ends_jsonl, file_name_part, str_eq, strip_extension, suffix_after_slash, transcript_stem};

verus! {

/// One debounced filesystem event, as the watch callback sees it.
pub struct FsEvent {
    /// The changed path.
    pub path: String,
    /// True for an ordinary change notification; other kinds are ignored.
    pub relevant: bool,
}

/// What the watcher must do for a batch of events.
pub struct WatchPlan {
    /// The registry file changed: drop the history snapshot and announce
    /// that the session list changed.
    pub registry_changed: bool,
    /// For each changed transcript, its session id and path, in event
    /// order: record the mapping and announce that the conversation
    /// changed.
    pub updates: Vec<(String, String)>,
}

/// The session id a changed transcript path announces: its file name
/// without the extension.
pub open spec fn event_session_id(path: Seq<char>) -> Seq<char> {
    cut_ext(suffix_after_slash(path))
}

/// Whether a batch of events touches the registry file.
pub open spec fn registry_changed_of(events: Seq<FsEvent>, history_path: Seq<char>) -> bool {
    exists|i: int|
        0 <= i < events.len() && events[i].relevant && events[i].path@ == history_path
}

/// The transcript updates a batch of events calls for, in event order;
/// the registry file itself is not a transcript.
pub open spec fn updates_of(events: Seq<FsEvent>, history_path: Seq<char>) -> Seq<
    (Seq<char>, Seq<char>),
>
    decreases events.len(),
{
    if events.len() == 0 {
        Seq::empty()
    } else {
        let prior = updates_of(events.drop_last(), history_path);
        let e = events.last();
        if e.relevant && e.path@ != history_path && ends_jsonl(e.path@) {
            prior.push((event_session_id(e.path@), e.path@))
        } else {
            prior
        }
    }
}

/// The views of an update vector.
pub open spec fn update_views(s: Seq<(String, String)>) -> Seq<(Seq<char>, Seq<char>)> {
    s.map_values(|u: (String, String)| (u.0@, u.1@))
}

/// Decides what a batch of debounced events means: whether the registry
/// changed, and which transcripts did.
pub fn plan_watch_events(events: &Vec<FsEvent>, history_path: &str) -> (r: WatchPlan)
    ensures
        r.registry_changed == registry_changed_of(events@, history_path@),
        update_views(r.updates@) == updates_of(events@, history_path@),
{
    let n = events.len();
    let mut registry_changed = false;
    let mut updates: Vec<(String, String)> = Vec::new();
    let mut i: usize = 0;
    proof {
        assert(events@.take(0) =~= Seq::<FsEvent>::empty());
        assert(update_views(updates@) =~= Seq::<(Seq<char>, Seq<char>)>::empty());
    }
    while i < n
        invariant
            n == events@.len(),
            0 <= i <= n,
            registry_changed == registry_changed_of(events@.take(i as int), history_path@),
            update_views(updates@) == updates_of(events@.take(i as int), history_path@),
        decreases n - i,
    {
        let ghost pref = events@.take(i + 1);
        proof {
            assert(pref.drop_last() =~= events@.take(i as int));
            assert(pref.last() == events@[i as int]);
            assert forall|t: int|
                0 <= t < i + 1 implies pref[t] == events@[t] by {}
        }
        if events[i].relevant {
            let path = &events[i].path;
            if str_eq(path.as_str(), history_path) {
                registry_changed = true;

                proof {
                    assert(pref[i as int].relevant && pref[i as int].path@ == history_path@);
                    assert(registry_changed_of(pref, history_path@));
                }
            } else {
                match transcript_stem(path.as_str()) {
                    None => {},
                    Some(_) => {
                        let name = file_name_part(path.as_str());
                        let sid = strip_extension(name.as_str());
                        let ghost old_views = update_views(updates@);
                        let path_copy = path.clone();
                        updates.push((sid, path_copy));
                        proof {
                            assert(update_views(updates@) =~= old_views.push(
                                (
                                    event_session_id(events@[i as int].path@),
                                    events@[i as int].path@,
                                ),
                            ));
                        }
                    },
                }
            }
        }
        proof {
            let e = events@[i as int];
            if !(e.relevant && e.path@ != history_path@ && ends_jsonl(e.path@)) {
                assert(updates_of(pref, history_path@) == updates_of(
                    events@.take(i as int),
                    history_path@,
                ));
            }
            if !(e.relevant && e.path@ == history_path@) {
                assert(registry_changed_of(pref, history_path@) == registry_changed_of(
                    events@.take(i as int),
                    history_path@,
                )) by {
                    if registry_changed_of(pref, history_path@) {
                        let t = choose|t: int|
                            0 <= t < pref.len() && pref[t].relevant && pref[t].path@
                                == history_path@;
                        assert(t < i);
                        assert(events@.take(i as int)[t] == events@[t]);
                    }
                    if registry_changed_of(events@.take(i as int), history_path@) {
                        let t = choose|t: int|
                            0 <= t < i && events@.take(i as int)[t].relevant && events@.take(
                                i as int,
                            )[t].path@ == history_path@;
                        assert(pref[t] == events@[t]);
                    }
                }
            }
        }
        i += 1;
    }
    proof {
        assert(events@.take(n as int) =~= events@);
    }
    WatchPlan { registry_changed, updates }
}

} // verus!
