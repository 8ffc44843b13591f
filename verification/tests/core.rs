use session_store::reader::{self, StreamSource};
use session_store::sessions::{projects_from, sessions_from};
use session_store::storage::Storage;
use session_store::text::{encode_project_path, project_name, transcript_stem};
use session_store::types::{ContentBlock, ContentValue, HistoryEntry};
use session_store::watcher::{plan_watch_events, FsEvent};

fn entry(display: &str, timestamp: u64, project: &str, session_id: Option<&str>) -> HistoryEntry {
    HistoryEntry {
        display: display.to_string(),
        timestamp,
        project: project.to_string(),
        session_id: session_id.map(|s| s.to_string()),
    }
}

#[test]
fn project_name_basic() {
    assert_eq!(project_name("/a/b/c"), "c");
    assert_eq!(project_name("noslash"), "noslash");
    assert_eq!(project_name("/a/b/"), "b");
    assert_eq!(project_name(""), "");
    assert_eq!(project_name("///"), "///");
}

#[test]
fn encode_project_path_basic() {
    assert_eq!(encode_project_path("/Users/x/proj.git"), "-Users-x-proj-git");
    assert_eq!(encode_project_path("/p"), "-p");
    assert_eq!(encode_project_path("plain"), "plain");
}

#[test]
fn transcript_stem_basic() {
    assert_eq!(transcript_stem("abc.jsonl"), Some("abc".to_string()));
    assert_eq!(transcript_stem("abc.json"), None);
    assert_eq!(transcript_stem("x"), None);
}

#[test]
fn no_registry_gives_empty_listings() {
    let mut st = Storage::new("/tmp/viewer-root");
    st.load(&Vec::new(), None);
    let sessions = st.get_sessions(&Vec::new());
    assert!(sessions.is_empty());
    let projects = st.get_projects();
    assert!(projects.is_empty());
}

#[test]
fn one_entry_conversation_round() {
    let mut st = Storage::new("/root/.sessions");
    let registry =
        br#"{"display":"d","timestamp":100,"project":"/p","sessionId":"abc"}"#.to_vec();
    let scan = vec![("-p".to_string(), vec!["abc.jsonl".to_string()])];
    st.load(&scan, Some(registry));

    let listings = vec![Vec::new()];
    let sessions = st.get_sessions(&listings);
    assert_eq!(sessions.len(), 1);
    assert_eq!(sessions[0].id, "abc");
    assert_eq!(sessions[0].display, "d");
    assert_eq!(sessions[0].timestamp, 100);
    assert_eq!(sessions[0].project, "/p");
    assert_eq!(sessions[0].project_name, "p");

    let path = st.find_session_file("abc", &scan).expect("indexed");
    assert_eq!(path, "/root/.sessions/projects/-p/abc.jsonl");

    let content = b"{\"type\":\"user\",\"message\":{\"role\":\"user\",\"content\":\"hi\"}}\n{\"type\":\"assistant\",\"message\":{\"role\":\"assistant\",\"content\":\"hello\"}}\n".to_vec();
    let messages = st.get_conversation(Some(content));
    assert_eq!(messages.len(), 2);
    assert_eq!(messages[0].msg_type, "user");
    assert_eq!(messages[1].msg_type, "assistant");
}

#[test]
fn summary_moves_to_front() {
    let content = b"{\"type\":\"summary\",\"summary\":\"s\"}\n{\"type\":\"user\",\"message\":{\"role\":\"user\",\"content\":\"q\"}}\n{\"type\":\"assistant\",\"message\":{\"role\":\"assistant\",\"content\":\"a\"}}\n".to_vec();
    let messages = reader::get_conversation(Some(content));
    assert_eq!(messages.len(), 3);
    assert_eq!(messages[0].msg_type, "summary");
    assert_eq!(messages[0].summary.as_deref(), Some("s"));
    assert_eq!(messages[1].msg_type, "user");
    assert_eq!(messages[2].msg_type, "assistant");
}

#[test]
fn later_summary_ends_up_first() {
    let content = b"{\"type\":\"summary\",\"summary\":\"first\"}\n{\"type\":\"summary\",\"summary\":\"second\"}\n".to_vec();
    let messages = reader::get_conversation(Some(content));
    assert_eq!(messages.len(), 2);
    assert_eq!(messages[0].summary.as_deref(), Some("second"));
    assert_eq!(messages[1].summary.as_deref(), Some("first"));
}

#[test]
fn missing_file_reads_empty() {
    let messages = reader::get_conversation(None);
    assert!(messages.is_empty());
}

#[test]
fn malformed_line_skipped_in_full_read() {
    let content =
        b"not json\n{\"type\":\"user\",\"message\":{\"role\":\"user\",\"content\":\"q\"}}\n"
            .to_vec();
    let messages = reader::get_conversation(Some(content));
    assert_eq!(messages.len(), 1);
    assert_eq!(messages[0].msg_type, "user");
}

#[test]
fn message_content_is_decoded() {
    let content = b"{\"type\":\"assistant\",\"uuid\":\"u1\",\"sessionId\":\"abc\",\"message\":{\"role\":\"assistant\",\"model\":\"m1\",\"content\":[{\"type\":\"text\",\"text\":\"hello\"},{\"type\":\"tool_use\",\"id\":\"t1\",\"name\":\"search\",\"input\":{\"q\":1}}],\"usage\":{\"input_tokens\":3,\"output_tokens\":7}}}\n".to_vec();
    let messages = reader::get_conversation(Some(content));
    assert_eq!(messages.len(), 1);
    let m = &messages[0];
    assert_eq!(m.uuid.as_deref(), Some("u1"));
    assert_eq!(m.session_id.as_deref(), Some("abc"));
    let mc = m.message.as_ref().expect("message");
    assert_eq!(mc.role, "assistant");
    assert_eq!(mc.model.as_deref(), Some("m1"));
    let usage = mc.usage.as_ref().expect("usage");
    assert_eq!(usage.input_tokens, Some(3));
    assert_eq!(usage.output_tokens, Some(7));
    assert_eq!(usage.cache_creation_input_tokens, None);
    match &mc.content {
        ContentValue::Blocks(blocks) => {
            assert_eq!(blocks.len(), 2);
            assert_eq!(
                blocks[0],
                ContentBlock::Text { text: Some("hello".to_string()) }
            );
            match &blocks[1] {
                ContentBlock::ToolUse { id, name, input } => {
                    assert_eq!(id.as_deref(), Some("t1"));
                    assert_eq!(name.as_deref(), Some("search"));
                    assert_eq!(input.as_deref(), Some("{\"q\":1}"));
                }
                other => panic!("unexpected block {:?}", other),
            }
        }
        other => panic!("unexpected content {:?}", other),
    }
}

#[test]
fn text_content_is_decoded() {
    let content =
        b"{\"type\":\"user\",\"message\":{\"role\":\"user\",\"content\":\"plain\"}}\n".to_vec();
    let messages = reader::get_conversation(Some(content));
    assert_eq!(messages.len(), 1);
    let mc = messages[0].message.as_ref().expect("message");
    assert_eq!(mc.content, ContentValue::Text("plain".to_string()));
    assert_eq!(mc.usage, None);
}

#[test]
fn dedup_keeps_first_occurrence_and_sorts_descending() {
    let entries = vec![
        entry("one", 100, "/p", Some("a")),
        entry("two", 300, "/p", Some("a")),
        entry("three", 200, "/q", Some("b")),
        entry("four", 400, "/q", Some("c")),
    ];
    let listings = vec![Vec::new(), Vec::new(), Vec::new(), Vec::new()];
    let sessions = sessions_from(&entries, &listings);
    assert_eq!(sessions.len(), 3);
    // sorted by timestamp descending
    assert!(sessions[0].timestamp >= sessions[1].timestamp);
    assert!(sessions[1].timestamp >= sessions[2].timestamp);
    // the duplicate id kept its first entry's data
    let a = sessions.iter().find(|s| s.id == "a").expect("a");
    assert_eq!(a.display, "one");
    assert_eq!(a.timestamp, 100);
    // ids are unique
    assert_eq!(sessions.iter().filter(|s| s.id == "a").count(), 1);
}

#[test]
fn entry_without_id_resolves_by_closest_mtime() {
    let entries = vec![entry("d", 1000, "/p", None)];
    let listings = vec![vec![
        ("far.jsonl".to_string(), 3000u64),
        ("near.jsonl".to_string(), 1100u64),
        ("skip.txt".to_string(), 1000u64),
    ]];
    let sessions = sessions_from(&entries, &listings);
    assert_eq!(sessions.len(), 1);
    assert_eq!(sessions[0].id, "near");
}

#[test]
fn entry_without_id_and_empty_directory_is_dropped() {
    let entries = vec![entry("d", 1000, "/p", None)];
    let listings = vec![Vec::new()];
    let sessions = sessions_from(&entries, &listings);
    assert!(sessions.is_empty());
}

#[test]
fn projects_are_distinct_and_sorted() {
    let entries = vec![
        entry("a", 1, "/b", Some("1")),
        entry("b", 2, "/a", Some("2")),
        entry("c", 3, "/b", Some("3")),
        entry("d", 4, "", Some("4")),
    ];
    let projects = projects_from(&entries);
    assert_eq!(projects, vec!["/a".to_string(), "/b".to_string()]);
}

#[test]
fn session_meta_finds_by_id() {
    let mut st = Storage::new("/root/.sessions");
    let registry = b"{\"display\":\"d1\",\"timestamp\":100,\"project\":\"/p\",\"sessionId\":\"abc\"}\n{\"display\":\"d2\",\"timestamp\":200,\"project\":\"/q\",\"sessionId\":\"def\"}\n".to_vec();
    st.load(&Vec::new(), Some(registry));
    let listings = vec![Vec::new(), Vec::new()];
    let meta = st.get_session_meta("abc", &listings).expect("present");
    assert_eq!(meta.display, "d1");
    assert!(st.get_session_meta("zzz", &listings).is_none());
}

#[test]
fn stream_reads_incrementally_and_converges() {
    let line1 = b"{\"type\":\"user\",\"message\":{\"role\":\"user\",\"content\":\"q\"}}\n".to_vec();
    let line2 =
        b"{\"type\":\"assistant\",\"message\":{\"role\":\"assistant\",\"content\":\"a\"}}\n"
            .to_vec();
    let mut content = line1.clone();
    content.extend_from_slice(&line2);
    let size = content.len() as u64;

    // first call from offset zero
    let st = Storage::new("/root/.sessions");
    let r1 = st.get_conversation_stream(
        StreamSource::Ready { file_size: size, tail: content.clone() },
        0,
    );
    assert_eq!(r1.messages.len(), 2);
    assert_eq!(r1.next_offset, size);
    assert!(r1.next_offset <= size);

    // a chained call from the reported offset yields nothing more
    let r2 = st.get_conversation_stream(
        StreamSource::Ready { file_size: size, tail: Vec::new() },
        r1.next_offset,
    );
    assert!(r2.messages.is_empty());
    assert_eq!(r2.next_offset, size);
}

#[test]
fn stream_from_midway_returns_only_the_new_line() {
    let line1 = b"{\"type\":\"user\",\"message\":{\"role\":\"user\",\"content\":\"q\"}}\n".to_vec();
    let line2 =
        b"{\"type\":\"assistant\",\"message\":{\"role\":\"assistant\",\"content\":\"a\"}}\n"
            .to_vec();
    let from = line1.len() as u64;
    let size = from + line2.len() as u64;
    let r = reader::get_conversation_stream(
        StreamSource::Ready { file_size: size, tail: line2.clone() },
        from,
    );
    assert_eq!(r.messages.len(), 1);
    assert_eq!(r.messages[0].msg_type, "assistant");
    assert_eq!(r.next_offset, size);
}

#[test]
fn stream_halts_at_first_malformed_line_and_keeps_prior_bytes() {
    let line1 = b"{\"type\":\"user\",\"message\":{\"role\":\"user\",\"content\":\"q\"}}\n".to_vec();
    let partial = b"{\"type\":\"assist".to_vec();
    let mut content = line1.clone();
    content.extend_from_slice(&partial);
    let size = content.len() as u64;
    let r = reader::get_conversation_stream(
        StreamSource::Ready { file_size: size, tail: content },
        0,
    );
    assert_eq!(r.messages.len(), 1);
    assert_eq!(r.next_offset, line1.len() as u64);
    assert!(r.next_offset <= size);
}

#[test]
fn stream_missing_and_unreadable_and_past_end() {
    let r = reader::get_conversation_stream(StreamSource::Missing, 42);
    assert!(r.messages.is_empty());
    assert_eq!(r.next_offset, 0);

    let r = reader::get_conversation_stream(StreamSource::Unreadable, 42);
    assert!(r.messages.is_empty());
    assert_eq!(r.next_offset, 42);

    let r = reader::get_conversation_stream(
        StreamSource::Ready { file_size: 10, tail: Vec::new() },
        10,
    );
    assert!(r.messages.is_empty());
    assert_eq!(r.next_offset, 10);
}

#[test]
fn stream_does_not_resurface_summaries() {
    let content = b"{\"type\":\"summary\",\"summary\":\"s\"}\n{\"type\":\"user\",\"message\":{\"role\":\"user\",\"content\":\"q\"}}\n".to_vec();
    let size = content.len() as u64;
    let r = reader::get_conversation_stream(
        StreamSource::Ready { file_size: size, tail: content },
        0,
    );
    assert_eq!(r.messages.len(), 1);
    assert_eq!(r.messages[0].msg_type, "user");
    assert_eq!(r.next_offset, size);
}

#[test]
fn registry_load_skips_blank_and_malformed_lines() {
    let mut st = Storage::new("/root/.sessions");
    let registry = b"\nnot json\n{\"display\":\"ok\",\"timestamp\":5,\"project\":\"/p\",\"sessionId\":\"x\"}\n{\"display\":\"missing fields\"}\n".to_vec();
    st.load(&Vec::new(), Some(registry));
    let listings = vec![Vec::new()];
    let sessions = st.get_sessions(&listings);
    assert_eq!(sessions.len(), 1);
    assert_eq!(sessions[0].id, "x");
}

#[test]
fn invalidate_forces_reload() {
    let mut st = Storage::new("/root/.sessions");
    st.load(&Vec::new(), Some(Vec::new()));
    assert!(!st.needs_history_load());
    st.invalidate_history_cache();
    assert!(st.needs_history_load());
    st.load_history_cache(Some(
        b"{\"display\":\"d\",\"timestamp\":1,\"project\":\"/p\",\"sessionId\":\"a\"}\n".to_vec(),
    ));
    assert!(!st.needs_history_load());
    assert_eq!(st.get_sessions(&vec![Vec::new()]).len(), 1);
}

#[test]
fn index_lookup_scan_fallback_records_mapping() {
    let mut st = Storage::new("/root/.sessions");
    st.load(&Vec::new(), Some(Vec::new()));
    let scan = vec![
        ("-q".to_string(), vec!["other.jsonl".to_string()]),
        ("-p".to_string(), vec!["abc.jsonl".to_string(), "notes.txt".to_string()]),
    ];
    // not indexed yet: found by scanning, then remembered
    let p1 = st.find_session_file("abc", &scan).expect("found");
    assert_eq!(p1, "/root/.sessions/projects/-p/abc.jsonl");
    let p2 = st.find_session_file("abc", &Vec::new()).expect("from index");
    assert_eq!(p2, p1);
    // a file that is nowhere stays unknown
    assert!(st.find_session_file("zzz", &scan).is_none());
}

#[test]
fn watcher_plan_classifies_events() {
    let st = Storage::new("/root/.sessions");
    let history_path = st.history_path();
    assert_eq!(history_path, "/root/.sessions/history.jsonl");
    let events = vec![
        FsEvent { path: history_path.clone(), relevant: true },
        FsEvent { path: "/root/.sessions/projects/-p/abc.jsonl".to_string(), relevant: true },
        FsEvent { path: "/root/.sessions/projects/-p/skip.txt".to_string(), relevant: true },
        FsEvent { path: "/root/.sessions/projects/-p/ign.jsonl".to_string(), relevant: false },
    ];
    let plan = plan_watch_events(&events, history_path.as_str());
    assert!(plan.registry_changed);
    assert_eq!(plan.updates.len(), 1);
    assert_eq!(plan.updates[0].0, "abc");
    assert_eq!(plan.updates[0].1, "/root/.sessions/projects/-p/abc.jsonl");
}

#[test]
fn appended_line_is_announced_and_readable() {
    // one complete line is appended to a tracked transcript
    let old_content =
        b"{\"type\":\"user\",\"message\":{\"role\":\"user\",\"content\":\"q\"}}\n".to_vec();
    let new_line =
        b"{\"type\":\"assistant\",\"message\":{\"role\":\"assistant\",\"content\":\"a\"}}\n"
            .to_vec();
    let prior_offset = old_content.len() as u64;

    let mut st = Storage::new("/root/.sessions");
    st.load(&Vec::new(), Some(Vec::new()));
    let path = "/root/.sessions/projects/-p/abc.jsonl".to_string();
    let events = vec![FsEvent { path: path.clone(), relevant: true }];
    let plan = plan_watch_events(&events, st.history_path().as_str());
    assert!(!plan.registry_changed);
    assert_eq!(plan.updates.len(), 1);
    let (sid, changed_path) = plan.updates[0].clone();
    assert_eq!(sid, "abc");
    st.add_to_file_index(sid, changed_path);

    // an incremental read from the prior offset returns the new message
    let size = prior_offset + new_line.len() as u64;
    let r = st.get_conversation_stream(
        StreamSource::Ready { file_size: size, tail: new_line },
        prior_offset,
    );
    assert_eq!(r.messages.len(), 1);
    assert_eq!(r.messages[0].msg_type, "assistant");
    assert_eq!(r.next_offset, size);
}
