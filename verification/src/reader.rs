//! Full and incremental transcript readers.
//!
//! A full read keeps `user` and `assistant` messages in file order and
//! moves every `summary` line to the front as it is met, so with several
//! summaries the one met last stands first; this processing-order
//! behaviour is deliberate and kept as is.  An incremental read starts at
//! a byte offset, consumes line by line, stops at the first line it does
//! not understand (a write may be in progress), and reports the offset to
//! resume from, never past the file size seen by the call.

use vstd::prelude::*;

use crate::framing::{
    consumed_of, lemma_consumed_le_len, lines_spec, split_lines, trim_bytes, trim_spec,
};
use crate::parse::{message_of, msg_opt_view, parse_message_line};
use crate::text::str_eq;
use crate::types::{ConversationMessage, ConversationMessageV, StreamResult};

verus! {

/// Messages that a read returns in file order.
pub open spec fn is_kept(m: ConversationMessageV) -> bool {
    m.msg_type@ == "user"@ || m.msg_type@ == "assistant"@
}

/// Messages that a full read moves to the front.
pub open spec fn is_summary(m: ConversationMessageV) -> bool {
    m.msg_type@ == "summary"@
}

/// The views of a message vector.
pub open spec fn views_of(s: Seq<ConversationMessage>) -> Seq<ConversationMessageV> {
    s.map_values(|m: ConversationMessage| m@)
}

/// What a full read of the given lines returns.
pub open spec fn conversation_of(lines: Seq<Seq<u8>>) -> Seq<ConversationMessageV>
    decreases lines.len(),
{
    if lines.len() == 0 {
        Seq::empty()
    } else {
        let prior = conversation_of(lines.drop_last());
        let t = trim_spec(lines.last());
        if t.len() == 0 {
            prior
        } else {
            match message_of(t) {
                None => prior,
                Some(m) => if is_kept(m) {
                    prior.push(m)
                } else if is_summary(m) {
                    seq![m] + prior
                } else {
                    prior
                },
            }
        }
    }
}

/// What a full read returns for a transcript file's contents, or for a
/// missing file.
pub open spec fn conversation_result(content: Option<Vec<u8>>) -> Seq<ConversationMessageV> {
    match content {
        None => Seq::empty(),
        Some(c) => conversation_of(lines_spec(c@)),
    }
}

/// Reads a whole transcript: every non-blank line it understands, with
/// `user` and `assistant` messages in file order and each `summary` put
/// in front as it is met.
pub fn read_conversation(content: &Vec<u8>) -> (r: Vec<ConversationMessage>)
    ensures
        views_of(r@) == conversation_of(lines_spec(content@)),
{
    let lines = split_lines(content);
    let mut out: Vec<ConversationMessage> = Vec::new();
    let n = lines.len();
    let mut i: usize = 0;
    proof {
        assert(lines.deep_view().take(0) =~= Seq::<Seq<u8>>::empty());
        assert(views_of(out@) =~= Seq::<ConversationMessageV>::empty());
    }
    while i < n
        invariant
            n == lines@.len(),
            0 <= i <= n,
            lines.deep_view() == lines_spec(content@),
            views_of(out@) == conversation_of(lines.deep_view().take(i as int)),
        decreases n - i,
    {
        let ghost pref = lines.deep_view().take(i + 1);
        proof {
            assert(pref.drop_last() =~= lines.deep_view().take(i as int));
            assert(pref.last() =~= lines@[i as int]@);
            assert(lines.deep_view()[i as int] =~= lines@[i as int]@);
        }
        let t = trim_bytes(lines[i].as_slice());
        if t.len() > 0 {
            match parse_message_line(t.as_slice()) {
                None => {},
                Some(m) => {
                    let keep = str_eq(m.msg_type.as_str(), "user") || str_eq(
                        m.msg_type.as_str(),
                        "assistant",
                    );
                    if keep {
                        let ghost old_out = out@;
                        out.push(m);
                        proof {
                            assert(views_of(out@) =~= views_of(old_out).push(m@));
                        }
                    } else if str_eq(m.msg_type.as_str(), "summary") {
                        let ghost old_out = out@;
                        out.insert(0, m);
                        proof {
                            assert(views_of(out@) =~= seq![m@] + views_of(old_out));
                        }
                    }
                },
            }
        }
        i += 1;
    }
    proof {
        assert(lines.deep_view().take(n as int) =~= lines.deep_view());
    }
    out
}

/// A full read of a transcript file, or an empty result for a missing
/// one.
pub fn get_conversation(content: Option<Vec<u8>>) -> (r: Vec<ConversationMessage>)
    ensures
        views_of(r@) == conversation_result(content),
{
    match content {
        None => Vec::new(),
        Some(c) => read_conversation(&c),
    }
}

/// The messages an incremental read returns: `user` and `assistant`
/// lines in file order up to the first line not understood; summaries
/// are not surfaced again here.
pub open spec fn stream_msgs(lines: Seq<Seq<u8>>) -> Seq<ConversationMessageV>
    decreases lines.len(),
{
    if lines.len() == 0 {
        Seq::empty()
    } else {
        let t = trim_spec(lines[0]);
        if t.len() == 0 {
            stream_msgs(lines.drop_first())
        } else {
            match message_of(t) {
                None => Seq::empty(),
                Some(m) => if is_kept(m) {
                    seq![m] + stream_msgs(lines.drop_first())
                } else {
                    stream_msgs(lines.drop_first())
                },
            }
        }
    }
}

/// The bytes an incremental read consumes: each understood or blank line
/// costs its length plus one terminator byte; the first line not
/// understood and everything after it cost nothing.
pub open spec fn stream_used(lines: Seq<Seq<u8>>) -> nat
    decreases lines.len(),
{
    if lines.len() == 0 {
        0
    } else {
        let t = trim_spec(lines[0]);
        if t.len() == 0 {
            lines[0].len() + 1 + stream_used(lines.drop_first())
        } else {
            match message_of(t) {
                None => 0,
                Some(m) => lines[0].len() + 1 + stream_used(lines.drop_first()),
            }
        }
    }
}

/// The offset an incremental read reports: the consumed bytes added to
/// the start offset, capped at the file size.
pub open spec fn next_offset_spec(bytes: Seq<u8>, from: u64, size: u64) -> int {
    if from + stream_used(lines_spec(bytes)) > size {
        size as int
    } else {
        from + stream_used(lines_spec(bytes))
    }
}

proof fn lemma_stream_used_le(lines: Seq<Seq<u8>>)
    ensures
        stream_used(lines) <= consumed_of(lines),
    decreases lines.len(),
{
    if lines.len() > 0 {
        lemma_stream_used_le(lines.drop_first());
    }
}

proof fn lemma_stream_used_full(lines: Seq<Seq<u8>>)
    requires
        forall|k: int|
            0 <= k < lines.len() ==> trim_spec(lines[k]).len() == 0 || message_of(
                trim_spec(lines[k]),
            ) is Some,
    ensures
        stream_used(lines) == consumed_of(lines),
    decreases lines.len(),
{
    if lines.len() > 0 {
        assert(forall|k: int|
            0 <= k < lines.drop_first().len() ==> lines.drop_first()[k] == lines[k + 1]);
        lemma_stream_used_full(lines.drop_first());
    }
}

/// Streaming convergence: when every line of the tail is blank or
/// understood, a single incremental read consumes the whole tail and
/// reports the file size as the next offset.  Chained with the reader's
/// contract — an offset at the file size yields no messages and the same
/// offset — repeated calls settle there.  A tail whose last line stays
/// not-understood (a write in progress that never completes) is left
/// out: such a call keeps reporting the offset before that line.
pub proof fn lemma_stream_converges(tail: Seq<u8>, from: u64, size: u64)
    requires
        from < size,
        size <= 0x7fff_ffff_ffff_ffff,
        tail.len() == size - from,
        forall|k: int|
            0 <= k < lines_spec(tail).len() ==> trim_spec(lines_spec(tail)[k]).len() == 0
                || message_of(trim_spec(lines_spec(tail)[k])) is Some,
    ensures
        next_offset_spec(tail, from, size) == size,
{
    lemma_stream_used_full(lines_spec(tail));
    crate::framing::lemma_consumed_ge_len(tail);
}

/// Reads the tail of a transcript file, handed the bytes from the start
/// offset to the end, together with the file size seen by the call.
pub fn read_stream_tail(tail: &Vec<u8>, from_offset: u64, file_size: u64) -> (r: StreamResult)
    requires
        from_offset < file_size,
        file_size <= 0x7fff_ffff_ffff_ffff,
        tail@.len() == file_size - from_offset,
    ensures
        views_of(r.messages@) == stream_msgs(lines_spec(tail@)),
        r.next_offset == next_offset_spec(tail@, from_offset, file_size),
        from_offset <= r.next_offset <= file_size,
{
    let lines = split_lines(tail);
    let ghost all = lines.deep_view();
    let mut out: Vec<ConversationMessage> = Vec::new();
    let mut consumed: u64 = 0;
    let n = lines.len();
    let mut i: usize = 0;
    proof {
        lemma_stream_used_le(all);
        lemma_consumed_le_len(tail@);
        assert(all.skip(0) =~= all);
        assert(views_of(out@) =~= Seq::<ConversationMessageV>::empty());
    }
    while i < n
        invariant
            n == lines@.len(),
            0 <= i <= n,
            from_offset < file_size,
            file_size <= 0x7fff_ffff_ffff_ffff,
            tail@.len() == file_size - from_offset,
            all == lines.deep_view(),
            all == lines_spec(tail@),
            stream_used(all) <= tail@.len() + 1,
            views_of(out@) + stream_msgs(all.skip(i as int)) == stream_msgs(all),
            consumed + stream_used(all.skip(i as int)) == stream_used(all),
        decreases n - i,
    {
        let ghost rest = all.skip(i as int);
        proof {
            assert(rest.len() == n - i);
            assert(rest[0] =~= lines@[i as int]@);
            assert(rest.drop_first() =~= all.skip(i + 1));
        }
        let line_len = lines[i].len();
        let t = trim_bytes(lines[i].as_slice());
        if t.len() == 0 {
            proof {
                assert(stream_msgs(rest) == stream_msgs(rest.drop_first()));
                assert(stream_used(rest) == rest[0].len() + 1 + stream_used(rest.drop_first()));
            }
            consumed = consumed + line_len as u64 + 1;
            i += 1;
        } else {
            match parse_message_line(t.as_slice()) {
                None => {
                    proof {
                        assert(message_of(trim_spec(rest[0])) is None);
                        assert(stream_msgs(rest) =~= Seq::<ConversationMessageV>::empty());
                        assert(stream_used(rest) == 0);
                        assert(views_of(out@) + stream_msgs(rest) =~= views_of(out@));
                    }
                    let remaining = file_size - from_offset;
                    let next: u64 = if consumed >= remaining {
                        file_size
                    } else {
                        from_offset + consumed
                    };
                    return StreamResult { messages: out, next_offset: next };
                },
                Some(m) => {
                    proof {
                        assert(message_of(trim_spec(rest[0])) == Some(m@));
                        assert(stream_used(rest) == rest[0].len() + 1 + stream_used(
                            rest.drop_first(),
                        ));
                    }
                    let keep = str_eq(m.msg_type.as_str(), "user") || str_eq(
                        m.msg_type.as_str(),
                        "assistant",
                    );
                    if keep {
                        let ghost old_out = out@;
                        out.push(m);
                        proof {
                            assert(stream_msgs(rest) == seq![m@] + stream_msgs(
                                rest.drop_first(),
                            ));
                            assert(views_of(out@) =~= views_of(old_out).push(m@));
                            assert(views_of(old_out).push(m@) + stream_msgs(rest.drop_first())
                                =~= views_of(old_out) + stream_msgs(rest));
                        }
                    } else {
                        proof {
                            assert(stream_msgs(rest) == stream_msgs(rest.drop_first()));
                        }
                    }
                    consumed = consumed + line_len as u64 + 1;
                    i += 1;
                },
            }
        }
    }
    proof {
        assert(all.skip(n as int).len() == 0);
        assert(stream_msgs(all.skip(n as int)) =~= Seq::<ConversationMessageV>::empty());
        assert(views_of(out@) + stream_msgs(all.skip(n as int)) =~= views_of(out@));
    }
    let remaining = file_size - from_offset;
    let next: u64 = if consumed >= remaining {
        file_size
    } else {
        from_offset + consumed
    };
    StreamResult { messages: out, next_offset: next }
}

/// What the caller found on disk for an incremental read.
pub enum StreamSource {
    /// No transcript file was found for the session.
    Missing,
    /// The file exists but its size could not be read.
    Unreadable,
    /// The file's size, and its bytes from the start offset on.
    Ready { file_size: u64, tail: Vec<u8> },
}

/// An incremental read: a missing file resets the offset to zero, an
/// unreadable one leaves it unchanged, an offset at or past the end
/// yields nothing, and otherwise the tail is consumed line by line.
pub fn get_conversation_stream(src: StreamSource, from_offset: u64) -> (r: StreamResult)
    requires
        src matches StreamSource::Ready { file_size, tail } ==> file_size
            <= 0x7fff_ffff_ffff_ffff && (from_offset < file_size ==> tail@.len() == file_size
            - from_offset),
    ensures
        match src {
            StreamSource::Missing => r.messages@.len() == 0 && r.next_offset == 0,
            StreamSource::Unreadable => r.messages@.len() == 0 && r.next_offset == from_offset,
            StreamSource::Ready { file_size, tail } => if from_offset >= file_size {
                r.messages@.len() == 0 && r.next_offset == from_offset
            } else {
                views_of(r.messages@) == stream_msgs(lines_spec(tail@)) && r.next_offset
                    == next_offset_spec(tail@, from_offset, file_size) && from_offset
                    <= r.next_offset <= file_size
            },
        },
{
    match src {
        StreamSource::Missing => StreamResult { messages: Vec::new(), next_offset: 0 },
        StreamSource::Unreadable => StreamResult {
            messages: Vec::new(),
            next_offset: from_offset,
        },
        StreamSource::Ready { file_size, tail } => {
            if from_offset >= file_size {
                StreamResult { messages: Vec::new(), next_offset: from_offset }
            } else {
                read_stream_tail(&tail, from_offset, file_size)
            }
        },
    }
}

} // verus!
