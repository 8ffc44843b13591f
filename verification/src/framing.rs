//! Newline framing of transcript and registry files, over raw bytes.
//!
//! A file is a sequence of lines separated by single `\n` bytes; the final
//! line needs no terminator.  Reading a line consumes its bytes plus one
//! for the terminator, which for an unterminated final line overcounts by
//! one; callers cap the total at the file size.

use vstd::prelude::*;

verus! {

/// Index of the first newline byte of `bytes`, or its length if none.
pub open spec fn first_nl(bytes: Seq<u8>) -> int
    decreases bytes.len(),
{
    if bytes.len() == 0 {
        0
    } else if bytes[0] == 10 {
        0
    } else {
        1 + first_nl(bytes.drop_first())
    }
}

/// The lines of `bytes`: split at `\n`, terminators dropped, no empty
/// final line for a trailing terminator.
pub open spec fn lines_spec(bytes: Seq<u8>) -> Seq<Seq<u8>>
    decreases bytes.len(),
    via lines_spec_decreases
{
    if bytes.len() == 0 {
        Seq::empty()
    } else {
        let i = first_nl(bytes);
        if i == bytes.len() {
            seq![bytes]
        } else {
            seq![bytes.take(i)] + lines_spec(bytes.skip(i + 1))
        }
    }
}

#[via_fn]
proof fn lines_spec_decreases(bytes: Seq<u8>) {
    lemma_first_nl_bounds(bytes);
}

/// Bytes consumed by reading the given lines: each line plus one
/// terminator byte.
pub open spec fn consumed_of(lines: Seq<Seq<u8>>) -> nat
    decreases lines.len(),
{
    if lines.len() == 0 {
        0
    } else {
        consumed_of(lines.drop_first()) + lines[0].len() + 1
    }
}

proof fn lemma_first_nl_bounds(bytes: Seq<u8>)
    ensures
        0 <= first_nl(bytes) <= bytes.len(),
        forall|k: int| 0 <= k < first_nl(bytes) ==> bytes[k] != 10,
        first_nl(bytes) < bytes.len() ==> bytes[first_nl(bytes)] == 10,
    decreases bytes.len(),
{
    if bytes.len() > 0 && bytes[0] != 10 {
        lemma_first_nl_bounds(bytes.drop_first());
        assert(forall|k: int|
            1 <= k < first_nl(bytes) ==> bytes[k] == bytes.drop_first()[k - 1]);
    }
}

proof fn lemma_first_nl_at(bytes: Seq<u8>, i: int)
    requires
        0 <= i <= bytes.len(),
        forall|k: int| 0 <= k < i ==> bytes[k] != 10,
        i < bytes.len() ==> bytes[i] == 10,
    ensures
        first_nl(bytes) == i,
    decreases i,
{
    if bytes.len() > 0 && i > 0 {
        assert(bytes[0] != 10);
        assert(forall|k: int| 0 <= k < i - 1 ==> bytes.drop_first()[k] == bytes[k + 1]);
        lemma_first_nl_at(bytes.drop_first(), i - 1);
    }
}

/// Reading every line of a file consumes at most one byte more than the
/// file holds.
pub proof fn lemma_consumed_le_len(bytes: Seq<u8>)
    ensures
        consumed_of(lines_spec(bytes)) <= bytes.len() + 1,
    decreases bytes.len(),
{
    if bytes.len() > 0 {
        let i = first_nl(bytes);
        lemma_first_nl_bounds(bytes);
        if i < bytes.len() {
            lemma_consumed_le_len(bytes.skip(i + 1));
            let tail = lines_spec(bytes.skip(i + 1));
            assert(lines_spec(bytes) == seq![bytes.take(i)] + tail);
            assert(lines_spec(bytes).drop_first() =~= tail);
            assert(lines_spec(bytes)[0] == bytes.take(i));
            assert(consumed_of(lines_spec(bytes)) == consumed_of(tail) + i + 1);
        } else {
            assert(lines_spec(bytes) == seq![bytes]);
            assert(lines_spec(bytes).drop_first() =~= Seq::<Seq<u8>>::empty());
            assert(consumed_of(Seq::<Seq<u8>>::empty()) == 0);
        }
    }
}

/// Reading every line of a file consumes at least the bytes the file
/// holds: each separator is counted with its line, and an unterminated
/// final line is counted one long.
pub proof fn lemma_consumed_ge_len(bytes: Seq<u8>)
    ensures
        consumed_of(lines_spec(bytes)) >= bytes.len(),
    decreases bytes.len(),
{
    if bytes.len() > 0 {
        let i = first_nl(bytes);
        lemma_first_nl_bounds(bytes);
        if i < bytes.len() {
            lemma_consumed_ge_len(bytes.skip(i + 1));
            let tail = lines_spec(bytes.skip(i + 1));
            assert(lines_spec(bytes) == seq![bytes.take(i)] + tail);
            assert(lines_spec(bytes).drop_first() =~= tail);
            assert(lines_spec(bytes)[0] == bytes.take(i));
            assert(consumed_of(lines_spec(bytes)) == consumed_of(tail) + i + 1);
        } else {
            assert(lines_spec(bytes) == seq![bytes]);
            assert(lines_spec(bytes).drop_first() =~= Seq::<Seq<u8>>::empty());
            assert(consumed_of(Seq::<Seq<u8>>::empty()) == 0);
        }
    }
}

/// True of a byte that line trimming removes.
pub open spec fn is_ws(b: u8) -> bool {
    b == 32 || b == 9 || b == 13 || b == 10
}

/// `s` without leading whitespace.
pub open spec fn trim_front(s: Seq<u8>) -> Seq<u8>
    decreases s.len(),
{
    if s.len() == 0 || !is_ws(s[0]) {
        s
    } else {
        trim_front(s.drop_first())
    }
}

/// `s` without trailing whitespace.
pub open spec fn trim_back(s: Seq<u8>) -> Seq<u8>
    decreases s.len(),
{
    if s.len() == 0 || !is_ws(s.last()) {
        s
    } else {
        trim_back(s.drop_last())
    }
}

/// `s` without leading and trailing whitespace.
pub open spec fn trim_spec(s: Seq<u8>) -> Seq<u8> {
    trim_back(trim_front(s))
}

proof fn lemma_trim_front_is_skip(s: Seq<u8>, a: int)
    requires
        0 <= a <= s.len(),
        forall|k: int| 0 <= k < a ==> is_ws(s[k]),
        a < s.len() ==> !is_ws(s[a]),
    ensures
        trim_front(s) == s.skip(a),
    decreases a,
{
    if a == 0 {
        assert(s.skip(0) =~= s);
    } else {
        assert(is_ws(s[0]));
        assert(forall|k: int| 0 <= k < a - 1 ==> s.drop_first()[k] == s[k + 1]);
        lemma_trim_front_is_skip(s.drop_first(), a - 1);
        assert(s.drop_first().skip(a - 1) =~= s.skip(a));
    }
}

proof fn lemma_trim_back_is_take(s: Seq<u8>, b: int)
    requires
        0 <= b <= s.len(),
        forall|k: int| b <= k < s.len() ==> is_ws(s[k]),
        b > 0 ==> !is_ws(s[b - 1]),
    ensures
        trim_back(s) == s.take(b),
    decreases s.len() - b,
{
    if b == s.len() {
        if s.len() == 0 || !is_ws(s.last()) {
            assert(s.take(b) =~= s);
        } else {
            assert(b > 0 && is_ws(s[b - 1]));
        }
    } else {
        assert(is_ws(s.last()));
        lemma_trim_back_is_take(s.drop_last(), b);
        assert(s.drop_last().take(b) =~= s.take(b));
    }
}

/// Copies `line` with surrounding whitespace removed.
pub fn trim_bytes(line: &[u8]) -> (r: Vec<u8>)
    ensures
        r@ == trim_spec(line@),
{
    let n = line.len();
    let mut a: usize = 0;
    while a < n && (line[a] == 32 || line[a] == 9 || line[a] == 13 || line[a] == 10)
        invariant
            n == line@.len(),
            0 <= a <= n,
            forall|k: int| 0 <= k < a ==> is_ws(line@[k]),
        decreases n - a,
    {
        a += 1;
    }
    let mut b: usize = n;
    while b > a && (line[b - 1] == 32 || line[b - 1] == 9 || line[b - 1] == 13 || line[b - 1]
        == 10)
        invariant
            n == line@.len(),
            0 <= a <= b <= n,
            forall|k: int| 0 <= k < a ==> is_ws(line@[k]),
            a < n ==> !is_ws(line@[a as int]),
            forall|k: int| b <= k < n ==> is_ws(line@[k]),
        decreases b,
    {
        b -= 1;
    }
    let mut out: Vec<u8> = Vec::new();
    let mut i: usize = a;
    while i < b
        invariant
            n == line@.len(),
            0 <= a <= i <= b <= n,
            out@ == line@.subrange(a as int, i as int),
        decreases b - i,
    {
        out.push(line[i]);
        proof {
            assert(line@.subrange(a as int, i + 1) =~= line@.subrange(a as int, i as int).push(
                line@[i as int],
            ));
        }
        i += 1;
    }
    proof {
        lemma_trim_front_is_skip(line@, a as int);
        if b == a {
            lemma_trim_back_is_take(line@.skip(a as int), 0);
        } else {
            assert(!is_ws(line@[b - 1]));
            assert(forall|k: int|
                b - a <= k < line@.skip(a as int).len() ==> line@.skip(a as int)[k] == line@[k
                    + a]);
            lemma_trim_back_is_take(line@.skip(a as int), b - a);
        }
        assert(line@.skip(a as int).take(b - a) =~= line@.subrange(a as int, b as int));
    }
    out
}

/// Splits a file into its lines.
pub fn split_lines(bytes: &Vec<u8>) -> (r: Vec<Vec<u8>>)
    ensures
        r.deep_view() == lines_spec(bytes@),
{
    let n = bytes.len();
    let mut r: Vec<Vec<u8>> = Vec::new();
    let mut pos: usize = 0;
    proof {
        assert(bytes@.skip(0) =~= bytes@);
        assert(r.deep_view() =~= Seq::<Seq<u8>>::empty());
        assert(r.deep_view() + lines_spec(bytes@) =~~= lines_spec(bytes@));
    }
    while pos < n
        invariant
            n == bytes@.len(),
            0 <= pos <= n,
            lines_spec(bytes@) == r.deep_view() + lines_spec(bytes@.skip(pos as int)),
        decreases n - pos,
    {
        let ghost rest = bytes@.skip(pos as int);
        // Scan for the next newline.
        let mut j: usize = pos;
        while j < n && bytes[j] != 10
            invariant
                n == bytes@.len(),
                pos <= j <= n,
                forall|k: int| pos <= k < j ==> bytes@[k] != 10,
            decreases n - j,
        {
            j += 1;
        }
        proof {
            assert(forall|k: int| 0 <= k < j - pos ==> rest[k] == bytes@[k + pos]);
            lemma_first_nl_at(rest, j - pos);
        }
        // Copy the line.
        let mut line: Vec<u8> = Vec::new();
        let mut i: usize = pos;
        while i < j
            invariant
                n == bytes@.len(),
                pos <= i <= j <= n,
                line@ == bytes@.subrange(pos as int, i as int),
            decreases j - i,
        {
            line.push(bytes[i]);
            proof {
                assert(bytes@.subrange(pos as int, i + 1) =~= bytes@.subrange(
                    pos as int,
                    i as int,
                ).push(bytes@[i as int]));
            }
            i += 1;
        }
        proof {
            assert(line@ =~= rest.take(j - pos));
        }
        let ghost old_deep = r.deep_view();
        r.push(line);
        proof {
            assert(r.deep_view() =~~= old_deep.push(rest.take(j - pos)));
        }
        if j == n {
            proof {
                assert(first_nl(rest) == rest.len());
                assert(rest.take(j - pos) =~= rest);
                assert(lines_spec(rest) == seq![rest]);
                assert(old_deep + lines_spec(rest) =~~= old_deep.push(rest.take(j - pos)));
                assert(bytes@.skip(n as int).len() == 0);
                assert(lines_spec(bytes@.skip(n as int)) =~= Seq::<Seq<u8>>::empty());
                assert(r.deep_view() + lines_spec(bytes@.skip(n as int)) =~~= r.deep_view());
            }
            pos = n;
        } else {
            proof {
                assert(first_nl(rest) == j - pos < rest.len());
                let tail = lines_spec(rest.skip(j - pos + 1));
                assert(lines_spec(rest) == seq![rest.take(j - pos)] + tail);
                assert(rest.skip(j - pos + 1) =~= bytes@.skip(j + 1));
                assert(old_deep + lines_spec(rest) =~~= old_deep.push(rest.take(j - pos))
                    + lines_spec(bytes@.skip(j + 1)));
            }
            pos = j + 1;
        }
    }
    proof {
        assert(bytes@.skip(n as int).len() == 0);
        assert(lines_spec(bytes@.skip(n as int)) =~= Seq::<Seq<u8>>::empty());
    }
    r
}

} // verus!
