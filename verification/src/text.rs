//! Verified text helpers: project-path encoding, project names, transcript
//! file names, and lexicographic ordering of strings.

use vstd::prelude::*;

verus! {

/// Relies on `String::push`: appends exactly the given character.
pub assume_specification[ String::push ](s: &mut String, c: char)
    ensures
        final(s)@ == old(s)@.push(c),
;

/// True when every character of `s` is `/`.
pub open spec fn all_slashes(s: Seq<char>) -> bool {
    forall|i: int| 0 <= i < s.len() ==> s[i] == '/'
}

/// `s` with every trailing `/` removed.
pub open spec fn strip_trailing_slashes(s: Seq<char>) -> Seq<char>
    decreases s.len(),
{
    if s.len() == 0 || s.last() != '/' {
        s
    } else {
        strip_trailing_slashes(s.drop_last())
    }
}

/// The suffix of `s` after its last `/`, or `s` itself if it has none.
pub open spec fn suffix_after_slash(s: Seq<char>) -> Seq<char>
    decreases s.len(),
{
    if s.len() == 0 {
        s
    } else if s.last() == '/' {
        Seq::<char>::empty()
    } else {
        suffix_after_slash(s.drop_last()).push(s.last())
    }
}

/// Last non-empty `/`-separated segment of a project path, or the whole
/// string if it has no such segment.
pub open spec fn project_name_spec(s: Seq<char>) -> Seq<char> {
    if all_slashes(s) {
        s
    } else {
        suffix_after_slash(strip_trailing_slashes(s))
    }
}

/// How one character of a project path is encoded in a directory name.
pub open spec fn encode_char(c: char) -> char {
    if c == '/' || c == '.' {
        '-'
    } else {
        c
    }
}

/// A project path as it appears as a directory name: `/` and `.` become `-`.
pub open spec fn encode_spec(s: Seq<char>) -> Seq<char> {
    s.map_values(|c: char| encode_char(c))
}

proof fn lemma_strip_is_take(s: Seq<char>, e: int)
    requires
        0 <= e < s.len(),
        s[e] != '/',
        forall|k: int| e < k < s.len() ==> s[k] == '/',
    ensures
        strip_trailing_slashes(s) == s.take(e + 1),
    decreases s.len(),
{
    if e == s.len() - 1 {
        assert(s.take(e + 1) =~= s);
    } else {
        assert(s.last() == '/');
        lemma_strip_is_take(s.drop_last(), e);
        assert(s.drop_last().take(e + 1) =~= s.take(e + 1));
    }
}

proof fn lemma_suffix_is_skip(s: Seq<char>, j: int)
    requires
        -1 <= j < s.len(),
        j >= 0 ==> s[j] == '/',
        forall|k: int| j < k < s.len() ==> s[k] != '/',
    ensures
        suffix_after_slash(s) == s.skip(j + 1),
    decreases s.len(),
{
    if s.len() == 0 {
        assert(s.skip(0) =~= s);
    } else if s.last() == '/' {
        assert(j == s.len() - 1);
        assert(s.skip(j + 1) =~= Seq::<char>::empty());
    } else {
        lemma_suffix_is_skip(s.drop_last(), j);
        assert(s.drop_last().skip(j + 1).push(s.last()) =~= s.skip(j + 1));
    }
}

/// Character-by-character equality of two strings.
pub fn str_eq(a: &str, b: &str) -> (r: bool)
    ensures
        r == (a@ == b@),
{
    let n = a.unicode_len();
    if n != b.unicode_len() {
        assert(a@.len() != b@.len());
        return false;
    }
    let mut i: usize = 0;
    while i < n
        invariant
            n == a@.len(),
            n == b@.len(),
            0 <= i <= n,
            forall|k: int| 0 <= k < i ==> a@[k] == b@[k],
        decreases n - i,
    {
        if a.get_char(i) != b.get_char(i) {
            return false;
        }
        i += 1;
    }
    proof {
        assert(a@ =~= b@);
    }
    true
}

/// Derives the display name of a project from its path: the last non-empty
/// `/`-separated segment, or the whole path if there is none.
pub fn project_name(path: &str) -> (r: String)
    ensures
        r@ == project_name_spec(path@),
{
    let n = path.unicode_len();
    // Find the end of the last non-empty segment.
    let mut e: usize = n;
    while e > 0 && path.get_char(e - 1) == '/'
        invariant
            n == path@.len(),
            0 <= e <= n,
            forall|k: int| e <= k < n ==> path@[k] == '/',
        decreases e,
    {
        e -= 1;
    }
    if e == 0 {
        // Only slashes (or empty): the whole string is the name.
        let r = path.to_owned();
        proof {
            assert(all_slashes(path@));
        }
        return r;
    }
    // Find the start of that segment: the position after the last slash
    // before `e`.
    let mut cut: usize = e;
    while cut > 0 && path.get_char(cut - 1) != '/'
        invariant
            n == path@.len(),
            0 <= cut <= e <= n,
            forall|k: int| cut <= k < e ==> path@[k] != '/',
        decreases cut,
    {
        cut -= 1;
    }
    let r = path.substring_char(cut, e).to_owned();
    proof {
        lemma_strip_is_take(path@, e - 1);
        assert(forall|k: int| cut <= k < e ==> path@.take(e as int)[k] != '/');
        lemma_suffix_is_skip(path@.take(e as int), cut - 1);
        assert(path@.take(e as int).skip(cut as int) =~= path@.subrange(cut as int, e as int));
        assert(!all_slashes(path@));
    }
    r
}

/// Encodes a project path as its directory name: `/` and `.` become `-`.
pub fn encode_project_path(path: &str) -> (r: String)
    ensures
        r@ == encode_spec(path@),
{
    let n = path.unicode_len();
    let mut out = String::new();
    let mut i: usize = 0;
    while i < n
        invariant
            n == path@.len(),
            0 <= i <= n,
            out@ == encode_spec(path@.take(i as int)),
        decreases n - i,
    {
        let c = path.get_char(i);
        if c == '/' || c == '.' {
            out.push('-');
        } else {
            out.push(c);
        }
        proof {
            assert(encode_spec(path@.take(i + 1)) =~= encode_spec(path@.take(i as int)).push(
                encode_char(path@[i as int]),
            ));
        }
        i += 1;
    }
    proof {
        assert(path@.take(n as int) =~= path@);
    }
    out
}

/// The transcript file extension, as a character sequence.
pub open spec fn jsonl_suffix() -> Seq<char> {
    seq!['.', 'j', 's', 'o', 'n', 'l']
}

/// True when `s` ends with the transcript extension.
pub open spec fn ends_jsonl(s: Seq<char>) -> bool {
    s.len() >= 6 && s.skip(s.len() - 6) =~= jsonl_suffix()
}

/// The file name with the transcript extension removed.
pub open spec fn stem_spec(s: Seq<char>) -> Seq<char> {
    s.take(s.len() - 6)
}

/// The session id recorded by a transcript file name: the name with the
/// transcript extension stripped, or nothing for any other file.
pub fn transcript_stem(name: &str) -> (r: Option<String>)
    ensures
        r matches Some(stem) ==> ends_jsonl(name@) && stem@ == stem_spec(name@),
        r is None ==> !ends_jsonl(name@),
{
    let n = name.unicode_len();
    if n < 6 {
        return None;
    }
    let ok = name.get_char(n - 6) == '.' && name.get_char(n - 5) == 'j' && name.get_char(n - 4)
        == 's' && name.get_char(n - 3) == 'o' && name.get_char(n - 2) == 'n' && name.get_char(
        n - 1,
    ) == 'l';
    if !ok {
        proof {
            assert(!ends_jsonl(name@)) by {
                if ends_jsonl(name@) {
                    assert(name@.skip(n - 6)[0] == name@[n - 6]);
                    assert(name@.skip(n - 6)[1] == name@[n - 5]);
                    assert(name@.skip(n - 6)[2] == name@[n - 4]);
                    assert(name@.skip(n - 6)[3] == name@[n - 3]);
                    assert(name@.skip(n - 6)[4] == name@[n - 2]);
                    assert(name@.skip(n - 6)[5] == name@[n - 1]);
                }
            }
        }
        return None;
    }
    let stem = name.substring_char(0, n - 6).to_owned();
    proof {
        assert(name@.skip(n - 6) =~= jsonl_suffix());
        assert(name@.subrange(0, n - 6) =~= stem_spec(name@));
    }
    Some(stem)
}

/// A file name without its final extension: everything before the last
/// `.`, unless the only `.` starts the name, in which case the whole
/// name stands.
pub open spec fn cut_ext(name: Seq<char>) -> Seq<char>
    decreases name.len(),
{
    if name.len() <= 1 {
        name
    } else if name.last() == '.' {
        name.drop_last()
    } else {
        let r = cut_ext(name.drop_last());
        if r == name.drop_last() {
            name
        } else {
            r
        }
    }
}

proof fn lemma_cut_ext_no_dot(name: Seq<char>)
    requires
        forall|t: int| 1 <= t < name.len() ==> name[t] != '.',
    ensures
        cut_ext(name) == name,
    decreases name.len(),
{
    if name.len() > 1 {
        assert(name.last() != '.');
        assert(forall|t: int|
            1 <= t < name.drop_last().len() ==> name.drop_last()[t] == name[t]);
        lemma_cut_ext_no_dot(name.drop_last());
    }
}

proof fn lemma_cut_ext_at(name: Seq<char>, k: int)
    requires
        1 <= k < name.len(),
        name[k] == '.',
        forall|t: int| k < t < name.len() ==> name[t] != '.',
    ensures
        cut_ext(name) == name.take(k),
    decreases name.len(),
{
    if k == name.len() - 1 {
        assert(name.last() == '.');
        assert(name.drop_last() =~= name.take(k));
    } else {
        assert(name.last() != '.');
        assert(forall|t: int|
            0 <= t < name.drop_last().len() ==> name.drop_last()[t] == name[t]);
        lemma_cut_ext_at(name.drop_last(), k);
        assert(name.drop_last().take(k) =~= name.take(k));
        assert(cut_ext(name.drop_last()).len() == k);
        assert(name.drop_last().len() == name.len() - 1);
        assert(cut_ext(name.drop_last()) != name.drop_last());
    }
}

/// The part of a path after its last `/`; a path ending in `/` has none.
pub fn file_name_part(path: &str) -> (r: String)
    ensures
        r@ == suffix_after_slash(path@),
{
    let n = path.unicode_len();
    let mut cut: usize = n;
    while cut > 0 && path.get_char(cut - 1) != '/'
        invariant
            n == path@.len(),
            0 <= cut <= n,
            forall|k: int| cut <= k < n ==> path@[k] != '/',
        decreases cut,
    {
        cut -= 1;
    }
    let r = path.substring_char(cut, n).to_owned();
    proof {
        lemma_suffix_is_skip(path@, cut - 1);
        assert(path@.subrange(cut as int, n as int) =~= path@.skip(cut as int));
    }
    r
}

/// A file name without its final extension, as the watcher derives a
/// session id from a transcript file name.
pub fn strip_extension(name: &str) -> (r: String)
    ensures
        r@ == cut_ext(name@),
{
    let n = name.unicode_len();
    if n <= 1 {
        return name.to_owned();
    }
    let mut k: usize = n;
    while k > 1 && name.get_char(k - 1) != '.'
        invariant
            n == name@.len(),
            1 <= k <= n,
            forall|t: int| k <= t < n ==> name@[t] != '.',
        decreases k,
    {
        k -= 1;
    }
    if k > 1 {
        // the last `.` past the front sits at k - 1
        let r = name.substring_char(0, k - 1).to_owned();
        proof {
            lemma_cut_ext_at(name@, k - 1);
            assert(name@.subrange(0, k - 1) =~= name@.take(k - 1));
        }
        r
    } else {
        // no `.` past the front: a leading one does not count
        proof {
            lemma_cut_ext_no_dot(name@);
        }
        name.to_owned()
    }
}

/// Strict lexicographic order on character sequences, by code point.
pub open spec fn lex_lt(a: Seq<char>, b: Seq<char>) -> bool
    decreases a.len(),
{
    if b.len() == 0 {
        false
    } else if a.len() == 0 {
        true
    } else if a[0] != b[0] {
        (a[0] as u32) < (b[0] as u32)
    } else {
        lex_lt(a.drop_first(), b.drop_first())
    }
}

/// Compares two strings in lexicographic code-point order, the order in
/// which project listings are returned.
pub fn str_lt(a: &str, b: &str) -> (r: bool)
    ensures
        r == lex_lt(a@, b@),
{
    let na = a.unicode_len();
    let nb = b.unicode_len();
    let mut i: usize = 0;
    proof {
        assert(a@.skip(0) =~= a@);
        assert(b@.skip(0) =~= b@);
    }
    loop
        invariant
            na == a@.len(),
            nb == b@.len(),
            0 <= i <= na,
            0 <= i <= nb,
            forall|k: int| 0 <= k < i ==> a@[k] == b@[k],
            lex_lt(a@, b@) == lex_lt(a@.skip(i as int), b@.skip(i as int)),
        decreases na - i,
    {
        if i == nb {
            proof {
                assert(b@.skip(i as int).len() == 0);
            }
            return false;
        }
        if i == na {
            proof {
                assert(a@.skip(i as int).len() == 0);
                assert(b@.skip(i as int).len() > 0);
            }
            return true;
        }
        let ca = a.get_char(i);
        let cb = b.get_char(i);
        proof {
            assert(a@.skip(i as int)[0] == a@[i as int]);
            assert(b@.skip(i as int)[0] == b@[i as int]);
            assert(a@.skip(i as int).drop_first() =~= a@.skip(i + 1));
            assert(b@.skip(i as int).drop_first() =~= b@.skip(i + 1));
        }
        if ca != cb {
            return (ca as u32) < (cb as u32);
        }
        i += 1;
    }
}

/// Joins two path segments with a single separator.
pub fn path_join(base: &str, name: &str) -> (r: String)
    ensures
        r@ == base@ + seq!['/'] + name@,
{
    let mut out = base.to_owned();
    out.push('/');
    out.append(name);
    proof {
        assert(base@.push('/') =~= base@ + seq!['/']);
    }
    out
}

} // verus!
