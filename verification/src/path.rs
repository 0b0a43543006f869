//! Path splitting: trailing separators are stripped, then the path is
//! split at its last separator into the containing directory's path
//! and the leaf name.

use vstd::prelude::*;

verus! {

/// The path separator byte.
pub const SEP: u8 = 47;

/// The dot byte, standing for "this directory".
pub const DOT: u8 = 46;

/// The length of `s` once trailing separators are stripped.
pub open spec fn trim_len(s: Seq<u8>) -> int
    decreases s.len(),
{
    if s.len() == 0 {
        0
    } else if s.last() == SEP {
        trim_len(s.drop_last())
    } else {
        s.len() as int
    }
}

/// The index of the last separator of `s`, or -1 when there is none.
pub open spec fn split_pos(s: Seq<u8>) -> int
    decreases s.len(),
{
    if s.len() == 0 {
        -1
    } else if s.last() == SEP {
        s.len() - 1
    } else {
        split_pos(s.drop_last())
    }
}

/// The path with trailing separators stripped.
pub open spec fn trimmed(s: Seq<u8>) -> Seq<u8> {
    s.subrange(0, trim_len(s))
}

/// The leaf name: what follows the last separator of the trimmed path.
pub open spec fn name_part(s: Seq<u8>) -> Seq<u8> {
    trimmed(s).subrange(split_pos(trimmed(s)) + 1, trim_len(s))
}

/// The containing directory's path: what precedes the last separator
/// of the trimmed path, or "." when there is no separator.
pub open spec fn dir_part(s: Seq<u8>) -> Seq<u8> {
    if split_pos(trimmed(s)) < 0 {
        seq![DOT]
    } else {
        trimmed(s).subrange(0, split_pos(trimmed(s)))
    }
}

/// What characterizes the trimmed length: everything after it is a
/// separator and it does not itself end in one.
pub proof fn lemma_trim_char(s: Seq<u8>, e: int)
    requires
        0 <= e <= s.len(),
        e == 0 || s[e - 1] != SEP,
        forall|m: int| e <= m < s.len() ==> s[m] == SEP,
    ensures
        trim_len(s) == e,
    decreases s.len(),
{
    if e == s.len() {
        if s.len() > 0 {
            assert(s.last() != SEP);
        }
    } else {
        assert(s.last() == SEP);
        assert(forall|m: int| e <= m < s.drop_last().len() ==> s.drop_last()[m] == s[m]);
        lemma_trim_char(s.drop_last(), e);
    }
}

/// What characterizes the last separator's position: a separator with
/// none after it, or no separator at all.
pub proof fn lemma_split_pos_char(s: Seq<u8>, k: int)
    requires
        -1 <= k < s.len(),
        k >= 0 ==> s[k] == SEP,
        forall|m: int| k < m < s.len() ==> s[m] != SEP,
    ensures
        split_pos(s) == k,
    decreases s.len(),
{
    if s.len() == 0 {
    } else if s.last() == SEP {
        assert(k == s.len() - 1);
    } else {
        assert(k < s.len() - 1);
        assert(forall|m: int| k < m < s.drop_last().len() ==> s.drop_last()[m] == s[m]);
        lemma_split_pos_char(s.drop_last(), k);
    }
}

/// Splits a path into (directory path, leaf name): trailing separators
/// are stripped first, then the split is at the last separator;
/// without one the directory is ".".
pub fn split_path(path: &[u8]) -> (r: (Vec<u8>, Vec<u8>))
    ensures
        r.0@ == dir_part(path@),
        r.1@ == name_part(path@),
{
    let n = path.len();
    let mut e: usize = n;
    while e > 0 && path[e - 1] == SEP
        invariant
            e <= n,
            n == path@.len(),
            forall|m: int| e <= m < n ==> path@[m] == SEP,
        decreases e,
    {
        e = e - 1;
    }
    proof {
        lemma_trim_char(path@, e as int);
    }
    let mut j: usize = 0;
    let mut slash: usize = 0;
    let mut found = false;
    while j < e
        invariant
            j <= e <= n,
            n == path@.len(),
            found ==> slash < j && path@[slash as int] == SEP && (forall|m: int|
                slash < m < j ==> path@[m] != SEP),
            !found ==> (forall|m: int| 0 <= m < j ==> path@[m] != SEP),
        decreases e - j,
    {
        if path[j] == SEP {
            slash = j;
            found = true;
        }
        j = j + 1;
    }
    proof {
        let t = trimmed(path@);
        assert(t.len() == e);
        assert(forall|m: int| 0 <= m < e ==> t[m] == path@[m]);
        if found {
            lemma_split_pos_char(t, slash as int);
        } else {
            lemma_split_pos_char(t, -1);
        }
    }
    let mut name: Vec<u8> = Vec::new();
    let start: usize = if found {
        slash + 1
    } else {
        0
    };
    let mut x: usize = start;
    while x < e
        invariant
            start <= x <= e <= n,
            n == path@.len(),
            name@.len() == x - start,
            forall|k: int| 0 <= k < name@.len() ==> name@[k] == path@[start + k],
        decreases e - x,
    {
        name.push(path[x]);
        x = x + 1;
    }
    let mut dir: Vec<u8> = Vec::new();
    if found {
        let mut y: usize = 0;
        while y < slash
            invariant
                y <= slash,
                slash < n,
                n == path@.len(),
                dir@.len() == y,
                forall|k: int| 0 <= k < dir@.len() ==> dir@[k] == path@[k],
            decreases slash - y,
        {
            dir.push(path[y]);
            y = y + 1;
        }
    } else {
        dir.push(DOT);
    }
    proof {
        assert(name@ =~= name_part(path@));
        assert(dir@ =~= dir_part(path@));
    }
    (dir, name)
}

} // verus!
