//! Byte-sequence helpers shared by the parser and the emitter.
//!
//! All protocol data in this library is a sequence of bytes; string literals
//! only enter through [`push_str`], which pins their byte view down.
use vstd::prelude::*;

verus! {

/// The bytes of an ASCII character sequence, one byte per character.
pub open spec fn bytes_of(s: Seq<char>) -> Seq<u8> {
    Seq::new(s.len(), |i: int| s[i] as u8)
}

/// True when every byte is ASCII (below 128).
pub open spec fn is_ascii_bytes(s: Seq<u8>) -> bool {
    forall|i: int| 0 <= i < s.len() ==> s[i] < 128
}

/// ASCII lowercase of one byte: letters `A`..`Z` map to `a`..`z`.
pub open spec fn lower_byte(b: u8) -> u8 {
    if 65 <= b <= 90 {
        (b + 32) as u8
    } else {
        b
    }
}

/// ASCII lowercase of a byte sequence.
pub open spec fn lower(s: Seq<u8>) -> Seq<u8> {
    s.map(|i: int, b: u8| lower_byte(b))
}

/// True when `needle` occurs as a contiguous run inside `haystack`.
pub open spec fn contains_seq(haystack: Seq<u8>, needle: Seq<u8>) -> bool {
    exists|i: int|
        0 <= i && i + needle.len() <= haystack.len() && #[trigger] haystack.subrange(
            i,
            i + needle.len() as int,
        ) == needle
}

/// True for the bytes the parser treats as blank space around tokens.
pub open spec fn is_ws(b: u8) -> bool {
    b == 32 || b == 9 || b == 13 || b == 10
}

/// `s` without its leading blank space.
pub open spec fn trim_front(s: Seq<u8>) -> Seq<u8>
    decreases s.len(),
{
    if s.len() > 0 && is_ws(s[0]) {
        trim_front(s.drop_first())
    } else {
        s
    }
}

/// `s` without its trailing blank space.
pub open spec fn trim_back(s: Seq<u8>) -> Seq<u8>
    decreases s.len(),
{
    if s.len() > 0 && is_ws(s.last()) {
        trim_back(s.drop_last())
    } else {
        s
    }
}

/// `s` without leading and trailing blank space.
pub open spec fn trim(s: Seq<u8>) -> Seq<u8> {
    trim_back(trim_front(s))
}

/// Appends the bytes of an ASCII string literal to `out`.
pub fn push_str(out: &mut Vec<u8>, s: &str)
    requires
        s.is_ascii(),
    ensures
        final(out)@ == old(out)@ + bytes_of(s@),
{
    broadcast use vstd::string::is_ascii_spec_bytes;

    let bs = s.as_bytes();
    out.extend_from_slice(bs);
    assert(out@ =~= old(out)@ + bytes_of(s@));
}

/// The bytes of an ASCII string literal as a fresh vector.
pub fn str_bytes(s: &str) -> (r: Vec<u8>)
    requires
        s.is_ascii(),
    ensures
        r@ == bytes_of(s@),
{
    let mut out: Vec<u8> = Vec::new();
    push_str(&mut out, s);
    out
}

/// ASCII lowercase of one byte.
pub fn lower_byte_exec(b: u8) -> (r: u8)
    ensures
        r == lower_byte(b),
{
    if 65 <= b && b <= 90 {
        b + 32
    } else {
        b
    }
}

/// ASCII lowercase of a byte vector.
pub fn to_lower_vec(v: &Vec<u8>) -> (r: Vec<u8>)
    ensures
        r@ == lower(v@),
{
    let mut out: Vec<u8> = Vec::new();
    let mut i: usize = 0;
    while i < v.len()
        invariant
            i <= v.len(),
            out@ == lower(v@.subrange(0, i as int)),
        decreases v.len() - i,
    {
        out.push(lower_byte_exec(v[i]));
        assert(lower(v@.subrange(0, i + 1 as int)) =~= lower(v@.subrange(0, i as int)).push(
            lower_byte(v@[i as int]),
        ));
        i = i + 1;
    }
    assert(v@.subrange(0, v@.len() as int) =~= v@);
    out
}

/// True when the two byte strings are equal up to ASCII case.
pub fn eq_ignore_case(a: &Vec<u8>, b: &Vec<u8>) -> (r: bool)
    ensures
        r == (lower(a@) == lower(b@)),
{
    if a.len() != b.len() {
        assert(lower(a@).len() != lower(b@).len());
        return false;
    }
    let mut i: usize = 0;
    while i < a.len()
        invariant
            i <= a.len(),
            a.len() == b.len(),
            forall|j: int| 0 <= j < i ==> lower_byte(a@[j]) == lower_byte(b@[j]),
        decreases a.len() - i,
    {
        if lower_byte_exec(a[i]) != lower_byte_exec(b[i]) {
            assert(lower(a@)[i as int] != lower(b@)[i as int]);
            return false;
        }
        i = i + 1;
    }
    assert(lower(a@) =~= lower(b@));
    true
}

/// True when `needle` occurs as a contiguous run inside `haystack`.
pub fn contains(haystack: &Vec<u8>, needle: &Vec<u8>) -> (r: bool)
    ensures
        r == contains_seq(haystack@, needle@),
{
    let n = needle.len();
    let h = haystack.len();
    if n > h {
        assert(!contains_seq(haystack@, needle@));
        return false;
    }
    let mut i: usize = 0;
    while i <= h - n
        invariant
            n <= h,
            h == haystack@.len(),
            n == needle@.len(),
            i <= h - n + 1,
            forall|k: int|
                0 <= k < i ==> #[trigger] haystack@.subrange(k, k + needle@.len() as int)
                    != needle@,
        decreases h - i,
    {
        let mut j: usize = 0;
        let mut matched = true;
        while j < n
            invariant
                matched ==> forall|t: int| 0 <= t < j ==> haystack@[i + t] == needle@[t],
                i + n <= h,
                h == haystack@.len(),
                n == needle@.len(),
                j <= n,
                !matched ==> exists|t: int| 0 <= t < n && haystack@[i + t] != needle@[t],
            decreases n - j,
        {
            if haystack[i + j] != needle[j] {
                matched = false;
                assert(haystack@[i + j] != needle@[j as int]);
                j = n;
            } else {
                j = j + 1;
            }
        }
        if matched {
            assert(haystack@.subrange(i as int, i + needle@.len() as int) =~= needle@);
            return true;
        }
        proof {
            let t = choose|t: int| 0 <= t < n && haystack@[i + t] != needle@[t];
            assert(haystack@.subrange(i as int, i + needle@.len() as int)[t] == haystack@[i + t]);
            assert(haystack@.subrange(i as int, i + needle@.len() as int) != needle@);
        }
        i = i + 1;
    }
    assert forall|k: int| 0 <= k && k + needle@.len() <= haystack@.len() implies #[trigger] haystack@.subrange(
        k,
        k + needle@.len() as int,
    ) != needle@ by {
        assert(k < i);
    }
    false
}

/// True for the bytes the parser treats as blank space.
pub fn is_ws_exec(b: u8) -> (r: bool)
    ensures
        r == is_ws(b),
{
    b == 32 || b == 9 || b == 13 || b == 10
}

pub proof fn lemma_trim_front_range(s: Seq<u8>, i: int)
    requires
        0 <= i <= s.len(),
        forall|k: int| 0 <= k < i ==> is_ws(s[k]),
        i < s.len() ==> !is_ws(s[i]),
    ensures
        trim_front(s) == s.subrange(i, s.len() as int),
    decreases i,
{
    if i == 0 {
        if s.len() > 0 && is_ws(s[0]) {
            assert(false);
        }
        assert(s.subrange(0, s.len() as int) =~= s);
    } else {
        let s2 = s.drop_first();
        assert(s2 =~= s.subrange(1, s.len() as int));
        lemma_trim_front_range(s2, i - 1);
        assert(s2.subrange(i - 1, s2.len() as int) =~= s.subrange(i, s.len() as int));
    }
}

proof fn lemma_trim_back_range(s: Seq<u8>, j: int)
    requires
        0 <= j <= s.len(),
        forall|k: int| j <= k < s.len() ==> is_ws(s[k]),
        j > 0 ==> !is_ws(s[j - 1]),
    ensures
        trim_back(s) == s.subrange(0, j),
    decreases s.len() - j,
{
    if j == s.len() {
        if s.len() > 0 && is_ws(s.last()) {
            assert(false);
        }
        assert(s.subrange(0, s.len() as int) =~= s);
    } else {
        let s2 = s.drop_last();
        assert(s2 =~= s.subrange(0, s.len() - 1));
        lemma_trim_back_range(s2, j);
        assert(s2.subrange(0, j) =~= s.subrange(0, j));
    }
}

/// A copy of `v` without leading and trailing blank space.
pub fn trim_vec(v: &Vec<u8>) -> (r: Vec<u8>)
    ensures
        r@ == trim(v@),
{
    let len = v.len();
    let mut i: usize = 0;
    while i < len && is_ws_exec(v[i])
        invariant
            i <= len,
            len == v@.len(),
            forall|k: int| 0 <= k < i ==> is_ws(v@[k]),
        decreases len - i,
    {
        i = i + 1;
    }
    let mut j: usize = len;
    while j > i && is_ws_exec(v[j - 1])
        invariant
            i <= j <= len,
            len == v@.len(),
            forall|k: int| j <= k < len ==> is_ws(v@[k]),
        decreases j,
    {
        j = j - 1;
    }
    let mut out: Vec<u8> = Vec::new();
    let mut k: usize = i;
    while k < j
        invariant
            i <= k <= j <= len,
            len == v@.len(),
            out@ == v@.subrange(i as int, k as int),
        decreases j - k,
    {
        out.push(v[k]);
        assert(v@.subrange(i as int, k + 1 as int) =~= v@.subrange(i as int, k as int).push(
            v@[k as int],
        ));
        k = k + 1;
    }
    proof {
        lemma_trim_front_range(v@, i as int);
        let s1 = v@.subrange(i as int, len as int);
        if j == i {
            lemma_trim_back_range(s1, 0);
        } else {
            lemma_trim_back_range(s1, j - i);
        }
        assert(s1.subrange(0, j - i) =~= v@.subrange(i as int, j as int));
    }
    out
}

/// The position of the first `b` in `v` at or after `from`.
pub fn find_byte(v: &Vec<u8>, b: u8, from: usize) -> (r: Option<usize>)
    requires
        from <= v@.len(),
    ensures
        match r {
            Some(i) => from <= i < v@.len() && v@[i as int] == b && forall|k: int|
                from <= k < i ==> v@[k] != b,
            None => forall|k: int| from <= k < v@.len() ==> v@[k] != b,
        },
{
    let mut i: usize = from;
    while i < v.len()
        invariant
            from <= i <= v@.len(),
            forall|k: int| from <= k < i ==> v@[k] != b,
        decreases v@.len() - i,
    {
        if v[i] == b {
            return Some(i);
        }
        i = i + 1;
    }
    None
}

/// The bytes of `v` from `from` (inclusive) to `to` (exclusive).
pub fn sub_vec(v: &Vec<u8>, from: usize, to: usize) -> (r: Vec<u8>)
    requires
        from <= to <= v@.len(),
    ensures
        r@ == v@.subrange(from as int, to as int),
{
    let mut out: Vec<u8> = Vec::new();
    let mut k: usize = from;
    while k < to
        invariant
            from <= k <= to <= v@.len(),
            out@ == v@.subrange(from as int, k as int),
        decreases to - k,
    {
        out.push(v[k]);
        assert(v@.subrange(from as int, k + 1 as int) =~= v@.subrange(from as int, k as int).push(
            v@[k as int],
        ));
        k = k + 1;
    }
    out
}


/// True when every byte of `v` is ASCII.
pub fn is_ascii_vec(v: &Vec<u8>) -> (r: bool)
    ensures
        r == is_ascii_bytes(v@),
{
    let mut i: usize = 0;
    while i < v.len()
        invariant
            i <= v@.len(),
            forall|k: int| 0 <= k < i ==> v@[k] < 128,
        decreases v@.len() - i,
    {
        if v[i] >= 128 {
            assert(!is_ascii_bytes(v@));
            return false;
        }
        i = i + 1;
    }
    true
}

/// The position of the first `b` in `s`.
pub open spec fn find(s: Seq<u8>, b: u8) -> Option<int>
    decreases s.len(),
{
    if s.len() == 0 {
        None
    } else if s[0] == b {
        Some(0)
    } else {
        match find(s.drop_first(), b) {
            None => None,
            Some(j) => Some(j + 1),
        }
    }
}

/// `find` names exactly the first occurrence.
pub proof fn lemma_find_at(s: Seq<u8>, b: u8, i: int)
    requires
        0 <= i < s.len(),
        s[i] == b,
        forall|k: int| 0 <= k < i ==> s[k] != b,
    ensures
        find(s, b) == Some(i),
    decreases s.len(),
{
    if i > 0 {
        lemma_find_at(s.drop_first(), b, i - 1);
    }
}

/// Without an occurrence there is nothing for `find` to name.
pub proof fn lemma_find_none(s: Seq<u8>, b: u8)
    requires
        forall|k: int| 0 <= k < s.len() ==> s[k] != b,
    ensures
        find(s, b) is None,
    decreases s.len(),
{
    if s.len() > 0 {
        lemma_find_none(s.drop_first(), b);
    }
}

/// The position of the first `b` in `v`, against the [`find`] spec.
pub fn find_first(v: &Vec<u8>, b: u8) -> (r: Option<usize>)
    ensures
        match r {
            Some(i) => i < v@.len() && find(v@, b) == Some(i as int),
            None => find(v@, b) is None,
        },
{
    let r = find_byte(v, b, 0);
    proof {
        match r {
            Some(i) => {
                lemma_find_at(v@, b, i as int);
            },
            None => {
                lemma_find_none(v@, b);
            },
        }
    }
    r
}

/// A copy of `v` without its leading blank space.
pub fn trim_front_vec(v: &Vec<u8>) -> (r: Vec<u8>)
    ensures
        r@ == trim_front(v@),
{
    let len = v.len();
    let mut i: usize = 0;
    while i < len && is_ws_exec(v[i])
        invariant
            i <= len,
            len == v@.len(),
            forall|k: int| 0 <= k < i ==> is_ws(v@[k]),
        decreases len - i,
    {
        i = i + 1;
    }
    proof {
        lemma_trim_front_range(v@, i as int);
    }
    sub_vec(v, i, len)
}


} // verus!
