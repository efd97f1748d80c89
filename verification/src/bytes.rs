//! Byte-string utilities shared by the parsing stages: whitespace trimming,
//! ASCII lowercasing, prefix tests, and locating the `:=` separator.

use vstd::prelude::*;

verus! {

/// The ASCII whitespace bytes that trimming removes: space, tab, line feed,
/// vertical tab, form feed, carriage return.
pub open spec fn is_space(b: u8) -> bool {
    b == 32 || b == 9 || b == 10 || b == 11 || b == 12 || b == 13
}

/// `s` with leading whitespace removed.
pub open spec fn trim_front(s: Seq<u8>) -> Seq<u8>
    decreases s.len(),
{
    if s.len() > 0 && is_space(s[0]) {
        trim_front(s.drop_first())
    } else {
        s
    }
}

/// `s` with trailing whitespace removed.
pub open spec fn trim_back(s: Seq<u8>) -> Seq<u8>
    decreases s.len(),
{
    if s.len() > 0 && is_space(s.last()) {
        trim_back(s.drop_last())
    } else {
        s
    }
}

/// `s` with leading and trailing whitespace removed.
pub open spec fn trim(s: Seq<u8>) -> Seq<u8> {
    trim_back(trim_front(s))
}

/// The ASCII lowercase of a single byte.
pub open spec fn lower(b: u8) -> u8 {
    if 65 <= b && b <= 90 {
        (b + 32) as u8
    } else {
        b
    }
}

/// The ASCII lowercase of a byte string.
pub open spec fn lower_seq(s: Seq<u8>) -> Seq<u8> {
    s.map_values(|b: u8| lower(b))
}

/// The two-byte assignment separator `:=` stands at index `i` of `s`.
pub open spec fn sep_at(s: Seq<u8>, i: int) -> bool {
    0 <= i && i + 2 <= s.len() && s[i] == 58 && s[i + 1] == 61
}

/// The index of the first `:=` in `s` at or after `i`, if any.
pub open spec fn find_sep_from(s: Seq<u8>, i: int) -> Option<int>
    decreases s.len() - i,
{
    if i < 0 || i + 2 > s.len() {
        None
    } else if s[i] == 58 && s[i + 1] == 61 {
        Some(i)
    } else {
        find_sep_from(s, i + 1)
    }
}

/// The index of the first `:=` in `s`, if any.
pub open spec fn find_sep(s: Seq<u8>) -> Option<int> {
    find_sep_from(s, 0)
}

/// If every byte before `i` is whitespace, trimming the front of `s` and of
/// its tail from `i` agree.
proof fn lemma_trim_front_skips(s: Seq<u8>, i: int)
    requires
        0 <= i <= s.len(),
        forall|j: int| 0 <= j < i ==> is_space(s[j]),
    ensures
        trim_front(s) == trim_front(s.subrange(i, s.len() as int)),
    decreases i,
{
    if i > 0 {
        assert(s.drop_first() =~= s.subrange(1, s.len() as int));
        lemma_trim_front_skips(s.drop_first(), i - 1);
        assert(s.drop_first().subrange(i - 1, s.drop_first().len() as int) =~= s.subrange(
            i,
            s.len() as int,
        ));
    } else {
        assert(s.subrange(0, s.len() as int) =~= s);
    }
}

/// A string that is empty or whose first byte is not whitespace is already
/// front-trimmed.
proof fn lemma_trim_front_fixed(s: Seq<u8>)
    requires
        s.len() == 0 || !is_space(s[0]),
    ensures
        trim_front(s) == s,
{
}

/// A string that is empty or whose last byte is not whitespace is already
/// back-trimmed.
proof fn lemma_trim_back_fixed(s: Seq<u8>)
    requires
        s.len() == 0 || !is_space(s.last()),
    ensures
        trim_back(s) == s,
{
}

/// If every byte at or after `i` is whitespace, trimming the back of `s`
/// and of its prefix up to `i` agree.
proof fn lemma_trim_back_skips(s: Seq<u8>, i: int)
    requires
        0 <= i <= s.len(),
        forall|j: int| i <= j < s.len() ==> is_space(s[j]),
    ensures
        trim_back(s) == trim_back(s.subrange(0, i)),
    decreases s.len() - i,
{
    if i < s.len() {
        assert(is_space(s[s.len() - 1]));
        assert(s.drop_last() =~= s.subrange(0, s.len() - 1));
        lemma_trim_back_skips(s.drop_last(), i);
        assert(s.drop_last().subrange(0, i) =~= s.subrange(0, i));
    } else {
        assert(s.subrange(0, s.len() as int) =~= s);
    }
}

/// Whether a byte is one of the whitespace bytes that trimming removes.
pub fn is_space_byte(b: u8) -> (r: bool)
    ensures
        r == is_space(b),
{
    b == 32 || b == 9 || b == 10 || b == 11 || b == 12 || b == 13
}

/// The trimmed copy of `s`: both ends stripped of ASCII whitespace.
pub fn trim_bytes(s: &[u8]) -> (r: Vec<u8>)
    ensures
        r@ == trim(s@),
{
    let n = s.len();
    let mut lo: usize = 0;
    while lo < n && is_space_byte(s[lo])
        invariant
            0 <= lo <= n,
            n == s@.len(),
            forall|j: int| 0 <= j < lo ==> is_space(s@[j]),
        decreases n - lo,
    {
        lo = lo + 1;
    }
    let ghost front = s@.subrange(lo as int, n as int);
    proof {
        lemma_trim_front_skips(s@, lo as int);
        if lo < n {
            assert(front[0] == s@[lo as int]);
            assert(!is_space(front[0]));
        }
        lemma_trim_front_fixed(front);
        assert(trim_front(s@) == front);
    }
    let mut hi: usize = n;
    while hi > lo && is_space_byte(s[hi - 1])
        invariant
            lo <= hi <= n,
            n == s@.len(),
            forall|j: int| hi <= j < n ==> is_space(s@[j]),
        decreases hi,
    {
        hi = hi - 1;
    }
    let ghost kept = front.subrange(0, hi - lo);
    proof {
        assert(forall|j: int| hi - lo <= j < front.len() ==> is_space(front[j]));
        lemma_trim_back_skips(front, hi - lo);
        if hi > lo {
            assert(kept.last() == s@[hi - 1]);
            assert(!is_space(kept.last()));
        }
        lemma_trim_back_fixed(kept);
        assert(trim(s@) == kept);
    }
    let mut r: Vec<u8> = Vec::new();
    let mut i: usize = lo;
    while i < hi
        invariant
            lo <= i <= hi <= n,
            n == s@.len(),
            r@ =~= s@.subrange(lo as int, i as int),
        decreases hi - i,
    {
        r.push(s[i]);
        proof {
            assert(r@ =~= s@.subrange(lo as int, i + 1));
        }
        i = i + 1;
    }
    proof {
        assert(r@ =~= kept);
    }
    r
}

/// The ASCII-lowercase copy of `s`.
pub fn lower_bytes(s: &[u8]) -> (r: Vec<u8>)
    ensures
        r@ == lower_seq(s@),
{
    let mut r: Vec<u8> = Vec::new();
    let mut i: usize = 0;
    while i < s.len()
        invariant
            0 <= i <= s@.len(),
            r@ =~= s@.subrange(0, i as int).map_values(|b: u8| lower(b)),
        decreases s@.len() - i,
    {
        let b = s[i];
        let lb = if 65 <= b && b <= 90 {
            b + 32
        } else {
            b
        };
        r.push(lb);
        proof {
            assert(s@.subrange(0, i + 1).map_values(|b: u8| lower(b)) =~= s@.subrange(
                0,
                i as int,
            ).map_values(|b: u8| lower(b)).push(lower(s@[i as int])));
        }
        i = i + 1;
    }
    proof {
        assert(s@.subrange(0, s@.len() as int) =~= s@);
    }
    r
}

/// Whether two byte strings hold the same bytes.
pub fn bytes_eq(a: &[u8], b: &[u8]) -> (r: bool)
    ensures
        r == (a@ == b@),
{
    if a.len() != b.len() {
        proof {
            assert(a@.len() != b@.len());
        }
        return false;
    }
    let mut i: usize = 0;
    while i < a.len()
        invariant
            0 <= i <= a@.len(),
            a@.len() == b@.len(),
            forall|j: int| 0 <= j < i ==> a@[j] == b@[j],
        decreases a@.len() - i,
    {
        if a[i] != b[i] {
            return false;
        }
        i = i + 1;
    }
    proof {
        assert(a@ =~= b@);
    }
    true
}

/// A copy of a slice of copyable elements.
pub fn copy_slice<T: Copy>(s: &[T]) -> (r: Vec<T>)
    ensures
        r@ == s@,
{
    let mut r: Vec<T> = Vec::new();
    let mut i: usize = 0;
    while i < s.len()
        invariant
            0 <= i <= s@.len(),
            r@ =~= s@.subrange(0, i as int),
        decreases s@.len() - i,
    {
        r.push(s[i]);
        proof {
            assert(r@ =~= s@.subrange(0, i + 1));
        }
        i = i + 1;
    }
    proof {
        assert(r@ =~= s@);
    }
    r
}

/// The index of the first `:=` in `s`, if any.
pub fn find_sep_bytes(s: &[u8]) -> (r: Option<usize>)
    ensures
        match r {
            Some(i) => find_sep(s@) == Some(i as int) && sep_at(s@, i as int),
            None => find_sep(s@) is None,
        },
{
    if s.len() < 2 {
        return None;
    }
    let mut i: usize = 0;
    while i <= s.len() - 2
        invariant
            s@.len() >= 2,
            0 <= i <= s@.len() - 1,
            find_sep(s@) == find_sep_from(s@, i as int),
        decreases s@.len() - i,
    {
        if s[i] == 58 && s[i + 1] == 61 {
            return Some(i);
        }
        i = i + 1;
    }
    None
}

} // verus!
