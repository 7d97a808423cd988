//! Byte-level helpers shared by the request parser and the target resolver:
//! ASCII whitespace, ASCII lowercasing, and trimming.

use vstd::prelude::*;

verus! {

/// ASCII whitespace: tab, line feed, vertical tab, form feed, carriage
/// return, and space.
pub open spec fn is_ws(b: u8) -> bool {
    b == 9 || b == 10 || b == 11 || b == 12 || b == 13 || b == 32
}

/// ASCII lowercasing of a single byte; bytes outside `A`..=`Z` are unchanged.
pub open spec fn to_lower(b: u8) -> u8 {
    if 65 <= b && b <= 90 {
        (b + 32) as u8
    } else {
        b
    }
}

/// ASCII lowercasing of a byte sequence.
pub open spec fn lower_seq(s: Seq<u8>) -> Seq<u8> {
    Seq::new(s.len(), |i: int| to_lower(s[i]))
}

/// Exec mirror of `is_ws`.
pub fn byte_is_ws(b: u8) -> (r: bool)
    ensures
        r == is_ws(b),
{
    b == 9 || b == 10 || b == 11 || b == 12 || b == 13 || b == 32
}

/// Exec mirror of `to_lower`.
pub fn byte_to_lower(b: u8) -> (r: u8)
    ensures
        r == to_lower(b),
{
    if 65 <= b && b <= 90 {
        b + 32
    } else {
        b
    }
}

/// Lowercases a byte string.
pub fn lower_bytes(s: &[u8]) -> (r: Vec<u8>)
    ensures
        r@ == lower_seq(s@),
{
    let mut out: Vec<u8> = Vec::new();
    let mut i: usize = 0;
    while i < s.len()
        invariant
            0 <= i <= s@.len(),
            out@ == lower_seq(s@.take(i as int)),
        decreases s@.len() - i,
    {
        out.push(byte_to_lower(s[i]));
        i = i + 1;
        proof {
            assert(out@ =~= lower_seq(s@.take(i as int)));
        }
    }
    proof {
        assert(s@.take(s@.len() as int) =~= s@);
    }
    out
}

/// Length of the run of ASCII whitespace in `s` starting at `from`.
pub open spec fn ws_run_len(s: Seq<u8>, from: int) -> nat
    decreases s.len() - from,
{
    if from < 0 || from >= s.len() || !is_ws(s[from]) {
        0
    } else {
        1 + ws_run_len(s, from + 1)
    }
}

/// Length of the run of ASCII whitespace at the end of `s`.
pub open spec fn ws_suffix_len(s: Seq<u8>) -> nat
    decreases s.len(),
{
    if s.len() > 0 && is_ws(s.last()) {
        1 + ws_suffix_len(s.drop_last())
    } else {
        0
    }
}

/// `s` with leading and trailing ASCII whitespace removed.
pub open spec fn trim_seq(s: Seq<u8>) -> Seq<u8> {
    let rest = s.skip(ws_run_len(s, 0) as int);
    rest.take(rest.len() - ws_suffix_len(rest))
}

/// Trims leading and trailing ASCII whitespace from a byte string.
pub fn trim_bytes(s: &[u8]) -> (r: Vec<u8>)
    ensures
        r@ == trim_seq(s@),
{
    let n = s.len();
    let mut lo: usize = 0;
    while lo < n && byte_is_ws(s[lo])
        invariant
            n == s@.len(),
            0 <= lo <= n,
            ws_run_len(s@, 0) == lo + ws_run_len(s@, lo as int),
        decreases n - lo,
    {
        lo = lo + 1;
    }
    proof {
        assert(ws_run_len(s@, lo as int) == 0);
        assert(ws_run_len(s@, 0) == lo);
    }
    let ghost rest = s@.skip(lo as int);
    proof {
        assert(rest.take(n - lo) =~= rest);
    }
    let mut hi: usize = n;
    while hi > lo && byte_is_ws(s[hi - 1])
        invariant
            n == s@.len(),
            0 <= lo <= hi <= n,
            rest == s@.skip(lo as int),
            ws_suffix_len(rest) == (n - hi) + ws_suffix_len(rest.take(hi - lo)),
        decreases hi,
    {
        proof {
            let cur = rest.take(hi - lo);
            assert(cur.last() == s@[hi - 1]);
            assert(cur.drop_last() =~= rest.take(hi - 1 - lo));
        }
        hi = hi - 1;
    }
    proof {
        let cur = rest.take(hi - lo);
        if hi > lo {
            assert(cur.last() == s@[hi - 1]);
            assert(ws_suffix_len(cur) == 0);
        } else {
            assert(cur =~= Seq::<u8>::empty());
            assert(ws_suffix_len(cur) == 0);
        }
        assert(ws_suffix_len(rest) == n - hi);
        assert(rest.take(rest.len() - ws_suffix_len(rest)) =~= s@.subrange(lo as int, hi as int));
    }
    vstd::slice::slice_to_vec(slice_subrange(s, lo, hi))
}

/// Reads the subslice `s[from..to]`.
pub fn slice_subrange(s: &[u8], from: usize, to: usize) -> (r: &[u8])
    requires
        0 <= from <= to <= s@.len(),
    ensures
        r@ == s@.subrange(from as int, to as int),
{
    &s[from..to]
}

/// Byte-string equality.
pub fn bytes_eq(a: &[u8], b: &[u8]) -> (r: bool)
    ensures
        r <==> a@ == b@,
{
    if a.len() != b.len() {
        return false;
    }
    let n = a.len();
    let mut i: usize = 0;
    while i < n
        invariant
            n == a@.len() == b@.len(),
            0 <= i <= n,
            forall|j: int| 0 <= j < i ==> a@[j] == b@[j],
        decreases n - i,
    {
        if a[i] != b[i] {
            return false;
        }
        i = i + 1;
    }
    proof {
        assert(a@ =~= b@);
    }
    true
}

/// Lowercasing changes no byte's whitespace-ness, so a whitespace run is
/// unchanged by it.
pub proof fn lemma_ws_run_len_lower(s: Seq<u8>, from: int)
    ensures
        ws_run_len(lower_seq(s), from) == ws_run_len(s, from),
    decreases s.len() - from,
{
    if 0 <= from < s.len() {
        lemma_ws_run_len_lower(s, from + 1);
    }
}

/// As above, for the trailing whitespace run.
pub proof fn lemma_ws_suffix_len_lower(s: Seq<u8>)
    ensures
        ws_suffix_len(lower_seq(s)) == ws_suffix_len(s),
    decreases s.len(),
{
    if s.len() > 0 {
        assert(lower_seq(s).drop_last() =~= lower_seq(s.drop_last()));
        lemma_ws_suffix_len_lower(s.drop_last());
    }
}

/// A whitespace run never reaches past the end of `s`.
pub proof fn lemma_ws_run_len_bound(s: Seq<u8>, from: int)
    requires
        0 <= from <= s.len(),
    ensures
        ws_run_len(s, from) <= s.len() - from,
    decreases s.len() - from,
{
    if from < s.len() && is_ws(s[from]) {
        lemma_ws_run_len_bound(s, from + 1);
    }
}

/// A trailing whitespace run is at most the whole of `s`.
pub proof fn lemma_ws_suffix_len_bound(s: Seq<u8>)
    ensures
        ws_suffix_len(s) <= s.len(),
    decreases s.len(),
{
    if s.len() > 0 && is_ws(s.last()) {
        lemma_ws_suffix_len_bound(s.drop_last());
    }
}

/// Trimming and lowercasing commute.
pub proof fn lemma_trim_lower(s: Seq<u8>)
    ensures
        trim_seq(lower_seq(s)) == lower_seq(trim_seq(s)),
{
    lemma_ws_run_len_lower(s, 0);
    lemma_ws_run_len_bound(s, 0);
    lemma_ws_suffix_len_bound(s.skip(ws_run_len(s, 0) as int));
    let a = ws_run_len(s, 0) as int;
    assert(lower_seq(s).skip(a) =~= lower_seq(s.skip(a)));
    lemma_ws_suffix_len_lower(s.skip(a));
    let rest = s.skip(a);
    let b = rest.len() - ws_suffix_len(rest);
    assert(lower_seq(rest).take(b) =~= lower_seq(rest.take(b)));
}

/// Lowercasing is idempotent.
pub proof fn lemma_lower_idempotent(s: Seq<u8>)
    ensures
        lower_seq(lower_seq(s)) == lower_seq(s),
{
    assert(lower_seq(lower_seq(s)) =~= lower_seq(s));
}

} // verus!
