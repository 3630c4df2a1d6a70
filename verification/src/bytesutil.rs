//! Byte-level helpers shared by the codec and the header model: searching,
//! prefix tests, ASCII trimming and decimal parsing, each against an exact
//! specification.

use vstd::prelude::*;

verus! {

use vstd::string::StringSliceAdditionalSpecFns;

/// ASCII whitespace, as `u8::is_ascii_whitespace` defines it: space,
/// horizontal tab, line feed, form feed, carriage return.
pub open spec fn is_ascii_ws(b: u8) -> bool {
    b == 32 || b == 9 || b == 10 || b == 12 || b == 13
}

/// Index of the first occurrence of `b` in `s` at or after `from`.
pub open spec fn find_byte(s: Seq<u8>, from: nat, b: u8) -> Option<nat>
    decreases s.len() - from,
{
    if from >= s.len() {
        None
    } else if s[from as int] == b {
        Some(from)
    } else {
        find_byte(s, from + 1, b)
    }
}

/// `p` is a prefix of `s`.
pub open spec fn is_prefix_of(p: Seq<u8>, s: Seq<u8>) -> bool {
    p.len() <= s.len() && s.subrange(0, p.len() as int) == p
}

/// `s` with leading ASCII whitespace removed.
pub open spec fn trim_start(s: Seq<u8>) -> Seq<u8>
    decreases s.len(),
{
    if s.len() > 0 && is_ascii_ws(s[0]) {
        trim_start(s.drop_first())
    } else {
        s
    }
}

/// `s` with trailing ASCII whitespace removed.
pub open spec fn trim_end(s: Seq<u8>) -> Seq<u8>
    decreases s.len(),
{
    if s.len() > 0 && is_ascii_ws(s.last()) {
        trim_end(s.drop_last())
    } else {
        s
    }
}

/// `s` with leading and trailing ASCII whitespace removed.
pub open spec fn trim_ascii(s: Seq<u8>) -> Seq<u8> {
    trim_end(trim_start(s))
}

/// The value of a sequence of ASCII decimal digits, most significant first.
pub open spec fn dec_val(s: Seq<u8>) -> int
    decreases s.len(),
{
    if s.len() == 0 {
        0
    } else {
        dec_val(s.drop_last()) * 10 + s.last() - 48
    }
}

pub open spec fn all_dec_digits(s: Seq<u8>) -> bool {
    forall|i: int| 0 <= i < s.len() ==> 48 <= #[trigger] s[i] <= 57
}

/// The digit part of a decimal text: an optional leading `+` is skipped.
pub open spec fn digits_part(s: Seq<u8>) -> Seq<u8> {
    if s.len() > 0 && s[0] == 43 {
        s.drop_first()
    } else {
        s
    }
}

/// The unsigned value a decimal text denotes, when it is well formed and
/// fits a `usize`; mirrors how the standard library reads an unsigned
/// integer (optional `+`, one or more digits, no overflow).
pub open spec fn parse_usize_spec(s: Seq<u8>) -> Option<int> {
    let d = digits_part(s);
    if d.len() > 0 && all_dec_digits(d) && dec_val(d) <= usize::MAX {
        Some(dec_val(d))
    } else {
        None
    }
}

pub proof fn lemma_dec_val_nonneg(s: Seq<u8>)
    requires
        all_dec_digits(s),
    ensures
        dec_val(s) >= 0,
    decreases s.len(),
{
    if s.len() > 0 {
        assert(all_dec_digits(s.drop_last()));
        lemma_dec_val_nonneg(s.drop_last());
    }
}

/// A digit prefix never denotes more than the whole digit string.
pub proof fn lemma_dec_val_prefix_le(s: Seq<u8>, j: int)
    requires
        all_dec_digits(s),
        0 <= j <= s.len(),
    ensures
        dec_val(s.take(j)) <= dec_val(s),
    decreases s.len() - j,
{
    if j == s.len() {
        assert(s.take(j) =~= s);
    } else {
        lemma_dec_val_prefix_le(s, j + 1);
        let t = s.take(j + 1);
        assert(t.drop_last() =~= s.take(j));
        assert(all_dec_digits(s.take(j)));
        lemma_dec_val_nonneg(s.take(j));
        assert(dec_val(t) == dec_val(s.take(j)) * 10 + t.last() - 48);
        assert(dec_val(s.take(j)) * 10 >= dec_val(s.take(j)));
    }
}

/// A found index lies in range, holds the byte, and nothing before it does.
pub proof fn lemma_find_byte_some(s: Seq<u8>, from: nat, b: u8)
    requires
        find_byte(s, from, b) is Some,
    ensures
        ({
            let i = find_byte(s, from, b)->0;
            &&& from <= i < s.len()
            &&& s[i as int] == b
            &&& forall|j: int| from <= j < i ==> s[j] != b
        }),
    decreases s.len() - from,
{
    if from < s.len() && s[from as int] != b {
        lemma_find_byte_some(s, from + 1, b);
    }
}

/// When the search fails, no position at or after `from` holds the byte.
pub proof fn lemma_find_byte_none(s: Seq<u8>, from: nat, b: u8)
    requires
        find_byte(s, from, b) is None,
    ensures
        forall|j: int| from <= j < s.len() ==> s[j] != b,
    decreases s.len() - from,
{
    if from < s.len() {
        lemma_find_byte_none(s, from + 1, b);
    }
}

/// Skipping positions known not to hold the byte does not change what
/// the search finds.
pub proof fn lemma_find_byte_advance(s: Seq<u8>, from1: nat, from2: nat, b: u8)
    requires
        from1 <= from2 <= s.len(),
        forall|j: int| from1 <= j < from2 ==> s[j] != b,
    ensures
        find_byte(s, from1, b) == find_byte(s, from2, b),
    decreases from2 - from1,
{
    if from1 < from2 {
        lemma_find_byte_advance(s, from1 + 1, from2, b);
    }
}

/// Extending the searched bytes does not move an already-found index.
pub proof fn lemma_find_byte_extend(s: Seq<u8>, d: Seq<u8>, from: nat, b: u8)
    requires
        find_byte(s, from, b) is Some,
    ensures
        find_byte(s + d, from, b) == find_byte(s, from, b),
{
    let n = find_byte(s, from, b)->0;
    lemma_find_byte_some(s, from, b);
    assert forall|j: int| from <= j < n implies (s + d)[j] != b by {
        assert((s + d)[j] == s[j]);
    }
    assert((s + d)[n as int] == s[n as int]);
    lemma_find_byte_at(s + d, from, b, n);
}

/// A position that holds the byte, with nothing between `from` and it,
/// is what the search finds.
pub proof fn lemma_find_byte_at(s: Seq<u8>, from: nat, b: u8, k: nat)
    requires
        from <= k < s.len(),
        s[k as int] == b,
        forall|j: int| from <= j < k ==> s[j] != b,
    ensures
        find_byte(s, from, b) == Some(k),
    decreases k - from,
{
    if from < k {
        lemma_find_byte_at(s, from + 1, b, k);
    }
}

/// Exact index search for a byte, scanning from `from`.
pub fn find_byte_from(v: &[u8], from: usize, b: u8) -> (r: Option<usize>)
    requires
        from <= v@.len(),
    ensures
        match r {
            Some(i) => find_byte(v@, from as nat, b) == Some(i as nat),
            None => find_byte(v@, from as nat, b) is None,
        },
{
    let mut i = from;
    while i < v.len()
        invariant
            from <= i <= v@.len(),
            find_byte(v@, from as nat, b) == find_byte(v@, i as nat, b),
        decreases v@.len() - i,
    {
        if v[i] == b {
            return Some(i);
        }
        i = i + 1;
    }
    None
}

/// Relies on `str::from_utf8`: succeeds exactly on valid UTF-8 and returns
/// a view of the same bytes.
#[verifier::external_body]
pub(crate) fn bytes_as_str(v: &Vec<u8>) -> (r: Option<&str>)
    ensures
        r is Some <==> vstd::utf8::valid_utf8(v@),
        r is Some ==> r->0.spec_bytes() == v@,
{
    core::str::from_utf8(v.as_slice()).ok()
}

/// Byte-for-byte equality of two slices.
pub fn bytes_eq(a: &[u8], b: &[u8]) -> (r: bool)
    ensures
        r == (a@ == b@),
{
    if a.len() != b.len() {
        return false;
    }
    let mut i: usize = 0;
    while i < a.len()
        invariant
            a@.len() == b@.len(),
            i <= a@.len(),
            forall|j: int| 0 <= j < i ==> a@[j] == b@[j],
        decreases a@.len() - i,
    {
        if a[i] != b[i] {
            return false;
        }
        i = i + 1;
    }
    proof {
        assert(a@ =~= b@);
    }
    true
}

/// Whether `p` is a prefix of `s`.
pub fn starts_with_bytes(s: &[u8], p: &[u8]) -> (r: bool)
    ensures
        r == is_prefix_of(p@, s@),
{
    if p.len() > s.len() {
        return false;
    }
    let mut i: usize = 0;
    while i < p.len()
        invariant
            p@.len() <= s@.len(),
            i <= p@.len(),
            forall|j: int| 0 <= j < i ==> s@[j] == p@[j],
        decreases p@.len() - i,
    {
        if s[i] != p[i] {
            proof {
                assert(s@.subrange(0, p@.len() as int)[i as int] == s@[i as int]);
            }
            return false;
        }
        i = i + 1;
    }
    proof {
        assert(s@.subrange(0, p@.len() as int) =~= p@);
    }
    true
}

/// Appends all of `src` to `dst`.
pub fn extend_bytes(dst: &mut Vec<u8>, src: &[u8])
    ensures
        final(dst)@ == old(dst)@ + src@,
{
    let mut i: usize = 0;
    while i < src.len()
        invariant
            i <= src@.len(),
            dst@ == old(dst)@ + src@.subrange(0, i as int),
        decreases src@.len() - i,
    {
        dst.push(src[i]);
        proof {
            assert(dst@ =~= old(dst)@ + src@.subrange(0, i + 1));
        }
        i = i + 1;
    }
    proof {
        assert(old(dst)@ + src@.subrange(0, src@.len() as int) =~= old(dst)@ + src@);
    }
}

/// A copy of `v[lo..hi]` as an owned vector.
pub fn copy_range(v: &[u8], lo: usize, hi: usize) -> (r: Vec<u8>)
    requires
        lo <= hi <= v@.len(),
    ensures
        r@ == v@.subrange(lo as int, hi as int),
{
    let mut out: Vec<u8> = Vec::new();
    let mut i = lo;
    while i < hi
        invariant
            lo <= i <= hi <= v@.len(),
            out@ == v@.subrange(lo as int, i as int),
        decreases hi - i,
    {
        out.push(v[i]);
        proof {
            assert(out@ =~= v@.subrange(lo as int, i + 1));
        }
        i = i + 1;
    }
    out
}

/// A copy of `v` with leading and trailing ASCII whitespace removed.
pub fn trim_ascii_bytes(v: &[u8]) -> (r: Vec<u8>)
    ensures
        r@ == trim_ascii(v@),
{
    proof {
        assert(v@.subrange(0, v@.len() as int) =~= v@);
    }
    let mut lo: usize = 0;
    while lo < v.len() && is_ascii_ws_exec(v[lo])
        invariant
            lo <= v@.len(),
            trim_start(v@.subrange(lo as int, v@.len() as int)) == trim_start(v@),
        decreases v@.len() - lo,
    {
        proof {
            let t = v@.subrange(lo as int, v@.len() as int);
            assert(t.len() > 0 && t[0] == v@[lo as int]);
            assert(t.drop_first() =~= v@.subrange(lo + 1, v@.len() as int));
        }
        lo = lo + 1;
    }
    proof {
        let t = v@.subrange(lo as int, v@.len() as int);
        assert(trim_start(t) == t);
    }
    let mut hi: usize = v.len();
    while hi > lo && is_ascii_ws_exec(v[hi - 1])
        invariant
            lo <= hi <= v@.len(),
            trim_start(v@) == v@.subrange(lo as int, v@.len() as int),
            trim_end(v@.subrange(lo as int, hi as int)) == trim_ascii(v@),
        decreases hi,
    {
        proof {
            let t = v@.subrange(lo as int, hi as int);
            assert(t.len() > 0 && t.last() == v@[hi - 1]);
            assert(t.drop_last() =~= v@.subrange(lo as int, hi - 1));
        }
        hi = hi - 1;
    }
    proof {
        let t = v@.subrange(lo as int, hi as int);
        assert(trim_end(t) == t);
    }
    copy_range(v, lo, hi)
}

/// Executable form of `is_ascii_ws`.
pub fn is_ascii_ws_exec(b: u8) -> (r: bool)
    ensures
        r == is_ascii_ws(b),
{
    b == 32 || b == 9 || b == 10 || b == 12 || b == 13
}

/// Reads an unsigned decimal from bytes exactly as `parse_usize_spec` says:
/// optional leading `+`, one or more digits, value within `usize`.
pub fn parse_usize_bytes(v: &[u8]) -> (r: Option<usize>)
    ensures
        match r {
            Some(n) => parse_usize_spec(v@) == Some(n as int),
            None => parse_usize_spec(v@) is None,
        },
{
    let start: usize = if v.len() > 0 && v[0] == 43 {
        1
    } else {
        0
    };
    let ghost d = digits_part(v@);
    proof {
        assert(d =~= v@.subrange(start as int, v@.len() as int));
    }
    if start == v.len() {
        return None;
    }
    let mut acc: usize = 0;
    let mut i = start;
    while i < v.len()
        invariant
            start <= i <= v@.len(),
            d == digits_part(v@),
            d =~= v@.subrange(start as int, v@.len() as int),
            all_dec_digits(d.take(i - start)),
            acc as int == dec_val(d.take(i - start)),
        decreases v@.len() - i,
    {
        let c = v[i];
        if c < 48 || c > 57 {
            proof {
                let j = i - start;
                assert(d[j] == v@[i as int]);
                assert(!(48 <= d[j] <= 57));
            }
            return None;
        }
        let digit = (c - 48) as usize;
        proof {
            let j = i - start;
            assert(d[j] == v@[i as int]);
            assert(d.take(j + 1).drop_last() =~= d.take(j));
            assert(all_dec_digits(d.take(j + 1)));
        }
        if acc > (usize::MAX - digit) / 10 {
            proof {
                let j = i - start;
                let q = ((usize::MAX - digit) / 10) as int;
                vstd::arithmetic::div_mod::lemma_fundamental_div_mod(
                    usize::MAX - digit,
                    10,
                );
                assert(acc as int * 10 >= (q + 1) * 10) by (nonlinear_arith)
                    requires
                        acc as int >= q + 1,
                ;
                assert(dec_val(d.take(j + 1)) > usize::MAX);
                if all_dec_digits(d) {
                    lemma_dec_val_prefix_le(d, j + 1);
                    assert(dec_val(d) > usize::MAX);
                }
            }
            return None;
        }
        proof {
            let q = ((usize::MAX - digit) / 10) as int;
            vstd::arithmetic::div_mod::lemma_fundamental_div_mod(usize::MAX - digit, 10);
            assert(acc as int * 10 <= q * 10) by (nonlinear_arith)
                requires
                    acc as int <= q,
            ;
        }
        acc = acc * 10 + digit;
        i = i + 1;
    }
    proof {
        assert(d.take(v@.len() - start) =~= d);
    }
    Some(acc)
}

} // verus!
