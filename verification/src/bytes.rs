//! Verified byte-sequence helpers: constant-time comparison, big-endian
//! 32-bit length prefixes, and decimal rendering/parsing of instants.

use vstd::prelude::*;

verus! {

/// Compares two byte vectors without an early exit on the first differing
/// byte, so the running time depends only on the lengths.
pub fn ct_eq(a: &Vec<u8>, b: &Vec<u8>) -> (r: bool)
    ensures
        r == (a@ == b@),
{
    if a.len() != b.len() {
        return false;
    }
    let mut diff: u8 = 0;
    let mut i: usize = 0;
    while i < a.len()
        invariant
            a@.len() == b@.len(),
            0 <= i <= a@.len(),
            (diff == 0) <==> (forall|j: int| 0 <= j < i ==> a@[j] == b@[j]),
        decreases a@.len() - i,
    {
        let x = a[i];
        let y = b[i];
        proof {
            assert((x ^ y) == 0 <==> x == y) by (bit_vector);
            assert((diff | (x ^ y)) == 0 <==> diff == 0 && (x ^ y) == 0) by (bit_vector);
        }
        diff = diff | (x ^ y);
        i = i + 1;
    }
    if diff == 0 {
        proof {
            assert(a@ =~= b@);
        }
        true
    } else {
        false
    }
}

/// Copies `b[from..to]` into a fresh vector.
pub fn subvec(b: &Vec<u8>, from: usize, to: usize) -> (r: Vec<u8>)
    requires
        from <= to <= b@.len(),
    ensures
        r@ == b@.subrange(from as int, to as int),
{
    let mut r: Vec<u8> = Vec::new();
    let mut i: usize = from;
    while i < to
        invariant
            from <= i <= to <= b@.len(),
            r@ == b@.subrange(from as int, i as int),
        decreases to - i,
    {
        r.push(b[i]);
        proof {
            assert(r@ =~= b@.subrange(from as int, i + 1 as int));
        }
        i = i + 1;
    }
    r
}

/// Appends all of `b` to `out`.
pub fn push_all(out: &mut Vec<u8>, b: &Vec<u8>)
    ensures
        final(out)@ == old(out)@ + b@,
{
    let mut i: usize = 0;
    while i < b.len()
        invariant
            0 <= i <= b@.len(),
            out@ == old(out)@ + b@.subrange(0, i as int),
        decreases b@.len() - i,
    {
        out.push(b[i]);
        proof {
            assert(out@ =~= old(out)@ + b@.subrange(0, i + 1 as int));
        }
        i = i + 1;
    }
    proof {
        assert(out@ =~= old(out)@ + b@);
    }
}

/// The four big-endian bytes of a 32-bit value.
pub open spec fn be32_of(m: u32) -> Seq<u8> {
    seq![(m >> 24) as u8, (m >> 16) as u8, (m >> 8) as u8, m as u8]
}

/// The 32-bit value read back from four big-endian bytes.
pub open spec fn be32_val(s: Seq<u8>) -> u32
    recommends
        s.len() == 4,
{
    ((s[0] as u32) << 24) | ((s[1] as u32) << 16) | ((s[2] as u32) << 8) | (s[3] as u32)
}

pub proof fn lemma_be32_roundtrip(m: u32)
    ensures
        be32_val(be32_of(m)) == m,
{
    assert((((((m >> 24) as u8) as u32) << 24) | ((((m >> 16) as u8) as u32) << 16) | (((((
    m >> 8) as u8) as u32) << 8)) | (((m as u8) as u32))) == m) by (bit_vector);
}

/// Appends the four big-endian bytes of `m` to `out`.
pub fn push_be32(out: &mut Vec<u8>, m: u32)
    ensures
        final(out)@ == old(out)@ + be32_of(m),
{
    out.push((m >> 24) as u8);
    out.push((m >> 16) as u8);
    out.push((m >> 8) as u8);
    out.push(m as u8);
    proof {
        assert(out@ =~= old(out)@ + be32_of(m));
    }
}

/// Reads a big-endian 32-bit value at `pos`.
pub fn read_be32(b: &Vec<u8>, pos: usize) -> (r: u32)
    requires
        pos + 4 <= b@.len(),
    ensures
        r == be32_val(b@.subrange(pos as int, pos + 4)),
{
    // Reading the length pins `b@.len()` into usize range, bounding the
    // index arithmetic below.
    let n = b.len();
    let r = ((b[pos] as u32) << 24) | ((b[pos + 1] as u32) << 16) | ((b[pos + 2] as u32) << 8) | (
    b[pos + 3] as u32);
    proof {
        let s = b@.subrange(pos as int, pos + 4);
        assert(s[0] == b@[pos as int] && s[1] == b@[pos + 1] && s[2] == b@[pos + 2] && s[3] == b@[
        pos + 3]);
    }
    r
}

/// An ASCII decimal digit.
pub open spec fn is_digit(c: u8) -> bool {
    48 <= c <= 57
}

pub open spec fn all_digits(s: Seq<u8>) -> bool {
    forall|i: int| 0 <= i < s.len() ==> is_digit(#[trigger] s[i])
}

/// The numeric value of a digit string, most significant digit first.
pub open spec fn dec_val(s: Seq<u8>) -> int
    decreases s.len(),
{
    if s.len() == 0 {
        0
    } else {
        dec_val(s.drop_last()) * 10 + (s.last() - 48)
    }
}

/// The canonical decimal rendering of a non-negative value: no sign, no
/// leading zeros (a single `0` for zero).
pub open spec fn dec_of(n: nat) -> Seq<u8>
    decreases n,
{
    if n < 10 {
        seq![(48 + n) as u8]
    } else {
        dec_of(n / 10).push((48 + n % 10) as u8)
    }
}

pub open spec fn pow10(k: nat) -> int
    decreases k,
{
    if k == 0 {
        1
    } else {
        10 * pow10((k - 1) as nat)
    }
}

pub proof fn lemma_dec_of_digits(n: nat)
    ensures
        dec_of(n).len() >= 1,
        all_digits(dec_of(n)),
        dec_val(dec_of(n)) == n,
    decreases n,
{
    if n < 10 {
        assert(dec_of(n).drop_last() =~= Seq::<u8>::empty());
        assert(dec_val(dec_of(n)) == dec_val(Seq::<u8>::empty()) * 10 + n);
    } else {
        lemma_dec_of_digits(n / 10);
        assert(dec_of(n).drop_last() =~= dec_of(n / 10));
        assert(dec_val(dec_of(n)) == (n / 10) * 10 + n % 10);
        assert((n / 10) * 10 + n % 10 == n) by (nonlinear_arith);
    }
}

/// A leading zero does not change the value.
proof fn lemma_leading_zero(s: Seq<u8>)
    requires
        s.len() >= 1,
        s[0] == 48,
    ensures
        dec_val(s.skip(1)) == dec_val(s),
    decreases s.len(),
{
    if s.len() == 1 {
        assert(s.skip(1) =~= Seq::<u8>::empty());
        assert(dec_val(s) == dec_val(s.drop_last()) * 10 + (s.last() - 48));
    } else {
        lemma_leading_zero(s.drop_last());
        assert(s.skip(1).drop_last() =~= s.drop_last().skip(1));
        assert(s.skip(1).last() == s.last());
    }
}

/// Stripping any run of leading zeros keeps the value.
proof fn lemma_strip_zeros(s: Seq<u8>, k: int)
    requires
        0 <= k <= s.len(),
        forall|j: int| 0 <= j < k ==> s[j] == 48,
    ensures
        dec_val(s.skip(k)) == dec_val(s),
    decreases k,
{
    if k > 0 {
        lemma_leading_zero(s);
        assert(s.skip(k) =~= s.skip(1).skip(k - 1));
        lemma_strip_zeros(s.skip(1), k - 1);
    } else {
        assert(s.skip(0) =~= s);
    }
}

/// A digit string with a non-zero leading digit is at least `pow10(len - 1)`.
proof fn lemma_dec_val_lower(s: Seq<u8>)
    requires
        s.len() >= 1,
        all_digits(s),
        s[0] != 48,
    ensures
        dec_val(s) >= pow10((s.len() - 1) as nat),
    decreases s.len(),
{
    if s.len() == 1 {
        assert(dec_val(s) == dec_val(s.drop_last()) * 10 + (s.last() - 48));
    } else {
        lemma_dec_val_lower(s.drop_last());
        let p = pow10((s.len() - 2) as nat);
        assert(dec_val(s.drop_last()) * 10 >= p * 10) by (nonlinear_arith)
            requires
                dec_val(s.drop_last()) >= p,
        ;
    }
}

/// Any digit string is below `pow10(len)`.
proof fn lemma_dec_val_upper(s: Seq<u8>)
    requires
        all_digits(s),
    ensures
        0 <= dec_val(s) < pow10(s.len()),
    decreases s.len(),
{
    if s.len() == 0 {
    } else {
        lemma_dec_val_upper(s.drop_last());
        let p = pow10((s.len() - 1) as nat);
        assert(dec_val(s.drop_last()) * 10 + 9 < p * 10) by (nonlinear_arith)
            requires
                dec_val(s.drop_last()) < p,
        ;
    }
}

proof fn lemma_pow10_mono(a: nat, b: nat)
    requires
        a <= b,
    ensures
        pow10(a) <= pow10(b),
    decreases b,
{
    if a < b {
        lemma_pow10_mono(a, (b - 1) as nat);
        lemma_pow10_pos((b - 1) as nat);
        assert(pow10((b - 1) as nat) <= 10 * pow10((b - 1) as nat)) by (nonlinear_arith)
            requires
                pow10((b - 1) as nat) >= 1,
        ;
    }
}

proof fn lemma_pow10_20()
    ensures
        pow10(20) == 100000000000000000000,
{
    reveal_with_fuel(pow10, 21);
}

proof fn lemma_pow10_pos(k: nat)
    ensures
        pow10(k) >= 1,
    decreases k,
{
    if k > 0 {
        lemma_pow10_pos((k - 1) as nat);
    }
}

/// A value below `pow10(k)` renders in at most `k` digits.
pub proof fn lemma_dec_of_len(n: nat, k: nat)
    requires
        k >= 1,
        n < pow10(k),
    ensures
        dec_of(n).len() <= k,
    decreases n,
{
    if n >= 10 {
        lemma_pow10_pos((k - 1) as nat);
        if k == 1 {
            assert(false);
        }
        assert(n / 10 < pow10((k - 1) as nat)) by (nonlinear_arith)
            requires
                n < 10 * pow10((k - 1) as nat),
                pow10((k - 1) as nat) >= 1,
                n >= 10,
        ;
        lemma_dec_of_len(n / 10, (k - 1) as nat);
    }
}

/// Any `u64` renders in at most 20 digits.
pub proof fn lemma_dec_of_len_u64(n: u64)
    ensures
        dec_of(n as nat).len() <= 20,
{
    lemma_pow10_20();
    lemma_dec_of_len(n as nat, 20);
}

/// Renders `n` in canonical decimal.
pub fn render_dec(n: u64) -> (r: Vec<u8>)
    ensures
        r@ == dec_of(n as nat),
    decreases n,
{
    if n < 10 {
        let mut r: Vec<u8> = Vec::new();
        r.push(48 + n as u8);
        proof {
            assert(r@ =~= dec_of(n as nat));
        }
        r
    } else {
        let mut r = render_dec(n / 10);
        r.push(48 + (n % 10) as u8);
        proof {
            assert(r@ =~= dec_of(n as nat));
        }
        r
    }
}

/// Decides whether `value` is a decimal number strictly above `now`.
///
/// This is the whole evaluation of a `time < T` caveat: it returns true
/// exactly when `value` is a non-empty all-digit string whose numeric value
/// is strictly greater than `now`. A huge value (more digits than any `u64`)
/// still compares correctly, and a malformed value fails closed.
pub fn dec_exceeds(value: &Vec<u8>, now: u64) -> (r: bool)
    ensures
        r == (value@.len() > 0 && all_digits(value@) && (now as int) < dec_val(value@)),
{
    if value.len() == 0 {
        return false;
    }
    let mut i: usize = 0;
    while i < value.len()
        invariant
            0 <= i <= value@.len(),
            forall|j: int| 0 <= j < i ==> is_digit(#[trigger] value@[j]),
        decreases value@.len() - i,
    {
        if value[i] < 48 || value[i] > 57 {
            return false;
        }
        i = i + 1;
    }
    assert(all_digits(value@));
    // Skip leading zeros; they do not change the value.
    let mut k: usize = 0;
    while k < value.len() && value[k] == 48
        invariant
            0 <= k <= value@.len(),
            forall|j: int| 0 <= j < k ==> value@[j] == 48,
        decreases value@.len() - k,
    {
        k = k + 1;
    }
    proof {
        lemma_strip_zeros(value@, k as int);
    }
    let m = value.len() - k;
    if m == 0 {
        // All zeros: the value is zero, never above `now`.
        assert(value@.skip(k as int) =~= Seq::<u8>::empty());
        return false;
    }
    let tail = subvec(value, k, value.len());
    assert(tail@ == value@.skip(k as int));
    if m > 20 {
        // At least 21 significant digits: beyond any u64, so above `now`.
        proof {
            lemma_dec_val_lower(tail@);
            lemma_pow10_mono(20, (tail@.len() - 1) as nat);
            lemma_pow10_20();
        }
        return true;
    }
    // At most 20 significant digits: the exact value fits in a u128.
    let mut acc: u128 = 0;
    let mut j: usize = 0;
    while j < tail.len()
        invariant
            0 <= j <= tail@.len() <= 20,
            all_digits(tail@),
            acc == dec_val(tail@.subrange(0, j as int)),
            0 <= acc < pow10(j as nat),
        decreases tail@.len() - j,
    {
        proof {
            lemma_pow10_20();
            lemma_pow10_mono(j as nat, 20);
            let sub = tail@.subrange(0, j + 1);
            assert(sub.drop_last() =~= tail@.subrange(0, j as int));
            assert(sub.last() == tail@[j as int]);
            lemma_dec_val_upper(sub);
            lemma_pow10_mono((j + 1) as nat, 20);
        }
        acc = acc * 10 + (tail[j] - 48) as u128;
        j = j + 1;
    }
    assert(tail@.subrange(0, tail@.len() as int) =~= tail@);
    (now as u128) < acc
}

} // verus!
