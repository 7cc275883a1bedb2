//! Base-256 arithmetic on octet strings, most significant octet first.

use byteorder::{BigEndian, ByteOrder};
use vstd::prelude::*;
use vstd::slice::slice_subrange;

verus! {

/// 256 to the power `n`: the number of values that `n` octets can tell apart.
pub open spec fn pow256(n: nat) -> nat
    decreases n,
{
    if n == 0 {
        1
    } else {
        256 * pow256((n - 1) as nat)
    }
}

/// The number that `s` writes in base 256, read as unsigned.
pub open spec fn be_value(s: Seq<u8>) -> nat
    decreases s.len(),
{
    if s.len() == 0 {
        0
    } else {
        256 * be_value(s.drop_last()) + s.last() as nat
    }
}

/// The number that `s` writes in two's complement: the top bit of the first
/// octet is the sign.
pub open spec fn signed_be_value(s: Seq<u8>) -> int {
    if s.len() > 0 && s[0] >= 0x80 {
        be_value(s) - pow256(s.len())
    } else {
        be_value(s) as int
    }
}

/// The low `width` octets of `v`, most significant first.
pub open spec fn be_bytes(v: nat, width: nat) -> Seq<u8>
    decreases width,
{
    if width == 0 {
        Seq::empty()
    } else {
        be_bytes(v / 256, (width - 1) as nat).push((v % 256) as u8)
    }
}

/// `s` without its leading zero octets, of which the last is kept when `s`
/// holds nothing else.
pub open spec fn strip_leading_zeros(s: Seq<u8>) -> Seq<u8>
    decreases s.len(),
{
    if s.len() > 1 && s[0] == 0 {
        strip_leading_zeros(s.skip(1))
    } else {
        s
    }
}

/// The powers of a sum multiply.
pub proof fn lemma_pow256_add(a: nat, b: nat)
    ensures
        pow256(a + b) == pow256(a) * pow256(b),
    decreases a,
{
    if a == 0 {
        assert(pow256(a + b) == 1 * pow256(b));
    } else {
        let p = pow256((a - 1) as nat);
        let q = pow256(b);
        lemma_pow256_add((a - 1) as nat, b);
        assert(256 * (p * q) == (256 * p) * q) by (nonlinear_arith);
    }
}

/// A larger exponent gives no smaller power.
pub proof fn lemma_pow256_monotone(a: nat, b: nat)
    requires
        a <= b,
    ensures
        pow256(a) <= pow256(b),
    decreases b,
{
    if a < b {
        lemma_pow256_monotone(a, (b - 1) as nat);
    }
}

/// The powers that the widths of the integer types need, written out.
pub proof fn lemma_pow256_values()
    ensures
        pow256(0) == 1,
        pow256(1) == 0x100,
        pow256(2) == 0x1_0000,
        pow256(3) == 0x100_0000,
        pow256(4) == 0x1_0000_0000,
        pow256(8) == 0x1_0000_0000_0000_0000,
        pow256(15) == 0x100_0000_0000_0000_0000_0000_0000_0000,
        pow256(16) == 0x1_0000_0000_0000_0000_0000_0000_0000_0000,
{
    assert(pow256(3) == 256 * pow256(2));
    lemma_pow256_add(4, 4);
    assert(0x1_0000_0000 * 0x1_0000_0000 == 0x1_0000_0000_0000_0000) by (nonlinear_arith);
    lemma_pow256_add(8, 8);
    assert(0x1_0000_0000_0000_0000 * 0x1_0000_0000_0000_0000
        == 0x1_0000_0000_0000_0000_0000_0000_0000_0000) by (nonlinear_arith);
    assert(pow256(16) == 256 * pow256(15));
}

/// `n` octets write a number below 256 to the power `n`.
pub proof fn lemma_be_value_bound(s: Seq<u8>)
    ensures
        be_value(s) < pow256(s.len()),
    decreases s.len(),
{
    if s.len() > 0 {
        lemma_be_value_bound(s.drop_last());
    }
}

/// Writing `b` behind `a` shifts `a` by the length of `b`.
pub proof fn lemma_be_value_concat(a: Seq<u8>, b: Seq<u8>)
    ensures
        be_value(a + b) == be_value(a) * pow256(b.len()) + be_value(b),
    decreases b.len(),
{
    if b.len() == 0 {
        assert(be_value(a) * 1 == be_value(a));
    } else {
        let x = be_value(a);
        let p = pow256((b.len() - 1) as nat);
        lemma_be_value_concat(a, b.drop_last());
        assert((a + b).drop_last() =~= a + b.drop_last());
        assert(256 * (x * p) == x * (256 * p)) by (nonlinear_arith);
    }
}

/// The first octet carries the highest power.
pub proof fn lemma_be_value_first(s: Seq<u8>)
    requires
        s.len() >= 1,
    ensures
        be_value(s) == s[0] * pow256((s.len() - 1) as nat) + be_value(s.skip(1)),
        be_value(s.skip(1)) < pow256((s.len() - 1) as nat),
{
    let head = seq![s[0]];
    assert(head + s.skip(1) =~= s);
    lemma_be_value_concat(head, s.skip(1));
    assert(be_value(head) == 256 * be_value(head.drop_last()) + head.last() as nat);
    lemma_be_value_bound(s.skip(1));
}

/// Leading zero octets do not change the value.
pub proof fn lemma_be_value_skip_zeros(s: Seq<u8>, k: nat)
    requires
        k <= s.len(),
        forall|j: int| 0 <= j < k ==> s[j] == 0,
    ensures
        be_value(s) == be_value(s.skip(k as int)),
    decreases k,
{
    if k == 0 {
        assert(s.skip(0) =~= s);
    } else {
        lemma_be_value_first(s);
        let t = s.skip(1);
        lemma_be_value_skip_zeros(t, (k - 1) as nat);
        assert(t.skip(k - 1) =~= s.skip(k as int));
    }
}

/// Leading `0xFF` octets stand for the largest number of their length.
pub proof fn lemma_be_value_skip_ones(s: Seq<u8>, k: nat)
    requires
        k <= s.len(),
        forall|j: int| 0 <= j < k ==> s[j] == 0xFF,
    ensures
        be_value(s) == (pow256(k) - 1) * pow256((s.len() - k) as nat) + be_value(s.skip(k as int)),
    decreases k,
{
    if k == 0 {
        assert(s.skip(0) =~= s);
        assert((1 - 1) * pow256(s.len()) == 0);
    } else {
        lemma_be_value_first(s);
        let t = s.skip(1);
        lemma_be_value_skip_ones(t, (k - 1) as nat);
        assert(t.skip(k - 1) =~= s.skip(k as int));
        let a = pow256((k - 1) as nat);
        let b = pow256((s.len() - k) as nat);
        lemma_pow256_add((k - 1) as nat, (s.len() - k) as nat);
        assert(255 * (a * b) + (a - 1) * b == (256 * a - 1) * b) by (nonlinear_arith);
    }
}

/// An octet string that starts with a nonzero octet needs all its octets.
pub proof fn lemma_be_value_lower(s: Seq<u8>)
    requires
        s.len() >= 1,
        s[0] != 0,
    ensures
        be_value(s) >= pow256((s.len() - 1) as nat),
{
    lemma_be_value_first(s);
    let x = s[0] as int;
    let p = pow256((s.len() - 1) as nat) as int;
    assert(x * p >= p) by (nonlinear_arith)
        requires
            x >= 1,
            p >= 0,
    ;
}

/// `be_bytes` writes `v` exactly where `v` fits the width.
pub proof fn lemma_be_bytes_value(v: nat, width: nat)
    requires
        v < pow256(width),
    ensures
        be_bytes(v, width).len() == width,
        be_value(be_bytes(v, width)) == v,
    decreases width,
{
    if width > 0 {
        lemma_be_bytes_value(v / 256, (width - 1) as nat);
        let s = be_bytes(v, width);
        assert(s.drop_last() =~= be_bytes(v / 256, (width - 1) as nat));
    }
}

/// `be_bytes` gives as many octets as it is asked for.
pub proof fn lemma_be_bytes_len(v: nat, width: nat)
    ensures
        be_bytes(v, width).len() == width,
    decreases width,
{
    if width > 0 {
        lemma_be_bytes_len(v / 256, (width - 1) as nat);
    }
}

/// What `strip_leading_zeros` keeps: a suffix with the same value, at least one
/// octet of it, and no leading zero where more than one is left.
pub proof fn lemma_strip_leading_zeros(s: Seq<u8>)
    requires
        s.len() >= 1,
    ensures
        1 <= strip_leading_zeros(s).len() <= s.len(),
        strip_leading_zeros(s) == s.skip(s.len() - strip_leading_zeros(s).len()),
        be_value(strip_leading_zeros(s)) == be_value(s),
        strip_leading_zeros(s).len() > 1 ==> strip_leading_zeros(s)[0] != 0,
        s[0] != 0 ==> strip_leading_zeros(s) == s,
    decreases s.len(),
{
    if s.len() > 1 && s[0] == 0 {
        lemma_strip_leading_zeros(s.skip(1));
        lemma_be_value_first(s);
    }
}

/// Where the zero octets before `start` are skipped, and `start` is the last
/// index or holds a nonzero octet, what is left is `strip_leading_zeros`.
pub proof fn lemma_strip_at(s: Seq<u8>, start: nat)
    requires
        start < s.len(),
        forall|j: int| 0 <= j < start ==> s[j] == 0,
        start == s.len() - 1 || s[start as int] != 0,
    ensures
        strip_leading_zeros(s) == s.skip(start as int),
    decreases start,
{
    if start > 0 {
        lemma_strip_at(s.skip(1), (start - 1) as nat);
    }
}

/// Calls `byteorder::BigEndian::read_uint`, which reads the first `nbytes`
/// octets of `buf` as an unsigned big-endian number and panics unless
/// `nbytes` is between 1 and 8 and `buf` is at least that long.
#[verifier::external_body]
fn read_uint(buf: &[u8], nbytes: usize) -> (v: u64)
    requires
        1 <= nbytes <= 8,
        nbytes <= buf@.len(),
    ensures
        v == be_value(buf@.take(nbytes as int)),
{
    BigEndian::read_uint(buf, nbytes)
}

/// Calls `byteorder::BigEndian::read_uint128`, which reads the first `nbytes`
/// octets of `buf` as an unsigned big-endian number and panics unless
/// `nbytes` is between 1 and 16 and `buf` is at least that long.
#[verifier::external_body]
fn read_uint128(buf: &[u8], nbytes: usize) -> (v: u128)
    requires
        1 <= nbytes <= 16,
        nbytes <= buf@.len(),
    ensures
        v == be_value(buf@.take(nbytes as int)),
{
    BigEndian::read_uint128(buf, nbytes)
}

/// Calls `byteorder::BigEndian::read_int128`, which reads the first `nbytes`
/// octets of `buf` as a big-endian number in two's complement, the sign taken
/// from the top bit of the first octet, and panics unless `nbytes` is between
/// 1 and 16 and `buf` is at least that long.
#[verifier::external_body]
fn read_int128(buf: &[u8], nbytes: usize) -> (v: i128)
    requires
        1 <= nbytes <= 16,
        nbytes <= buf@.len(),
    ensures
        v == signed_be_value(buf@.take(nbytes as int)),
{
    BigEndian::read_int128(buf, nbytes)
}

/// The number of zero octets that `octets` starts with.
pub(crate) fn leading_zero_octets(octets: &[u8]) -> (start: usize)
    ensures
        start <= octets@.len(),
        forall|j: int| 0 <= j < start ==> octets@[j] == 0,
        start < octets@.len() ==> octets@[start as int] != 0,
{
    let mut start: usize = 0;
    while start < octets.len() && octets[start] == 0
        invariant
            start <= octets@.len(),
            forall|j: int| 0 <= j < start ==> octets@[j] == 0,
        decreases octets@.len() - start,
    {
        start += 1;
    }
    start
}

/// The unsigned value of `octets`, where 64 bits hold it.
pub(crate) fn unsigned_u64(octets: &[u8]) -> (r: Option<u64>)
    ensures
        r == (if be_value(octets@) <= u64::MAX {
            Some(be_value(octets@) as u64)
        } else {
            None
        }),
{
    let start = leading_zero_octets(octets);
    let significant = octets.len() - start;
    let ghost rest = octets@.skip(start as int);
    proof {
        lemma_be_value_skip_zeros(octets@, start as nat);
    }
    if significant == 0 {
        Some(0)
    } else if significant > 8 {
        proof {
            lemma_be_value_lower(rest);
            lemma_pow256_monotone(8, (rest.len() - 1) as nat);
            lemma_pow256_values();
        }
        None
    } else {
        let tail = slice_subrange(octets, start, octets.len());
        assert(tail@.take(significant as int) =~= rest);
        Some(read_uint(tail, significant))
    }
}

/// The unsigned value of `octets`, where 128 bits hold it.
pub(crate) fn unsigned_u128(octets: &[u8]) -> (r: Option<u128>)
    ensures
        r == (if be_value(octets@) <= u128::MAX {
            Some(be_value(octets@) as u128)
        } else {
            None
        }),
{
    let start = leading_zero_octets(octets);
    let significant = octets.len() - start;
    let ghost rest = octets@.skip(start as int);
    proof {
        lemma_be_value_skip_zeros(octets@, start as nat);
    }
    if significant == 0 {
        Some(0)
    } else if significant > 16 {
        proof {
            lemma_be_value_lower(rest);
            lemma_pow256_monotone(16, (rest.len() - 1) as nat);
            lemma_pow256_values();
        }
        None
    } else {
        let tail = slice_subrange(octets, start, octets.len());
        assert(tail@.take(significant as int) =~= rest);
        Some(read_uint128(tail, significant))
    }
}

/// The octet that pads a two's-complement number whose first octet is
/// `first`: `0xFF` below zero, `0x00` from zero on.
pub open spec fn sign_fill(first: u8) -> u8 {
    if first >= 0x80 {
        0xFF
    } else {
        0
    }
}

/// A number of more than 16 octets whose first octets are not all the padding
/// of its sign does not fit in 128 bits.
proof fn lemma_wide_mismatch(s: Seq<u8>, i: nat)
    requires
        s.len() > 16,
        i < s.len() - 16,
        forall|j: int| 0 <= j < i ==> #[trigger] s[j] == sign_fill(s[0]),
        s[i as int] != sign_fill(s[0]),
    ensures
        !(i128::MIN <= signed_be_value(s) <= i128::MAX),
{
    let t = s.skip(i as int);
    let m = (s.len() - i) as nat;
    let high = pow256((m - 1) as nat);
    lemma_pow256_monotone(16, (m - 1) as nat);
    lemma_pow256_values();
    if s[0] >= 0x80 {
        lemma_be_value_skip_ones(s, i);
        lemma_be_value_first(t);
        lemma_pow256_add(i, m);
        let a = pow256(i) as int;
        let b = pow256(m) as int;
        assert((a - 1) * b - a * b == -b) by (nonlinear_arith);
        let x = t[0] as int;
        assert(x * high <= 254 * high) by (nonlinear_arith)
            requires
                x <= 254,
                high >= 0,
        ;
    } else {
        lemma_be_value_skip_zeros(s, i);
        lemma_be_value_lower(t);
    }
}

/// A number of more than 16 octets that starts with the padding of its sign
/// is the number that its last 16 octets write, where their sign is the same,
/// and does not fit in 128 bits where it is not.
proof fn lemma_wide_tail(s: Seq<u8>)
    requires
        s.len() > 16,
        forall|j: int| 0 <= j < s.len() - 16 ==> #[trigger] s[j] == sign_fill(s[0]),
    ensures
        ({
            let tail = s.skip(s.len() - 16);
            if (tail[0] >= 0x80) == (s[0] >= 0x80) {
                signed_be_value(s) == signed_be_value(tail)
            } else {
                !(i128::MIN <= signed_be_value(s) <= i128::MAX)
            }
        }),
{
    let lead = (s.len() - 16) as nat;
    let tail = s.skip(lead as int);
    lemma_pow256_values();
    lemma_be_value_first(tail);
    let x = tail[0] as int;
    let high = pow256(15) as int;
    if x >= 0x80 {
        assert(x * high >= 0x80 * high) by (nonlinear_arith)
            requires
                x >= 0x80,
                high >= 0,
        ;
    } else {
        assert(x * high <= 0x7F * high) by (nonlinear_arith)
            requires
                x <= 0x7F,
                high >= 0,
        ;
    }
    if s[0] >= 0x80 {
        lemma_be_value_skip_ones(s, lead);
        lemma_pow256_add(lead, 16);
        let a = pow256(lead) as int;
        let b = pow256(16) as int;
        assert((a - 1) * b - a * b == -b) by (nonlinear_arith);
    } else {
        lemma_be_value_skip_zeros(s, lead);
    }
}

/// The two's-complement value of `octets`, where 128 bits hold it.
pub(crate) fn signed_i128(octets: &[u8]) -> (r: Option<i128>)
    ensures
        r == (if i128::MIN <= signed_be_value(octets@) <= i128::MAX {
            Some(signed_be_value(octets@) as i128)
        } else {
            None
        }),
{
    let n = octets.len();
    if n == 0 {
        return Some(0);
    }
    if n <= 16 {
        assert(octets@.take(n as int) =~= octets@);
        return Some(read_int128(octets, n));
    }
    let fill: u8 = if octets[0] >= 0x80 {
        0xFF
    } else {
        0
    };
    let lead = n - 16;
    let mut i: usize = 0;
    while i < lead
        invariant
            i <= lead,
            lead == n - 16,
            n == octets@.len(),
            fill == sign_fill(octets@[0]),
            forall|j: int| 0 <= j < i ==> octets@[j] == fill,
        decreases lead - i,
    {
        if octets[i] != fill {
            proof {
                lemma_wide_mismatch(octets@, i as nat);
            }
            return None;
        }
        i += 1;
    }
    let tail = slice_subrange(octets, lead, n);
    proof {
        lemma_wide_tail(octets@);
    }
    if (tail[0] >= 0x80) != (octets[0] >= 0x80) {
        return None;
    }
    assert(tail@.take(16) =~= tail@);
    Some(read_int128(tail, 16))
}

/// The low `width` octets of `repr`, most significant first.
pub(crate) fn be_octets(repr: u128, width: usize) -> (out: Vec<u8>)
    ensures
        out@ == be_bytes(repr as nat, width as nat),
{
    let mut out: Vec<u8> = Vec::new();
    let mut k: usize = 0;
    while k < width
        invariant
            k <= width,
            out@.len() == k,
        decreases width - k,
    {
        out.push(0);
        k += 1;
    }
    let mut rest = repr;
    let mut i = width;
    while i > 0
        invariant
            i <= width,
            out@.len() == width,
            be_bytes(repr as nat, width as nat) == be_bytes(rest as nat, i as nat) + out@.skip(
                i as int,
            ),
        decreases i,
    {
        i -= 1;
        out.set(i, (rest % 256) as u8);
        rest = rest / 256;
    }
    out
}

} // verus!
