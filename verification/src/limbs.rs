//! Numbers as little-endian bytes, 32 bit words and 64 bit limbs.

use vstd::prelude::*;

verus! {

/// The number that little-endian bytes stand for.
pub open spec fn bytes_value(s: Seq<u8>) -> nat
    decreases s.len(),
{
    if s.len() == 0 {
        0
    } else {
        s.first() as nat + 256 * bytes_value(s.drop_first())
    }
}

/// The number that little-endian 32 bit words stand for.
pub open spec fn words_value(s: Seq<u32>) -> nat
    decreases s.len(),
{
    if s.len() == 0 {
        0
    } else {
        s.first() as nat + 0x1_0000_0000 * words_value(s.drop_first())
    }
}

/// The number that little-endian 64 bit limbs stand for.
pub open spec fn limbs_value(s: Seq<u64>) -> nat
    decreases s.len(),
{
    if s.len() == 0 {
        0
    } else {
        s.first() as nat + 0x1_0000_0000_0000_0000 * limbs_value(s.drop_first())
    }
}

/// The lowest `n` bytes of a number, in little-endian order.
pub open spec fn le_bytes(v: nat, n: nat) -> Seq<u8>
    decreases n,
{
    if n == 0 {
        Seq::empty()
    } else {
        seq![(v % 256) as u8] + le_bytes(v / 256, (n - 1) as nat)
    }
}

/// `256^n`.
pub open spec fn pow256(n: nat) -> nat
    decreases n,
{
    if n == 0 {
        1
    } else {
        256 * pow256((n - 1) as nat)
    }
}

/// Bytes are the bytes of the number they stand for.
pub proof fn le_bytes_of_value(s: Seq<u8>)
    ensures
        le_bytes(bytes_value(s), s.len()) == s,
        bytes_value(s) < pow256(s.len()),
    decreases s.len(),
{
    if s.len() > 0 {
        le_bytes_of_value(s.drop_first());
        let v = bytes_value(s.drop_first());
        assert((s.first() + 256 * v) % 256 == s.first() as int);
        assert((s.first() + 256 * v) / 256 == v as int);
        assert(le_bytes(bytes_value(s), s.len()) =~= s);
    }
}

/// A number is what its bytes stand for, if there are enough of them.
pub proof fn value_of_le_bytes(v: nat, n: nat)
    requires
        v < pow256(n),
    ensures
        bytes_value(le_bytes(v, n)) == v,
        le_bytes(v, n).len() == n,
    decreases n,
{
    if n > 0 {
        value_of_le_bytes(v / 256, (n - 1) as nat);
        assert(le_bytes(v, n).drop_first() =~= le_bytes(v / 256, (n - 1) as nat));
    }
}

pub proof fn le_bytes_len(v: nat, n: nat)
    ensures
        le_bytes(v, n).len() == n,
    decreases n,
{
    if n > 0 {
        le_bytes_len(v / 256, (n - 1) as nat);
    }
}

pub proof fn pow256_adds(m: nat, n: nat)
    ensures
        pow256(m + n) == pow256(m) * pow256(n),
        pow256(m) > 0,
    decreases m,
{
    let q = pow256(n) as int;
    if m > 0 {
        pow256_adds((m - 1) as nat, n);
        let p = pow256((m - 1) as nat) as int;
        let pm = pow256(m) as int;
        assert(pm == 256 * p);
        assert(pow256(m + n) == 256 * pow256((m + n - 1) as nat));
        assert(pm * q == 256 * (p * q)) by (nonlinear_arith)
            requires
                pm == 256 * p,
        ;
    } else {
        let pm = pow256(m) as int;
        assert(pm * q == q) by (nonlinear_arith)
            requires
                pm == 1,
        ;
    }
}

/// The bytes of a low part and of a high part lie next to each other.
pub proof fn le_bytes_split(low: nat, high: nat, m: nat, n: nat)
    requires
        low < pow256(m),
    ensures
        le_bytes(low + pow256(m) * high, m + n) == le_bytes(low, m) + le_bytes(high, n),
    decreases m,
{
    if m == 0 {
        assert(le_bytes(low, m) + le_bytes(high, n) =~= le_bytes(high, n));
    } else {
        let k = (m - 1) as nat;
        let p = pow256(k) as int;
        let h = high as int;
        assert((256 * p) * h == 256 * (p * h)) by (nonlinear_arith);
        let v = low + pow256(m) * high;
        assert(v % 256 == low % 256);
        assert(v / 256 == low / 256 + p * h);
        le_bytes_split(low / 256, high, k, n);
        assert(le_bytes(v, m + n) =~= seq![(v % 256) as u8] + le_bytes(v / 256, k + n));
        assert(le_bytes(v, m + n) =~= le_bytes(low, m) + le_bytes(high, n));
    }
}

/// The byte at an index.
pub proof fn le_bytes_index(v: nat, n: nat, j: nat)
    requires
        j < n,
    ensures
        le_bytes(v, n)[j as int] == (v / pow256(j)) % 256,
    decreases n,
{
    le_bytes_len(v / 256, (n - 1) as nat);
    if j > 0 {
        le_bytes_index(v / 256, (n - 1) as nat, (j - 1) as nat);
        pow256_adds((j - 1) as nat, 0);
        vstd::arithmetic::div_mod::lemma_div_denominator(
            v as int,
            256,
            pow256((j - 1) as nat) as int,
        );
    } else {
        assert(pow256(0) == 1);
        assert(v / pow256(0) == v);
    }
}

/// Bytes of four limbs lie next to each other.
pub proof fn le_bytes_of_limbs(s: Seq<u64>, i: int, k: nat)
    requires
        s.len() == 4,
        0 <= i < 4,
        k < 8,
    ensures
        le_bytes(limbs_value(s), 32).len() == 32,
        le_bytes(limbs_value(s), 32)[8 * i + k] == (s[i] as nat / pow256(k)) % 256,
{
    limbs_value_4(s);
    pow256_small();
    let a = s[0] as nat;
    let b = s[1] as nat;
    let c = s[2] as nat;
    let d = s[3] as nat;
    let m: nat = 0x1_0000_0000_0000_0000;
    le_bytes_split(a, b + m * (c + m * d), 8, 24);
    le_bytes_split(b, c + m * d, 8, 16);
    le_bytes_split(c, d, 8, 8);
    le_bytes_len(a, 8);
    le_bytes_len(b, 8);
    le_bytes_len(c, 8);
    le_bytes_len(d, 8);
    le_bytes_index(s[i] as nat, 8, k);
    let all = le_bytes(a, 8) + (le_bytes(b, 8) + (le_bytes(c, 8) + le_bytes(d, 8)));
    assert(le_bytes(limbs_value(s), 32) == all);
}

/// Appending a byte that is zero does not change the number.
proof fn trailing_zero(s: Seq<u8>)
    ensures
        bytes_value(s.push(0)) == bytes_value(s),
    decreases s.len(),
{
    if s.len() > 0 {
        assert(s.push(0).drop_first() =~= s.drop_first().push(0));
        trailing_zero(s.drop_first());
    } else {
        assert(s.push(0).drop_first() =~= s);
    }
}

/// Where the limbs are given, so is the number.
pub proof fn limbs_value_4(s: Seq<u64>)
    requires
        s.len() == 4,
    ensures
        limbs_value(s) == s[0] + 0x1_0000_0000_0000_0000 * (s[1] + 0x1_0000_0000_0000_0000 * (s[2]
            + 0x1_0000_0000_0000_0000 * s[3])),
        limbs_value(s)
            < 0x1_0000_0000_0000_0000_0000_0000_0000_0000_0000_0000_0000_0000_0000_0000_0000_0000int,
{
    reveal_with_fuel(limbs_value, 5);
    assert(s.drop_first()[0] == s[1]);
    assert(s.drop_first().drop_first()[0] == s[2]);
    assert(s.drop_first().drop_first().drop_first()[0] == s[3]);
}

/// `256` to the powers that occur as sizes.
pub proof fn pow256_small()
    ensures
        pow256(4) == 0x1_0000_0000,
        pow256(8) == 0x1_0000_0000_0000_0000,
        pow256(32)
            == 0x1_0000_0000_0000_0000_0000_0000_0000_0000_0000_0000_0000_0000_0000_0000_0000_0000int,
{
    reveal_with_fuel(pow256, 9);
    pow256_adds(8, 8);
    pow256_adds(16, 16);
    let a = pow256(8) as int;
    let b = pow256(16) as int;
    assert(a * a == 0x1_0000_0000_0000_0000_0000_0000_0000_0000int) by (nonlinear_arith)
        requires
            a == 0x1_0000_0000_0000_0000,
    ;
    assert(b * b
        == 0x1_0000_0000_0000_0000_0000_0000_0000_0000_0000_0000_0000_0000_0000_0000_0000_0000int)
        by (nonlinear_arith)
        requires
            b == 0x1_0000_0000_0000_0000_0000_0000_0000_0000int,
    ;
}

/// The word at the front of a sequence of bytes.
proof fn front_word(s: Seq<u8>, w: u32)
    requires
        s.len() >= 4,
        w == s[0] + 256 * (s[1] + 256 * (s[2] + 256 * s[3])),
    ensures
        bytes_value(s) == w + 0x1_0000_0000 * bytes_value(s.skip(4)),
{
    reveal_with_fuel(bytes_value, 5);
    assert(s.drop_first()[0] == s[1]);
    assert(s.drop_first().drop_first()[0] == s[2]);
    assert(s.drop_first().drop_first().drop_first()[0] == s[3]);
    assert(s.drop_first().drop_first().drop_first().drop_first() =~= s.skip(4));
}

/// A word at the end of a sequence of words.
pub proof fn words_value_push(s: Seq<u32>, w: u32)
    ensures
        words_value(s.push(w)) == words_value(s) + pow256(4 * s.len()) * w,
    decreases s.len(),
{
    if s.len() == 0 {
        assert(s.push(w).drop_first() =~= s);
        reveal_with_fuel(words_value, 2);
        assert(pow256(4 * s.len()) == 1);
    } else {
        assert(s.push(w).drop_first() =~= s.drop_first().push(w));
        words_value_push(s.drop_first(), w);
        pow256_small();
        pow256_adds(4, (4 * s.len() - 4) as nat);
        let p = pow256((4 * s.len() - 4) as nat) as int;
        let wi = w as int;
        let pm = pow256(4 * s.len()) as int;
        assert(pm * wi == 0x1_0000_0000 * (p * wi)) by (nonlinear_arith)
            requires
                pm == 0x1_0000_0000 * p,
        ;
    }
}

/// The byte at an index, zero past the end.
pub open spec fn byte_at(s: Seq<u8>, i: int) -> int {
    if i < s.len() {
        s[i] as int
    } else {
        0
    }
}

/// The little-endian word of the four bytes from `4 * i` on.
pub open spec fn word_at(s: Seq<u8>, i: int) -> int {
    byte_at(s, 4 * i) + 256 * (byte_at(s, 4 * i + 1) + 256 * (byte_at(s, 4 * i + 2) + 256 * byte_at(
        s,
        4 * i + 3,
    )))
}

/// Convert bytes to 32 bit words in little-endian order.
///
/// The bytes are padded with zeros to a multiple of four. The words stand for the same number as
/// the bytes.
pub fn bytes_to_u32_limbs(bytes: Vec<u8>) -> (r: Vec<u32>)
    ensures
        r@.len() == crate::arith::ceil_div(bytes@.len() as int, 4),
        forall|i: int| 0 <= i < r@.len() ==> (#[trigger] r@[i]) == word_at(bytes@, i),
        words_value(r@) == bytes_value(bytes@),
{
    let mut bytes: Vec<u8> = bytes;
    let ghost input = bytes@;
    while bytes.len() % 4 != 0
        invariant
            bytes_value(bytes@) == bytes_value(input),
            input.len() <= bytes@.len(),
            forall|k: int| 0 <= k < bytes@.len() ==> #[trigger] bytes@[k] == byte_at(input, k),
            crate::arith::ceil_div(bytes@.len() as int, 4) == crate::arith::ceil_div(
                input.len() as int,
                4,
            ),
        decreases 4 * crate::arith::ceil_div(input.len() as int, 4) - bytes@.len(),
    {
        proof {
            trailing_zero(bytes@);
        }
        bytes.push(0);
    }
    let mut out: Vec<u32> = Vec::new();
    let mut i: usize = 0;
    assert(bytes@.skip(0) =~= bytes@);
    assert(pow256(0) * bytes_value(bytes@) == bytes_value(bytes@)) by (nonlinear_arith)
        requires
            pow256(0) == 1,
    ;
    while i < bytes.len()
        invariant
            i <= bytes@.len(),
            i % 4 == 0,
            bytes@.len() % 4 == 0,
            out@.len() * 4 == i,
            input.len() <= bytes@.len(),
            forall|k: int| 0 <= k < bytes@.len() ==> #[trigger] bytes@[k] == byte_at(input, k),
            forall|k: int| 0 <= k < out@.len() ==> (#[trigger] out@[k]) == word_at(input, k),
            bytes_value(bytes@) == words_value(out@) + pow256(i as nat) * bytes_value(
                bytes@.skip(i as int),
            ),
        decreases bytes@.len() - i,
    {
        let w: u32 = bytes[i] as u32 + 256 * (bytes[i + 1] as u32 + 256 * (bytes[i + 2] as u32 + 256
            * (bytes[i + 3] as u32)));
        proof {
            let rest = bytes@.skip(i as int);
            assert(rest[0] == bytes@[i as int] && rest[1] == bytes@[i + 1] && rest[2] == bytes@[i
                + 2] && rest[3] == bytes@[i + 3]);
            front_word(rest, w);
            assert(rest.skip(4) =~= bytes@.skip(i + 4));
            words_value_push(out@, w);
            pow256_small();
            pow256_adds(i as nat, 4);
            let p = pow256(i as nat) as int;
            let wi = w as int;
            let t = bytes_value(rest.skip(4)) as int;
            let q = pow256((i + 4) as nat) as int;
            assert(p * (wi + 0x1_0000_0000 * t) == p * wi + q * t) by (nonlinear_arith)
                requires
                    q == p * 0x1_0000_0000,
            ;
        }
        out.push(w);
        i = i + 4;
    }
    assert(bytes@.skip(i as int) =~= Seq::empty());
    assert(pow256(i as nat) * 0 == 0) by (nonlinear_arith);
    out
}

} // verus!
