//! Deterministic vault address derivation.
//!
//! A vault's storage address is the byte concatenation of the depositor's
//! identity, the beneficiary's identity (both as eight little-endian bytes),
//! the decimal text of the unlock time, and a one-byte disambiguation nonce.
//! The address is a pure function of these four inputs, so deriving it twice
//! yields the same bytes; it is also injective, so distinct inputs always
//! yield distinct addresses.

use vstd::prelude::*;

verus! {

/// `256^i`, the place value of the `i`-th little-endian byte.
pub open spec fn pow256(i: int) -> int
    decreases i,
{
    if i <= 0 {
        1
    } else {
        256 * pow256(i - 1)
    }
}

/// The `i`-th little-endian byte of `x`.
pub open spec fn le_byte(x: u64, i: int) -> u8 {
    (((x as int) / pow256(i)) % 256) as u8
}

/// The eight little-endian bytes of `x`.
pub open spec fn u64_le_bytes(x: u64) -> Seq<u8> {
    Seq::new(8, |i: int| le_byte(x, i))
}

/// The decimal digits of `n >= 0`, most significant first, as ASCII bytes.
pub open spec fn dec_digits(n: int) -> Seq<u8>
    decreases n,
{
    if n < 10 {
        seq![(48 + n) as u8]
    } else {
        dec_digits(n / 10).push((48 + n % 10) as u8)
    }
}

/// The decimal text of a signed value: a leading `-` for negatives.
pub open spec fn dec_text(t: int) -> Seq<u8> {
    if t < 0 {
        seq![45u8] + dec_digits(-t)
    } else {
        dec_digits(t)
    }
}

/// The address derived from a `(depositor, beneficiary, unlock_time)` triple
/// and a disambiguation nonce.
pub open spec fn derive_spec(depositor: u64, beneficiary: u64, unlock_time: i64, nonce: u8) -> Seq<
    u8,
> {
    u64_le_bytes(depositor) + u64_le_bytes(beneficiary) + dec_text(unlock_time as int) + seq![nonce]
}

proof fn lemma_pow256_pos(i: int)
    ensures
        pow256(i) >= 1,
    decreases i,
{
    if i > 0 {
        lemma_pow256_pos(i - 1);
    }
}

/// Appends the eight little-endian bytes of `x` to `out`.
fn push_le_bytes(out: &mut Vec<u8>, x: u64)
    ensures
        final(out)@ == old(out)@ + u64_le_bytes(x),
{
    let ghost orig: Seq<u8> = out@;
    let mut v: u64 = x;
    let mut i: usize = 0;
    while i < 8
        invariant
            0 <= i <= 8,
            v as int == (x as int) / pow256(i as int),
            out@ == orig + Seq::new(i as nat, |j: int| le_byte(x, j)),
        decreases 8 - i,
    {
        proof {
            lemma_pow256_pos(i as int);
        }
        let b: u8 = (v % 256) as u8;
        assert(b == le_byte(x, i as int));
        out.push(b);
        proof {
            vstd::arithmetic::div_mod::lemma_div_denominator(x as int, pow256(i as int), 256);
            assert(Seq::new((i + 1) as nat, |j: int| le_byte(x, j)) =~= Seq::new(
                i as nat,
                |j: int| le_byte(x, j),
            ).push(le_byte(x, i as int)));
            assert(orig + Seq::new(i as nat, |j: int| le_byte(x, j)).push(le_byte(x, i as int))
                =~= (orig + Seq::new(i as nat, |j: int| le_byte(x, j))).push(le_byte(x, i as int)));
        }
        v = v / 256;
        i = i + 1;
    }
    proof {
        assert(out@ =~= orig + u64_le_bytes(x));
    }
}

/// Appends the decimal digits of `n` to `out`, most significant first.
fn push_decimal(out: &mut Vec<u8>, n: u64)
    ensures
        final(out)@ == old(out)@ + dec_digits(n as int),
    decreases n,
{
    if n >= 10 {
        push_decimal(out, n / 10);
    }
    let d: u8 = 48 + (n % 10) as u8;
    out.push(d);
    proof {
        if n >= 10 {
            assert((old(out)@ + dec_digits(n as int / 10)).push(d) =~= old(out)@ + dec_digits(
                n as int / 10,
            ).push(d));
        } else {
            assert(old(out)@.push(d) =~= old(out)@ + seq![d]);
        }
    }
}

/// Derives the vault address for the given triple and nonce.
///
/// The result is a pure function of the four arguments: two calls with equal
/// arguments return equal bytes.
pub fn derive_address(depositor: u64, beneficiary: u64, unlock_time: i64, nonce: u8) -> (r: Vec<u8>)
    ensures
        r@ == derive_spec(depositor, beneficiary, unlock_time, nonce),
{
    let mut out: Vec<u8> = Vec::new();
    push_le_bytes(&mut out, depositor);
    push_le_bytes(&mut out, beneficiary);
    if unlock_time < 0 {
        out.push(45u8);
    }
    let wide: i128 = unlock_time as i128;
    let magnitude: u64 = if wide < 0 {
        (-wide) as u64
    } else {
        wide as u64
    };
    push_decimal(&mut out, magnitude);
    out.push(nonce);
    proof {
        assert(magnitude as int == if unlock_time < 0 {
            -(unlock_time as int)
        } else {
            unlock_time as int
        });
        assert(out@ =~= derive_spec(depositor, beneficiary, unlock_time, nonce));
    }
    out
}

proof fn lemma_dec_digits_props(n: int)
    requires
        n >= 0,
    ensures
        dec_digits(n).len() >= 1,
        forall|i: int|
            0 <= i < dec_digits(n).len() ==> 48 <= #[trigger] dec_digits(n)[i] && dec_digits(
                n,
            )[i] <= 57,
        (n < 10) == (dec_digits(n).len() == 1),
    decreases n,
{
    if n >= 10 {
        lemma_dec_digits_props(n / 10);
        let prev = dec_digits(n / 10);
        assert forall|i: int|
            0 <= i < dec_digits(n).len() implies 48 <= #[trigger] dec_digits(n)[i] && dec_digits(
            n,
        )[i] <= 57 by {
            if i < prev.len() {
                assert(dec_digits(n)[i] == prev[i]);
            }
        }
    }
}

proof fn lemma_dec_digits_injective(a: int, b: int)
    requires
        a >= 0,
        b >= 0,
        dec_digits(a) == dec_digits(b),
    ensures
        a == b,
    decreases a,
{
    lemma_dec_digits_props(a);
    lemma_dec_digits_props(b);
    if a < 10 && b < 10 {
        assert(dec_digits(a)[0] == (48 + a) as u8);
        assert(dec_digits(b)[0] == (48 + b) as u8);
    } else if a >= 10 && b >= 10 {
        let da = dec_digits(a / 10);
        let db = dec_digits(b / 10);
        assert(dec_digits(a).last() == (48 + a % 10) as u8);
        assert(dec_digits(b).last() == (48 + b % 10) as u8);
        assert(a % 10 == b % 10);
        assert(da =~= dec_digits(a).drop_last());
        assert(db =~= dec_digits(b).drop_last());
        lemma_dec_digits_injective(a / 10, b / 10);
        vstd::arithmetic::div_mod::lemma_fundamental_div_mod(a, 10);
        vstd::arithmetic::div_mod::lemma_fundamental_div_mod(b, 10);
    } else {
        assert(dec_digits(a).len() == dec_digits(b).len());
        assert(false);
    }
}

proof fn lemma_dec_text_injective(t1: int, t2: int)
    requires
        dec_text(t1) == dec_text(t2),
    ensures
        t1 == t2,
{
    lemma_dec_digits_props(if t1 < 0 {
        -t1
    } else {
        t1
    });
    lemma_dec_digits_props(if t2 < 0 {
        -t2
    } else {
        t2
    });
    if t1 < 0 && t2 < 0 {
        let g1 = dec_digits(-t1);
        let g2 = dec_digits(-t2);
        assert(dec_text(t1).len() == 1 + g1.len());
        assert(dec_text(t2).len() == 1 + g2.len());
        assert(g1.len() == g2.len());
        assert(g1 =~= g2) by {
            assert forall|i: int| 0 <= i < g1.len() implies g1[i] == g2[i] by {
                assert(dec_text(t1)[i + 1] == g1[i]);
                assert(dec_text(t2)[i + 1] == g2[i]);
            }
        }
        lemma_dec_digits_injective(-t1, -t2);
    } else if t1 >= 0 && t2 >= 0 {
        lemma_dec_digits_injective(t1, t2);
    } else if t1 < 0 {
        assert(dec_text(t1)[0] == 45u8);
        assert(dec_text(t2)[0] == dec_digits(t2)[0]);
        assert(false);
    } else {
        assert(dec_text(t2)[0] == 45u8);
        assert(dec_text(t1)[0] == dec_digits(t1)[0]);
        assert(false);
    }
}

proof fn lemma_le_reconstruct(x: int, y: int, k: int)
    requires
        0 <= x < pow256(k),
        0 <= y < pow256(k),
        forall|i: int| 0 <= i < k ==> #[trigger] (x / pow256(i)) % 256 == (y / pow256(i)) % 256,
    ensures
        x == y,
    decreases k,
{
    if k <= 0 {
        assert(pow256(k) == 1);
    } else {
        assert(pow256(0) == 1);
        assert((x / pow256(0)) % 256 == (y / pow256(0)) % 256);
        assert(x / 1 == x) by {
            vstd::arithmetic::div_mod::lemma_fundamental_div_mod(x, 1);
        }
        assert(y / 1 == y) by {
            vstd::arithmetic::div_mod::lemma_fundamental_div_mod(y, 1);
        }
        let x1 = x / 256;
        let y1 = y / 256;
        lemma_pow256_pos(k - 1);
        assert(pow256(k) == 256 * pow256(k - 1));
        vstd::arithmetic::div_mod::lemma_multiply_divide_lt(x, 256, pow256(k - 1));
        vstd::arithmetic::div_mod::lemma_multiply_divide_lt(y, 256, pow256(k - 1));
        assert forall|i: int| 0 <= i < k - 1 implies #[trigger] (x1 / pow256(i)) % 256 == (y1
            / pow256(i)) % 256 by {
            lemma_pow256_pos(i);
            vstd::arithmetic::div_mod::lemma_div_denominator(x, 256, pow256(i));
            vstd::arithmetic::div_mod::lemma_div_denominator(y, 256, pow256(i));
            assert(256 * pow256(i) == pow256(i + 1));
            assert((x / pow256(i + 1)) % 256 == (y / pow256(i + 1)) % 256);
        }
        lemma_le_reconstruct(x1, y1, k - 1);
        vstd::arithmetic::div_mod::lemma_fundamental_div_mod(x, 256);
        vstd::arithmetic::div_mod::lemma_fundamental_div_mod(y, 256);
    }
}

proof fn lemma_le_bytes_injective(x: u64, y: u64)
    requires
        u64_le_bytes(x) == u64_le_bytes(y),
    ensures
        x == y,
{
    assert(pow256(1) == 256 * pow256(0));
    assert(pow256(2) == 256 * pow256(1));
    assert(pow256(3) == 256 * pow256(2));
    assert(pow256(4) == 256 * pow256(3));
    assert(pow256(5) == 256 * pow256(4));
    assert(pow256(6) == 256 * pow256(5));
    assert(pow256(7) == 256 * pow256(6));
    assert(pow256(8) == 256 * pow256(7));
    assert forall|i: int| 0 <= i < 8 implies #[trigger] ((x as int) / pow256(i)) % 256 == ((
    y as int) / pow256(i)) % 256 by {
        assert(u64_le_bytes(x)[i] == le_byte(x, i));
        assert(u64_le_bytes(y)[i] == le_byte(y, i));
        lemma_pow256_pos(i);
    }
    lemma_le_reconstruct(x as int, y as int, 8);
}

/// The derivation is injective: equal addresses can only come from the same
/// depositor, beneficiary, unlock time, and nonce.  Vaults made from
/// different inputs therefore never collide; a collision can only mean the
/// same vault already exists.
pub proof fn lemma_derive_injective(
    d1: u64,
    b1: u64,
    t1: i64,
    n1: u8,
    d2: u64,
    b2: u64,
    t2: i64,
    n2: u8,
)
    requires
        derive_spec(d1, b1, t1, n1) == derive_spec(d2, b2, t2, n2),
    ensures
        d1 == d2,
        b1 == b2,
        t1 == t2,
        n1 == n2,
{
    let s1 = derive_spec(d1, b1, t1, n1);
    let s2 = derive_spec(d2, b2, t2, n2);
    let g1 = dec_text(t1 as int);
    let g2 = dec_text(t2 as int);
    assert(s1.len() == 17 + g1.len());
    assert(s2.len() == 17 + g2.len());
    assert(u64_le_bytes(d1) =~= u64_le_bytes(d2)) by {
        assert forall|i: int| 0 <= i < 8 implies u64_le_bytes(d1)[i] == u64_le_bytes(d2)[i] by {
            assert(s1[i] == u64_le_bytes(d1)[i]);
            assert(s2[i] == u64_le_bytes(d2)[i]);
        }
    }
    lemma_le_bytes_injective(d1, d2);
    assert(u64_le_bytes(b1) =~= u64_le_bytes(b2)) by {
        assert forall|i: int| 0 <= i < 8 implies u64_le_bytes(b1)[i] == u64_le_bytes(b2)[i] by {
            assert(s1[i + 8] == u64_le_bytes(b1)[i]);
            assert(s2[i + 8] == u64_le_bytes(b2)[i]);
        }
    }
    lemma_le_bytes_injective(b1, b2);
    assert(g1 =~= g2) by {
        assert forall|i: int| 0 <= i < g1.len() implies g1[i] == g2[i] by {
            assert(s1[i + 16] == g1[i]);
            assert(s2[i + 16] == g2[i]);
        }
    }
    lemma_dec_text_injective(t1 as int, t2 as int);
    assert(s1[16 + g1.len() as int] == n1);
    assert(s2[16 + g2.len() as int] == n2);
}

/// Distinct nonces derive distinct addresses for the same triple.
pub proof fn lemma_distinct_nonce(depositor: u64, beneficiary: u64, unlock_time: i64, n1: u8, n2: u8)
    requires
        n1 != n2,
    ensures
        derive_spec(depositor, beneficiary, unlock_time, n1) != derive_spec(
            depositor,
            beneficiary,
            unlock_time,
            n2,
        ),
{
    let prefix = u64_le_bytes(depositor) + u64_le_bytes(beneficiary) + dec_text(
        unlock_time as int,
    );
    let s1 = derive_spec(depositor, beneficiary, unlock_time, n1);
    let s2 = derive_spec(depositor, beneficiary, unlock_time, n2);
    assert(s1[prefix.len() as int] == n1);
    assert(s2[prefix.len() as int] == n2);
}

} // verus!
