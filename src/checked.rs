//! Exponentiation that reports overflow instead of wrapping or panicking.
use vstd::prelude::*;
use vstd::arithmetic::power::{
    lemma_pow0, lemma_pow1, lemma_pow_adds, lemma_pow_increases, lemma_pow_multiplies,
    lemma_pow_positive, lemma_square_is_pow2, pow as power,
};

verus! {

/// One step of square-and-multiply: `b^e == (b*b)^(e/2) * b^(e%2)`.
proof fn lemma_pow_halve(b: int, e: nat)
    ensures
        power(b, e) == power(b * b, e / 2) * (if e % 2 == 1 { b } else { 1 }),
{
    let h = e / 2;
    let r = e % 2;
    assert(e == 2 * h + r);
    lemma_pow_adds(b, 2 * h, r);
    lemma_pow_multiplies(b, 2, h);
    lemma_square_is_pow2(b);
    lemma_pow1(b);
    lemma_pow0(b);
}

/// Raises `base` to the power `exp` by square-and-multiply. Every product is
/// checked, and the first one that leaves `usize` makes the result `None`.
pub fn pow(base: usize, exp: u32) -> (r: Option<usize>)
    ensures
        r is Some <==> power(base as int, exp as nat) <= usize::MAX,
        r matches Some(v) ==> v == power(base as int, exp as nat),
{
    let ghost b0 = base as int;
    let ghost e0 = exp as nat;
    let mut cur = base;
    let mut n = exp;
    let mut acc: usize = 1;
    while n > 1
        invariant
            acc * power(cur as int, n as nat) == power(b0, e0),
            cur == 0 || acc >= 1,
            b0 == base as int,
            e0 == exp as nat,
        decreases n,
    {
        let ghost b = cur as int;
        let ghost e = n as nat;
        let ghost h = (n / 2) as nat;
        proof {
            lemma_pow_halve(b, e);
        }
        if (n & 1) == 1 {
            assert(n % 2 == 1) by (bit_vector)
                requires
                    n & 1 == 1u32,
            ;
            assert(power(b, e) == power(b * b, h) * b);
            match acc.checked_mul(cur) {
                Some(a) => {
                    assert(acc * (power(b * b, h) * b) == a * power(b * b, h)) by (nonlinear_arith)
                        requires
                            a == acc * b,
                    ;
                    assert(b == 0 || a >= 1) by (nonlinear_arith)
                        requires
                            a == acc * b,
                            b == 0 || acc >= 1,
                            b >= 0,
                    ;
                    acc = a;
                },
                None => {
                    proof {
                        assert(b > 0 && b * b > 0) by (nonlinear_arith)
                            requires
                                acc * b > usize::MAX,
                                b >= 0,
                        ;
                        lemma_pow_positive(b * b, h);
                    }
                    assert(acc * (power(b * b, h) * b) >= acc * b) by (nonlinear_arith)
                        requires
                            power(b * b, h) >= 1,
                            acc * b >= 0,
                            b >= 0,
                            acc >= 0,
                    ;
                    return None;
                },
            }
        } else {
            assert(n % 2 == 0) by (bit_vector)
                requires
                    n & 1 != 1u32,
            ;
            assert(power(b, e) == power(b * b, h) * 1);
            assert(acc * (power(b * b, h) * 1) == acc * power(b * b, h));
        }
        n = n / 2;
        match cur.checked_mul(cur) {
            Some(sq) => cur = sq,
            None => {
                proof {
                    assert(b * b > 0) by (nonlinear_arith)
                        requires
                            b * b > usize::MAX,
                    ;
                    lemma_pow_increases((b * b) as nat, 1, h);
                    lemma_pow1(b * b);
                    assert(acc * power(b * b, h) >= power(b * b, h)) by (nonlinear_arith)
                        requires
                            acc >= 1,
                            power(b * b, h) >= 0,
                    ;
                }
                return None;
            },
        }
    }
    if n == 1 {
        proof {
            lemma_pow1(cur as int);
            assert(acc * power(cur as int, 1) == acc * cur);
        }
        match acc.checked_mul(cur) {
            Some(a) => acc = a,
            None => return None,
        }
    } else {
        proof {
            lemma_pow0(cur as int);
        }
    }
    Some(acc)
}

} // verus!
