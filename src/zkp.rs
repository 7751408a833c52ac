//! The proof arithmetic: modular exponentiation, the prover's response and
//! the verifier's two equations, over a fixed group.

use crate::bignum::{be_value, pow_mod, BigNat};
use vstd::arithmetic::div_mod::{lemma_mod_add_multiples_vanish, lemma_mul_mod_noop, lemma_sub_mod_noop_right};
use vstd::arithmetic::power::pow;
use vstd::prelude::*;

verus! {

/// The prover's response `(k - c * x) mod q`, as a residue in `[0, q)`.
pub open spec fn response(k: nat, c: nat, x: nat, q: nat) -> nat
    recommends
        q > 0,
{
    ((k as int - c as int * x as int) % (q as int)) as nat
}

/// The two verification equations:
/// `r1 == alpha^s * y1^c mod p` and `r2 == beta^s * y2^c mod p`.
pub open spec fn accepts(
    r1: nat,
    r2: nat,
    y1: nat,
    y2: nat,
    c: nat,
    s: nat,
    alpha: nat,
    beta: nat,
    p: nat,
) -> bool {
    &&& r1 as int == (pow(alpha as int, s) * pow(y1 as int, c)) % (p as int)
    &&& r2 as int == (pow(beta as int, s) * pow(y2 as int, c)) % (p as int)
}

/// The group: modulus `p`, subgroup order `q` and the generators `alpha`, `beta`.
pub struct ZKP {
    pub p: BigNat,
    pub q: BigNat,
    pub alpha: BigNat,
    pub beta: BigNat,
}

impl ZKP {
    /// What the arithmetic needs of the parameters: a modulus above one and a
    /// positive order.
    pub open spec fn wf(&self) -> bool {
        self.p@ > 1 && self.q@ > 0
    }

    /// `n ^ exponent mod modulus`.
    pub fn exponentiate(n: &BigNat, exponent: &BigNat, modulus: &BigNat) -> (r: BigNat)
        requires
            modulus@ > 0,
        ensures
            r@ == pow_mod(n@, exponent@, modulus@),
    {
        n.modpow(exponent, modulus)
    }

    /// The response `s = (k - c * x) mod q`, always in `[0, q)`. The reduction
    /// is unconditional: `(k + (q - (c * x mod q))) mod q`, with no branch on
    /// how `k` compares with `c * x`.
    pub fn solve(&self, k: &BigNat, c: &BigNat, x: &BigNat) -> (s: BigNat)
        requires
            self.q@ > 0,
        ensures
            s@ == response(k@, c@, x@, self.q@),
            s@ < self.q@,
    {
        let cx = c.mul(x).rem(&self.q);
        let s = k.add(&self.q.sub(&cx)).rem(&self.q);
        proof {
            let (ki, ci, qi) = (k@ as int, c@ as int * x@ as int, self.q@ as int);
            lemma_sub_mod_noop_right(ki, ci, qi);
            lemma_mod_add_multiples_vanish(ki - ci % qi, qi);
        }
        s
    }

    /// Whether `(r1, r2)`, `(y1, y2)`, `c` and `s` satisfy both verification
    /// equations of the group.
    pub fn verify(
        &self,
        r1: &BigNat,
        r2: &BigNat,
        y1: &BigNat,
        y2: &BigNat,
        c: &BigNat,
        s: &BigNat,
    ) -> (ok: bool)
        requires
            self.p@ > 0,
        ensures
            ok == accepts(r1@, r2@, y1@, y2@, c@, s@, self.alpha@, self.beta@, self.p@),
    {
        let e1 = self.alpha.modpow(s, &self.p).mul(&y1.modpow(c, &self.p)).rem(&self.p);
        let e2 = self.beta.modpow(s, &self.p).mul(&y2.modpow(c, &self.p)).rem(&self.p);
        proof {
            let p = self.p@ as int;
            lemma_mul_mod_noop(pow(self.alpha@ as int, s@), pow(y1@ as int, c@), p);
            lemma_mul_mod_noop(pow(self.beta@ as int, s@), pow(y2@ as int, c@), p);
        }
        let cond1 = *r1 == e1;
        let cond2 = *r2 == e2;
        cond1 && cond2
    }

    /// A number drawn uniformly from `[0, limit)`.
    pub fn generate_random_number(limit: &BigNat) -> (r: BigNat)
        requires
            limit@ > 0,
        ensures
            r@ < limit@,
    {
        BigNat::random_below(limit)
    }
}

} // verus!
