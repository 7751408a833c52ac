//! Properties of the protocol that relate several of its operations.

use crate::auth::AuthImpl;
use crate::bignum::pow_mod;
use crate::zkp::{accepts, response};
use vstd::arithmetic::div_mod::{
    lemma_fundamental_div_mod, lemma_mod_multiples_basic, lemma_mul_mod_noop, lemma_mul_mod_noop_left,
    lemma_mul_mod_noop_right, lemma_small_mod,
};
use vstd::arithmetic::power::{
    lemma1_pow, lemma_pow0, lemma_pow_distributes, lemma_pow1, lemma_pow_adds, lemma_pow_mod_noop, lemma_pow_multiplies, pow,
};
use vstd::prelude::*;

verus! {

/// For a generator `g` of order dividing `q` modulo `p`, the verifier's
/// right-hand side for `(g, g^x)` reproduces the commitment `g^k`.
proof fn lemma_one_equation(p: nat, q: nat, g: nat, x: nat, k: nat, c: nat)
    requires
        p > 1,
        q > 0,
        k < q,
        pow_mod(g, q, p) == 1,
    ensures
        pow_mod(g, k, p) as int == (pow(g as int, response(k, c, x, q)) * pow(
            pow_mod(g, x, p) as int,
            c,
        )) % (p as int),
{
    let (pi, gi) = (p as int, g as int);
    let s = response(k, c, x, q);
    let gx = pow(gi, x);
    // (g^x mod p)^c == g^(x c) modulo p
    lemma_pow_mod_noop(gx, c, pi);
    lemma_pow_multiplies(gi, x, c);
    lemma_mul_mod_noop_right(pow(gi, s), pow(gx % pi, c), pi);
    lemma_mul_mod_noop_right(pow(gi, s), pow(gx, c), pi);
    lemma_pow_adds(gi, s, x * c);
    // s + x c == k + q j with j >= 0, since s == (k - c x) mod q and k < q
    let d = (s + x * c) as int - k as int;
    lemma_fundamental_div_mod(k as int - c as int * x as int, q as int);
    assert(d == q as int * (-((k as int - c as int * x as int) / (q as int)))) by (nonlinear_arith)
        requires
            s as int == (k as int - c as int * x as int) % (q as int),
            d == (s + x * c) as int - k as int,
            k as int - c as int * x as int == (q as int) * ((k as int - c as int * x as int) / (q as int))
                + (k as int - c as int * x as int) % (q as int),
    ;
    let j: int = -((k as int - c as int * x as int) / (q as int));
    assert(j >= 0) by (nonlinear_arith)
        requires
            d == q as int * j,
            d > -(q as int),
            q > 0,
    ;
    let jn = j as nat;
    assert(s + x * c == k + q * jn) by (nonlinear_arith)
        requires
            d == q as int * j,
            d == (s + x * c) as int - k as int,
            jn == j,
    ;
    lemma_pow_adds(gi, k, q * jn);
    lemma_pow_multiplies(gi, q, jn);
    let gq = pow(gi, q);
    let gk = pow(gi, k);
    // (g^q)^j == 1 modulo p
    assert(gq % pi == 1);
    lemma_pow_mod_noop(gq, jn, pi);
    lemma1_pow(jn);
    assert(pow(gq % pi, jn) == 1);
    lemma_small_mod(1, p);
    assert(pow(gq, jn) % pi == 1);
    lemma_mul_mod_noop_right(gk, pow(gq, jn), pi);
    assert(gk * 1 == gk);
    assert(pow(gi, s + x * c) == gk * pow(gq, jn));
    assert((pow(gi, s) * pow(gx, c)) % pi == gk % pi);
    assert((pow(gi, s) * pow(gx % pi, c)) % pi == gk % pi);
}

/// Completeness: over a group whose generators `alpha` and `beta` have order
/// dividing `q` modulo `p`, an honest prover with any secret `x` and a nonce `k` in
/// `[0, q)` registers `(alpha^x, beta^x)`, commits `(alpha^k, beta^k)`, and
/// its response to any challenge `c` is accepted.
pub proof fn lemma_completeness(p: nat, q: nat, alpha: nat, beta: nat, x: nat, k: nat, c: nat)
    requires
        p > 1,
        q > 0,
        pow_mod(alpha, q, p) == 1,
        pow_mod(beta, q, p) == 1,
        k < q,
    ensures
        accepts(
            pow_mod(alpha, k, p),
            pow_mod(beta, k, p),
            pow_mod(alpha, x, p),
            pow_mod(beta, x, p),
            c,
            response(k, c, x, q),
            alpha,
            beta,
            p,
        ),
{
    lemma_one_equation(p, q, alpha, x, k, c);
    lemma_one_equation(p, q, beta, x, k, c);
}

/// Determinism: `exponentiate` and `solve` give equal results on equal
/// inputs (their results are `pow_mod` and `response` of the inputs), and a
/// response lies in `[0, q)`.
pub proof fn lemma_math_is_pure(
    n: nat,
    e: nat,
    m: nat,
    n2: nat,
    e2: nat,
    m2: nat,
    k: nat,
    c: nat,
    x: nat,
    k2: nat,
    c2: nat,
    x2: nat,
    q: nat,
)
    requires
        m > 0,
        q > 0,
    ensures
        n == n2 && e == e2 && m == m2 ==> pow_mod(n, e, m) == pow_mod(n2, e2, m2),
        k == k2 && c == c2 && x == x2 ==> response(k, c, x, q) == response(k2, c2, x2, q),
        response(k, c, x, q) < q,
{
}

/// An accepted transcript stops being accepted when either half of the
/// commitment, `r1` or `r2`, is replaced by a different number.
pub proof fn lemma_commitment_change_rejected(
    r1: nat,
    r2: nat,
    y1: nat,
    y2: nat,
    c: nat,
    s: nat,
    alpha: nat,
    beta: nat,
    p: nat,
    other: nat,
)
    requires
        accepts(r1, r2, y1, y2, c, s, alpha, beta, p),
    ensures
        other != r1 ==> !accepts(other, r2, y1, y2, c, s, alpha, beta, p),
        other != r2 ==> !accepts(r1, other, y1, y2, c, s, alpha, beta, p),
{
}

/// Attempts are isolated: when two challenges are opened one after the
/// other under distinct tokens (for the same user or not), the first
/// attempt's record still holds its own commitment and challenge, and
/// closing the second attempt leaves it as well.
pub proof fn lemma_attempts_isolated(
    s0: AuthImpl,
    s1: AuthImpl,
    s2: AuthImpl,
    s3: AuthImpl,
    a: Seq<char>,
    ra: (Seq<char>, nat, nat, nat),
    b: Seq<char>,
    rb: (Seq<char>, nat, nat, nat),
)
    requires
        a != b,
        s1.challenges() == s0.challenges().insert(a, ra),
        s2.challenges() == s1.challenges().insert(b, rb),
        s3.challenges() == s2.challenges().remove(b),
    ensures
        s2.challenges().contains_key(a),
        s2.challenges()[a] == ra,
        s2.challenges()[b] == rb,
        s3.challenges().contains_key(a),
        s3.challenges()[a] == ra,
{
}

/// Each of two attempts opened one after the other for the same user is
/// checked against its own commitment and challenge: over a group whose
/// generators have order dividing `q` modulo `p`, with the user registered
/// under secret `x`, the honest response to either attempt satisfies the
/// equations that `verify_authentication` checks for that attempt's token,
/// the later one included.
pub proof fn lemma_each_attempt_checked_against_own_challenge(
    s0: AuthImpl,
    s1: AuthImpl,
    s2: AuthImpl,
    u: Seq<char>,
    x: nat,
    a: Seq<char>,
    ka: nat,
    ca: nat,
    b: Seq<char>,
    kb: nat,
    cb: nat,
)
    requires
        s0.group().p@ > 1,
        s0.group().q@ > 0,
        pow_mod(s0.group().alpha@, s0.group().q@, s0.group().p@) == 1,
        pow_mod(s0.group().beta@, s0.group().q@, s0.group().p@) == 1,
        s1.group() == s0.group(),
        s2.group() == s0.group(),
        s0.users().contains_key(u),
        s0.users()[u] == (
            pow_mod(s0.group().alpha@, x, s0.group().p@),
            pow_mod(s0.group().beta@, x, s0.group().p@),
        ),
        s1.users() == s0.users(),
        s2.users() == s0.users(),
        a != b,
        ka < s0.group().q@,
        kb < s0.group().q@,
        s1.challenges() == s0.challenges().insert(
            a,
            (
                u,
                pow_mod(s0.group().alpha@, ka, s0.group().p@),
                pow_mod(s0.group().beta@, ka, s0.group().p@),
                ca,
            ),
        ),
        s2.challenges() == s1.challenges().insert(
            b,
            (
                u,
                pow_mod(s0.group().alpha@, kb, s0.group().p@),
                pow_mod(s0.group().beta@, kb, s0.group().p@),
                cb,
            ),
        ),
    ensures
        ({
            let g = s2.group();
            let (name, r1, r2, c) = s2.challenges()[b];
            &&& s2.challenges().contains_key(b)
            &&& s2.users().contains_key(name)
            &&& accepts(
                r1,
                r2,
                s2.users()[name].0,
                s2.users()[name].1,
                c,
                response(kb, cb, x, g.q@),
                g.alpha@,
                g.beta@,
                g.p@,
            )
        }),
        ({
            let g = s2.group();
            let (name, r1, r2, c) = s2.challenges()[a];
            &&& s2.challenges().contains_key(a)
            &&& s2.users().contains_key(name)
            &&& accepts(
                r1,
                r2,
                s2.users()[name].0,
                s2.users()[name].1,
                c,
                response(ka, ca, x, g.q@),
                g.alpha@,
                g.beta@,
                g.p@,
            )
        }),
{
    let g = s0.group();
    lemma_completeness(g.p@, g.q@, g.alpha@, g.beta@, x, kb, cb);
    lemma_completeness(g.p@, g.q@, g.alpha@, g.beta@, x, ka, ca);
}

/// `q` is prime.
pub open spec fn is_prime(q: nat) -> bool {
    &&& q > 1
    &&& forall|d: nat| 1 < d < q ==> #[trigger] (q % d) != 0
}

/// When `g^m == 1` modulo `p`, powers of `g` depend on the exponent modulo `m`.
proof fn lemma_pow_reduce(g: int, p: int, m: nat, e: nat)
    requires
        p > 1,
        m > 0,
        pow(g, m) % p == 1,
    ensures
        pow(g, e) % p == pow(g, e % m) % p,
{
    let (qq, r) = (e / m, e % m);
    lemma_fundamental_div_mod(e as int, m as int);
    assert(e == m * qq + r);
    lemma_pow_adds(g, m * qq, r);
    lemma_pow_multiplies(g, m, qq);
    lemma_pow_mod_noop(pow(g, m), qq, p);
    lemma1_pow(qq);
    lemma_small_mod(1, p as nat);
    assert(pow(pow(g, m), qq) % p == 1);
    lemma_mul_mod_noop_left(pow(pow(g, m), qq), pow(g, r), p);
    assert(1 * pow(g, r) == pow(g, r));
}

/// If `g^a == g^b == 1` modulo `p`, then `g^d == 1` for a common divisor `d`
/// of `a` and `b` (Euclid's algorithm on the exponents).
proof fn lemma_common_divisor_order(g: int, p: int, a: nat, b: nat) -> (d: nat)
    requires
        p > 1,
        a > 0,
        pow(g, a) % p == 1,
        pow(g, b) % p == 1,
    ensures
        d > 0,
        d <= a,
        a % d == 0,
        b % d == 0,
        pow(g, d) % p == 1,
    decreases b,
{
    if b == 0 {
        lemma_mod_multiples_basic(1, a as int);
        lemma_mod_multiples_basic(0, a as int);
        a
    } else {
        let r = a % b;
        lemma_pow_reduce(g, p, b, a);
        let d = lemma_common_divisor_order(g, p, b, r);
        lemma_fundamental_div_mod(a as int, b as int);
        lemma_fundamental_div_mod(b as int, d as int);
        lemma_fundamental_div_mod(r as int, d as int);
        let (m1, m2, k) = (b / d, r / d, a / b);
        assert(a == d * (m1 * k + m2)) by (nonlinear_arith)
            requires
                a == b * k + r,
                b == d * m1,
                r == d * m2,
        ;
        lemma_mod_multiples_basic((m1 * k + m2) as int, d as int);
        assert(d <= a) by (nonlinear_arith)
            requires
                a == d * (m1 * k + m2),
                a > 0,
                d > 0,
                m1 * k + m2 >= 0,
        ;
        d
    }
}

/// In a subgroup of prime order `q`, two powers of a non-identity element
/// agree only when their exponents agree modulo `q`.
proof fn lemma_equal_powers(g: int, p: int, q: nat, e1: nat, e2: nat)
    requires
        p > 1,
        is_prime(q),
        pow(g, q) % p == 1,
        g % p != 1,
        pow(g, e1) % p == pow(g, e2) % p,
    ensures
        e1 % q == e2 % q,
    decreases (if e1 > e2 { 1nat } else { 0nat }),
{
    if e1 > e2 {
        lemma_equal_powers(g, p, q, e2, e1);
    } else if e1 < e2 {
        let d = (e2 - e1) as nat;
        lemma_pow_adds(g, e1, d);
        // cancel g^e1 by multiplying with g^w, w + e1 == 0 modulo q
        let w = (q - e1 % q) as nat;
        lemma_fundamental_div_mod(e1 as int, q as int);
        assert((w + e1) % q == 0) by {
            let (ei, qi) = (e1 as int, q as int);
            lemma_fundamental_div_mod(ei, qi);
            let (dq, rm, wi) = (ei / qi, ei % qi, w as int);
            assert(wi + ei == (dq + 1) * qi) by (nonlinear_arith)
                requires
                    wi == qi - rm,
                    ei == qi * dq + rm,
            ;
            lemma_mod_multiples_basic(ei / qi + 1, qi);
        }
        lemma_pow_reduce(g, p, q, w + e1);
        lemma_pow0(g);
        lemma_small_mod(1, p as nat);
        lemma_pow_adds(g, w, e1);
        lemma_mul_mod_noop_right(pow(g, w), pow(g, e1), p);
        lemma_mul_mod_noop_right(pow(g, w), pow(g, e1) * pow(g, d), p);
        assert(pow(g, w) * (pow(g, e1) * pow(g, d)) == pow(g, w + e1) * pow(g, d)) by (nonlinear_arith)
            requires
                pow(g, w + e1) == pow(g, w) * pow(g, e1),
        ;
        lemma_mul_mod_noop_left(pow(g, w + e1), pow(g, d), p);
        assert(1 * pow(g, d) == pow(g, d));
        assert(pow(g, d) % p == 1);
        if d % q != 0 {
            lemma_pow_reduce(g, p, q, d);
            let r = d % q;
            let c = lemma_common_divisor_order(g, p, q, r);
            assert(c <= r) by (nonlinear_arith)
                requires
                    r % c == 0,
                    c > 0,
                    r > 0,
            {
                lemma_fundamental_div_mod(r as int, c as int);
            }
            assert(!(1 < c < q));
            lemma_pow1(g);
            assert(false);
        }
        lemma_fundamental_div_mod(d as int, q as int);
        assert(e2 == q * (d / q) + e1);
        vstd::arithmetic::div_mod::lemma_mod_multiples_vanish((d / q) as int, e1 as int, q as int);
    }
}

/// Multiplying by a power of `g`, where `g^q == 1` modulo `p`, can be undone.
proof fn lemma_cancel_power(g: int, p: int, q: nat, t: nat, u: int, v: int)
    requires
        p > 1,
        q > 0,
        pow(g, q) % p == 1,
        (pow(g, t) * u) % p == (pow(g, t) * v) % p,
    ensures
        u % p == v % p,
{
    let w = (q - t % q) as nat;
    assert((w + t) % q == 0) by {
        let (ti, qi) = (t as int, q as int);
        lemma_fundamental_div_mod(ti, qi);
        let (dq, rm, wi) = (ti / qi, ti % qi, w as int);
        assert(wi + ti == (dq + 1) * qi) by (nonlinear_arith)
            requires
                wi == qi - rm,
                ti == qi * dq + rm,
        ;
        lemma_mod_multiples_basic(dq + 1, qi);
    }
    lemma_pow_reduce(g, p, q, w + t);
    lemma_pow0(g);
    lemma_small_mod(1, p as nat);
    lemma_pow_adds(g, w, t);
    assert(pow(g, w) * (pow(g, t) * u) == pow(g, w + t) * u) by (nonlinear_arith)
        requires
            pow(g, w + t) == pow(g, w) * pow(g, t),
    ;
    assert(pow(g, w) * (pow(g, t) * v) == pow(g, w + t) * v) by (nonlinear_arith)
        requires
            pow(g, w + t) == pow(g, w) * pow(g, t),
    ;
    lemma_mul_mod_noop_right(pow(g, w), pow(g, t) * u, p);
    lemma_mul_mod_noop_right(pow(g, w), pow(g, t) * v, p);
    lemma_mul_mod_noop_left(pow(g, w + t), u, p);
    lemma_mul_mod_noop_left(pow(g, w + t), v, p);
    assert(1 * u == u);
    assert(1 * v == v);
}

/// Two challenges that pass the first equation with the same commitment
/// `r1`, public value `y1` (of order `q`) and response `s` agree modulo `q`.
proof fn lemma_first_equation_fixes_challenge(
    r1: nat,
    y1: nat,
    s: nat,
    alpha: nat,
    p: nat,
    q: nat,
    c1: nat,
    c2: nat,
)
    requires
        p > 1,
        is_prime(q),
        pow_mod(alpha, q, p) == 1,
        pow_mod(y1, q, p) == 1,
        y1 % p != 1,
        r1 as int == (pow(alpha as int, s) * pow(y1 as int, c1)) % (p as int),
        r1 as int == (pow(alpha as int, s) * pow(y1 as int, c2)) % (p as int),
    ensures
        c1 % q == c2 % q,
{
    lemma_cancel_power(alpha as int, p as int, q, s, pow(y1 as int, c1), pow(y1 as int, c2));
    lemma_equal_powers(y1 as int, p as int, q, c1, c2);
}

/// Soundness: in a subgroup of prime order `q`, for a fixed commitment, a
/// public value `y1` other than the identity and a fixed response `s`, at
/// most one challenge in `[0, q)` is accepted. A prover that picks `s`
/// without knowing the challenge thus passes against a uniform challenge
/// with probability at most `1/q`.
pub proof fn lemma_one_challenge_per_response(
    r1: nat,
    r2: nat,
    y1: nat,
    y2: nat,
    s: nat,
    alpha: nat,
    beta: nat,
    p: nat,
    q: nat,
    c1: nat,
    c2: nat,
)
    requires
        p > 1,
        is_prime(q),
        pow_mod(alpha, q, p) == 1,
        pow_mod(y1, q, p) == 1,
        y1 % p != 1,
        c1 < q,
        c2 < q,
        accepts(r1, r2, y1, y2, c1, s, alpha, beta, p),
        accepts(r1, r2, y1, y2, c2, s, alpha, beta, p),
    ensures
        c1 == c2,
{
    lemma_first_equation_fixes_challenge(r1, y1, s, alpha, p, q, c1, c2);
    lemma_small_mod(c1, q);
    lemma_small_mod(c2, q);
}

/// Tampering with the challenge is detected: in a subgroup of prime order
/// `q`, with `y1` other than the identity, an accepted transcript stops being
/// accepted when `c` is replaced by any `c2` that differs from it modulo `q`
/// (a single flipped bit, for instance, when `q` is an odd prime).
pub proof fn lemma_challenge_change_rejected(
    r1: nat,
    r2: nat,
    y1: nat,
    y2: nat,
    c: nat,
    s: nat,
    alpha: nat,
    beta: nat,
    p: nat,
    q: nat,
    c2: nat,
)
    requires
        p > 1,
        is_prime(q),
        pow_mod(alpha, q, p) == 1,
        pow_mod(y1, q, p) == 1,
        y1 % p != 1,
        accepts(r1, r2, y1, y2, c, s, alpha, beta, p),
        c2 % q != c % q,
    ensures
        !accepts(r1, r2, y1, y2, c2, s, alpha, beta, p),
{
    if accepts(r1, r2, y1, y2, c2, s, alpha, beta, p) {
        lemma_first_equation_fixes_challenge(r1, y1, s, alpha, p, q, c, c2);
    }
}

/// Tampering with the response is detected: in a subgroup of prime order
/// `q`, with `alpha` other than the identity and `y1` in the subgroup, an
/// accepted transcript stops being accepted when `s` is replaced by any `s2`
/// that differs from it modulo `q`.
pub proof fn lemma_response_change_rejected(
    r1: nat,
    r2: nat,
    y1: nat,
    y2: nat,
    c: nat,
    s: nat,
    alpha: nat,
    beta: nat,
    p: nat,
    q: nat,
    s2: nat,
)
    requires
        p > 1,
        is_prime(q),
        pow_mod(alpha, q, p) == 1,
        alpha % p != 1,
        pow_mod(y1, q, p) == 1,
        accepts(r1, r2, y1, y2, c, s, alpha, beta, p),
        s2 % q != s % q,
    ensures
        !accepts(r1, r2, y1, y2, c, s2, alpha, beta, p),
{
    if accepts(r1, r2, y1, y2, c, s2, alpha, beta, p) {
        let (a1, a2, yc) = (pow(alpha as int, s), pow(alpha as int, s2), pow(y1 as int, c));
        assert(a1 * yc == yc * a1 && a2 * yc == yc * a2) by (nonlinear_arith);
        lemma_cancel_power(y1 as int, p as int, q, c, a1, a2);
        lemma_equal_powers(alpha as int, p as int, q, s, s2);
    }
}

/// Two elements `y` and `yb` of a subgroup of prime order `q`, below `p`,
/// whose `c`-th powers agree modulo `p` for a `c` that is not a multiple of
/// `q`, are equal.
proof fn lemma_equal_powers_fix_base(y: nat, yb: nat, p: nat, q: nat, c: nat)
    requires
        p > 1,
        is_prime(q),
        y < p,
        yb < p,
        pow_mod(y, q, p) == 1,
        pow_mod(yb, q, p) == 1,
        c % q != 0,
        pow(y as int, c) % (p as int) == pow(yb as int, c) % (p as int),
    ensures
        y == yb,
{
    let (yi, ybi, pi) = (y as int, yb as int, p as int);
    let m = (q - 1) as nat;
    let pm = pow(yi, m);
    let z = ybi * pm;
    lemma_small_mod(1, p);
    // z^c == 1
    lemma_pow_distributes(ybi, pm, c);
    lemma_pow_multiplies(yi, m, c);
    lemma_mul_mod_noop_left(pow(ybi, c), pow(pm, c), pi);
    lemma_mul_mod_noop_left(pow(yi, c), pow(pm, c), pi);
    lemma_pow_adds(yi, c, m * c);
    assert(c + m * c == q * c) by (nonlinear_arith)
        requires
            m == q - 1,
    ;
    lemma_mod_multiples_basic(c as int, q as int);
    assert((q * c) % q == 0) by (nonlinear_arith)
        requires
            (c as int * q as int) % (q as int) == 0,
    ;
    lemma_pow_reduce(yi, pi, q, q * c);
    lemma_pow0(yi);
    assert(pow(z, c) % pi == 1);
    // z^q == 1
    lemma_pow_distributes(ybi, pm, q);
    lemma_pow_multiplies(yi, m, q);
    lemma_mod_multiples_basic(m as int, q as int);
    lemma_pow_reduce(yi, pi, q, m * q);
    lemma_mul_mod_noop_left(pow(ybi, q), pow(pm, q), pi);
    lemma_mul_mod_noop_right(1, pow(pm, q), pi);
    assert(pow(z, q) % pi == 1);
    if z % pi != 1 {
        lemma_pow0(z);
        lemma_equal_powers(z, pi, q, c, 0);
        lemma_small_mod(0, q);
        assert(false);
    }
    // y * z == yb * y^q == yb modulo p
    lemma_mul_mod_noop_right(yi, z, pi);
    lemma_pow_adds(yi, 1, m);
    lemma_pow1(yi);
    assert(yi * z == ybi * pow(yi, q)) by (nonlinear_arith)
        requires
            z == ybi * pm,
            pow(yi, 1 + m) == pow(yi, 1) * pm,
            pow(yi, 1) == yi,
            1 + m == q,
    ;
    lemma_mul_mod_noop_right(ybi, pow(yi, q), pi);
    assert(yi * 1 == yi && ybi * 1 == ybi);
    lemma_small_mod(y, p);
    lemma_small_mod(yb, p);
}

/// Tampering with a registered value is detected: over a group whose
/// generators have order dividing the prime `q` modulo `p`, an accepted
/// transcript with a challenge that is not a multiple of `q` stops being
/// accepted when `y1`, or `y2`, is replaced by a different element of the
/// subgroup below `p` (outside the subgroup the claim holds only with
/// overwhelming probability, and is not stated).
pub proof fn lemma_public_value_change_rejected(
    r1: nat,
    r2: nat,
    y1: nat,
    y2: nat,
    c: nat,
    s: nat,
    alpha: nat,
    beta: nat,
    p: nat,
    q: nat,
    other: nat,
)
    requires
        p > 1,
        is_prime(q),
        pow_mod(alpha, q, p) == 1,
        pow_mod(beta, q, p) == 1,
        y1 < p,
        y2 < p,
        other < p,
        pow_mod(y1, q, p) == 1,
        pow_mod(y2, q, p) == 1,
        pow_mod(other, q, p) == 1,
        c % q != 0,
        accepts(r1, r2, y1, y2, c, s, alpha, beta, p),
    ensures
        other != y1 ==> !accepts(r1, r2, other, y2, c, s, alpha, beta, p),
        other != y2 ==> !accepts(r1, r2, y1, other, c, s, alpha, beta, p),
{
    if other != y1 && accepts(r1, r2, other, y2, c, s, alpha, beta, p) {
        lemma_cancel_power(alpha as int, p as int, q, s, pow(y1 as int, c), pow(other as int, c));
        lemma_equal_powers_fix_base(y1, other, p, q, c);
    }
    if other != y2 && accepts(r1, r2, y1, other, c, s, alpha, beta, p) {
        lemma_cancel_power(beta as int, p as int, q, s, pow(y2 as int, c), pow(other as int, c));
        lemma_equal_powers_fix_base(y2, other, p, q, c);
    }
}

} // verus!
