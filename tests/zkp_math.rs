use zkp::bignum::BigNat;
use zkp::zkp::ZKP;

fn n(v: u64) -> BigNat {
    BigNat::from_u64(v)
}

fn toy() -> ZKP {
    ZKP { p: n(23), q: n(11), alpha: n(4), beta: n(9) }
}

#[test]
fn test_toy_example() {
    let alpha = BigNat::from_u64(4);
    let beta = BigNat::from_u64(9);
    let p = BigNat::from_u64(23);
    let q = BigNat::from_u64(11);

    let zkp = ZKP { p, q, alpha, beta };

    let x = BigNat::from_u64(6);
    let k = BigNat::from_u64(7);

    let c = BigNat::from_u64(4);

    let y1 = ZKP::exponentiate(&zkp.alpha, &x, &zkp.p);
    let y2 = ZKP::exponentiate(&zkp.beta, &x, &zkp.p);

    assert_eq!(y1, BigNat::from_u64(2));
    assert_eq!(y2, BigNat::from_u64(3));

    let r1 = ZKP::exponentiate(&zkp.alpha, &k, &zkp.p);
    let r2 = ZKP::exponentiate(&zkp.beta, &k, &zkp.p);

    assert_eq!(r1, BigNat::from_u64(8));
    assert_eq!(r2, BigNat::from_u64(4));

    let s = zkp.solve(&k, &c, &x);

    assert_eq!(s, BigNat::from_u64(5));

    let verified = zkp.verify(&r1, &r2, &y1, &y2, &c, &s);

    assert!(verified);

    let x_fake = BigNat::from_u64(7);
    let s_fake = zkp.solve(&k, &c, &x_fake);

    let verified_fake = zkp.verify(&r1, &r2, &y1, &y2, &c, &s_fake);

    assert!(!verified_fake);
}

#[test]
fn test_toy_example_with_random_numbers() {
    let alpha = BigNat::from_u64(4);
    let beta = BigNat::from_u64(9);
    let p = BigNat::from_u64(23);
    let q = BigNat::from_u64(11);

    let zkp = ZKP { p, q, alpha, beta };

    let x = BigNat::from_u64(6);
    let k = ZKP::generate_random_number(&zkp.q);

    let c = ZKP::generate_random_number(&zkp.q);

    let y1 = ZKP::exponentiate(&zkp.alpha, &x, &zkp.p);
    let y2 = ZKP::exponentiate(&zkp.beta, &x, &zkp.p);

    let r1 = ZKP::exponentiate(&zkp.alpha, &k, &zkp.p);
    let r2 = ZKP::exponentiate(&zkp.beta, &k, &zkp.p);

    let s = zkp.solve(&k, &c, &x);

    let verified = zkp.verify(&r1, &r2, &y1, &y2, &c, &s);

    assert!(verified);
}

#[test]
fn fake_secret_gives_other_response() {
    let zkp = toy();
    let s = zkp.solve(&n(7), &n(4), &n(6));
    let s_fake = zkp.solve(&n(7), &n(4), &n(7));
    assert_eq!(s, n(5));
    assert_eq!(s_fake, n(1));
    assert_ne!(s, s_fake);
}

#[test]
fn solve_when_k_is_at_least_cx() {
    let zkp = toy();
    // 9 - 2 * 3 = 3
    assert_eq!(zkp.solve(&n(9), &n(2), &n(3)), n(3));
    // 10 - 1 * 0 = 10
    assert_eq!(zkp.solve(&n(10), &n(1), &n(0)), n(10));
}

#[test]
fn solve_when_k_is_below_cx() {
    let zkp = toy();
    // 1 - 3 * 4 = -11, a multiple of q: the residue is 0, not q
    assert_eq!(zkp.solve(&n(1), &n(3), &n(4)), n(0));
    // 0 - 10 * 10 = -100 = 10 mod 11
    assert_eq!(zkp.solve(&n(0), &n(10), &n(10)), n(10));
}

#[test]
fn solve_always_below_q() {
    let zkp = toy();
    for k in 0..11u64 {
        for c in 0..11u64 {
            for x in 0..11u64 {
                let s = zkp.solve(&n(k), &n(c), &n(x));
                let expected = ((k as i64 - (c * x) as i64).rem_euclid(11)) as u64;
                assert_eq!(s, n(expected));
            }
        }
    }
}

#[test]
fn math_is_deterministic() {
    let zkp = toy();
    let a = ZKP::exponentiate(&n(5), &n(13), &n(23));
    let b = ZKP::exponentiate(&n(5), &n(13), &n(23));
    assert_eq!(a, b);
    // 5^13 mod 23 = 21
    assert_eq!(a, n(21));
    assert_eq!(zkp.solve(&n(3), &n(9), &n(8)), zkp.solve(&n(3), &n(9), &n(8)));
}

#[test]
fn exponentiate_edge_values() {
    assert_eq!(ZKP::exponentiate(&n(0), &n(0), &n(23)), n(1));
    assert_eq!(ZKP::exponentiate(&n(7), &n(0), &n(23)), n(1));
    assert_eq!(ZKP::exponentiate(&n(7), &n(5), &n(1)), n(0));
    assert_eq!(ZKP::exponentiate(&n(2), &n(10), &n(1000)), n(24));
}

#[test]
fn honest_runs_pass_for_every_secret_nonce_and_challenge() {
    let zkp = toy();
    for x in 0..11u64 {
        let y1 = ZKP::exponentiate(&zkp.alpha, &n(x), &zkp.p);
        let y2 = ZKP::exponentiate(&zkp.beta, &n(x), &zkp.p);
        for k in 0..11u64 {
            let r1 = ZKP::exponentiate(&zkp.alpha, &n(k), &zkp.p);
            let r2 = ZKP::exponentiate(&zkp.beta, &n(k), &zkp.p);
            for c in 0..11u64 {
                let s = zkp.solve(&n(k), &n(c), &n(x));
                assert!(zkp.verify(&r1, &r2, &y1, &y2, &n(c), &s));
            }
        }
    }
}

#[test]
fn guessed_response_passes_for_at_most_one_challenge() {
    let zkp = toy();
    let y1 = n(2);
    let y2 = n(3);
    for k in 0..11u64 {
        let r1 = ZKP::exponentiate(&zkp.alpha, &n(k), &zkp.p);
        let r2 = ZKP::exponentiate(&zkp.beta, &n(k), &zkp.p);
        for s in 0..11u64 {
            let passing = (0..11u64)
                .filter(|c| zkp.verify(&r1, &r2, &y1, &y2, &n(*c), &n(s)))
                .count();
            assert!(passing <= 1);
        }
    }
}

#[test]
fn flipped_bit_is_rejected() {
    let zkp = toy();
    let vals = [8u64, 4, 2, 3, 4, 5];
    let check = |v: &[u64; 6]| {
        zkp.verify(&n(v[0]), &n(v[1]), &n(v[2]), &n(v[3]), &n(v[4]), &n(v[5]))
    };
    assert!(check(&vals));
    for field in 0..6 {
        for bit in 0..5 {
            let mut t = vals;
            t[field] ^= 1 << bit;
            assert!(!check(&t), "field {} bit {}", field, bit);
        }
    }
}

#[test]
fn leading_zero_bytes_are_insignificant() {
    let zkp = toy();
    let r1 = BigNat::from_bytes_be(vec![0, 0, 8]);
    let r2 = BigNat::from_bytes_be(vec![4]);
    let y1 = BigNat::from_bytes_be(vec![0, 2]);
    assert!(zkp.verify(&r1, &r2, &y1, &n(3), &n(4), &n(5)));
    assert_eq!(BigNat::from_bytes_be(vec![]), n(0));
    assert_eq!(BigNat::from_bytes_be(vec![1, 0]), n(256));
    assert_eq!(n(0x0102).to_bytes_be(), vec![1, 2]);
}

#[test]
fn random_numbers_stay_below_limit() {
    let limit = n(11);
    for _ in 0..200 {
        let r = ZKP::generate_random_number(&limit);
        let bytes = r.to_bytes_be();
        let v = bytes.iter().fold(0u64, |a, b| a * 256 + *b as u64);
        assert!(v < 11);
    }
    assert_eq!(ZKP::generate_random_number(&n(1)), n(0));
}

#[test]
fn constants_form_a_group() {
    let (alpha, beta, p, q) = ZKP::get_constants();
    let pb = p.to_bytes_be();
    assert_eq!(pb.len(), 128);
    assert_eq!(pb[0], 0xB1);
    assert_eq!(pb[127], 0x71);
    let qb = q.to_bytes_be();
    assert_eq!(qb.len(), 20);
    assert_eq!(qb[0], 0xF5);
    assert_eq!(alpha.to_bytes_be()[0], 0xA4);
    let one = n(1);
    assert_eq!(ZKP::exponentiate(&alpha, &q, &p), one);
    assert_eq!(ZKP::exponentiate(&beta, &q, &p), one);
    let exp = BigNat::from_bytes_be(vec![0x26, 0x6F, 0xEA, 0x1E, 0x5C, 0x41, 0x56, 0x4B, 0x77, 0x7E, 0x69]);
    assert_eq!(ZKP::exponentiate(&alpha, &exp, &p), beta);
}

#[test]
fn full_size_group_run() {
    let (alpha, beta, p, q) = ZKP::get_constants();
    let zkp = ZKP { p, q, alpha, beta };
    let x = BigNat::from_bytes_be(b"correct horse".to_vec());
    let y1 = ZKP::exponentiate(&zkp.alpha, &x, &zkp.p);
    let y2 = ZKP::exponentiate(&zkp.beta, &x, &zkp.p);
    let k = ZKP::generate_random_number(&zkp.q);
    let r1 = ZKP::exponentiate(&zkp.alpha, &k, &zkp.p);
    let r2 = ZKP::exponentiate(&zkp.beta, &k, &zkp.p);
    let c = ZKP::generate_random_number(&zkp.q);
    let s = zkp.solve(&k, &c, &x);
    assert!(zkp.verify(&r1, &r2, &y1, &y2, &c, &s));
    let s_bad = zkp.solve(&k, &c, &BigNat::from_bytes_be(b"wrong horse".to_vec()));
    assert!(!zkp.verify(&r1, &r2, &y1, &y2, &c, &s_bad));
}
