use std::sync::{Arc, Mutex};

use zkp::auth::{AuthError, AuthImpl, AUTH_ID_LEN};
use zkp::bignum::BigNat;
use zkp::zkp::ZKP;

fn n(v: u64) -> BigNat {
    BigNat::from_u64(v)
}

fn toy() -> ZKP {
    ZKP { p: n(23), q: n(11), alpha: n(4), beta: n(9) }
}

fn register(store: &mut AuthImpl, zkp: &ZKP, name: &str, x: u64) {
    let y1 = ZKP::exponentiate(&zkp.alpha, &n(x), &zkp.p);
    let y2 = ZKP::exponentiate(&zkp.beta, &n(x), &zkp.p);
    store.register(name.to_string(), y1, y2);
}

/// Commits with nonce `k`, and returns the token, the challenge and the
/// honest response for secret `x`.
fn attempt(store: &mut AuthImpl, zkp: &ZKP, name: &str, x: u64, k: u64) -> (String, BigNat) {
    let r1 = ZKP::exponentiate(&zkp.alpha, &n(k), &zkp.p);
    let r2 = ZKP::exponentiate(&zkp.beta, &n(k), &zkp.p);
    let (auth_id, c) = store.create_authentication_challenge(&name.to_string(), r1, r2).unwrap();
    let s = zkp.solve(&n(k), &c, &n(x));
    (auth_id, s)
}

#[test]
fn honest_login_succeeds() {
    let zkp = toy();
    let mut store = AuthImpl::new(toy());
    register(&mut store, &zkp, "alice", 6);
    let (auth_id, s) = attempt(&mut store, &zkp, "alice", 6, 7);
    assert_eq!(store.verify_authentication(&auth_id, &s), Ok(auth_id.clone()));
}

#[test]
fn challenge_is_below_q_and_token_is_alphanumeric() {
    let zkp = toy();
    let mut store = AuthImpl::new(toy());
    register(&mut store, &zkp, "alice", 6);
    for _ in 0..50 {
        let (auth_id, c) = store.create_authentication_challenge(&"alice".to_string(), n(8), n(4)).unwrap();
        assert_eq!(auth_id.len(), AUTH_ID_LEN);
        assert!(auth_id.chars().all(|ch| ch.is_ascii_alphanumeric()));
        let v = c.to_bytes_be().iter().fold(0u64, |a, b| a * 256 + *b as u64);
        assert!(v < 11);
    }
}

#[test]
fn unknown_user_gets_not_found() {
    let mut store = AuthImpl::new(toy());
    let r = store.create_authentication_challenge(&"nobody".to_string(), n(8), n(4));
    assert_eq!(r.err(), Some(AuthError::NotFound));
}

#[test]
fn unknown_auth_id_gets_not_found() {
    let zkp = toy();
    let mut store = AuthImpl::new(toy());
    register(&mut store, &zkp, "alice", 6);
    assert_eq!(store.verify_authentication(&"no-such-id".to_string(), &n(5)), Err(AuthError::NotFound));
}

#[test]
fn wrong_secret_gets_invalid_proof_and_closes_attempt() {
    let zkp = toy();
    let mut store = AuthImpl::new(toy());
    register(&mut store, &zkp, "alice", 6);
    let r1 = ZKP::exponentiate(&zkp.alpha, &n(7), &zkp.p);
    let r2 = ZKP::exponentiate(&zkp.beta, &n(7), &zkp.p);
    let auth_id = "fixedtoken01".to_string();
    let (id, c) = store.open_challenge(&"alice".to_string(), r1, r2, n(4), auth_id.clone()).unwrap();
    assert_eq!(id, auth_id);
    assert_eq!(c, n(4));
    let s_fake = zkp.solve(&n(7), &n(4), &n(7));
    assert_eq!(store.verify_authentication(&auth_id, &s_fake), Err(AuthError::InvalidProof));
    // the attempt is closed: even the right answer now finds nothing
    assert_eq!(store.verify_authentication(&auth_id, &n(5)), Err(AuthError::NotFound));
}

#[test]
fn success_closes_attempt() {
    let zkp = toy();
    let mut store = AuthImpl::new(toy());
    register(&mut store, &zkp, "alice", 6);
    let (auth_id, s) = attempt(&mut store, &zkp, "alice", 6, 3);
    assert!(store.verify_authentication(&auth_id, &s).is_ok());
    assert_eq!(store.verify_authentication(&auth_id, &s), Err(AuthError::NotFound));
}

#[test]
fn reused_token_is_a_collision() {
    let mut store = AuthImpl::new(toy());
    store.register("alice".to_string(), n(2), n(3));
    let id = "sametoken123".to_string();
    assert!(store.open_challenge(&"alice".to_string(), n(8), n(4), n(4), id.clone()).is_ok());
    let again = store.open_challenge(&"alice".to_string(), n(1), n(1), n(1), id.clone());
    assert_eq!(again.err(), Some(AuthError::SessionCollision));
    // the first attempt is untouched
    assert_eq!(store.verify_authentication(&id, &n(5)), Ok(id.clone()));
}

#[test]
fn open_challenge_for_unknown_user_is_not_found() {
    let mut store = AuthImpl::new(toy());
    let r = store.open_challenge(&"bob".to_string(), n(8), n(4), n(4), "t".to_string());
    assert_eq!(r.err(), Some(AuthError::NotFound));
}

#[test]
fn later_registration_wins() {
    let zkp = toy();
    let mut store = AuthImpl::new(toy());
    register(&mut store, &zkp, "alice", 6);
    register(&mut store, &zkp, "alice", 9);
    let (old_id, old_s) = attempt(&mut store, &zkp, "alice", 6, 7);
    let (new_id, new_s) = attempt(&mut store, &zkp, "alice", 9, 7);
    assert_eq!(store.verify_authentication(&new_id, &new_s), Ok(new_id.clone()));
    let old = store.verify_authentication(&old_id, &old_s);
    // the old secret only passes if it happens to give the same response
    let same = zkp.solve(&n(7), &n(0), &n(6)) == zkp.solve(&n(7), &n(0), &n(9));
    assert!(old.is_err() || same);
}

#[test]
fn interleaved_attempts_of_one_user_are_isolated() {
    let zkp = toy();
    let mut store = AuthImpl::new(toy());
    register(&mut store, &zkp, "alice", 6);
    let (id_a, s_a) = attempt(&mut store, &zkp, "alice", 6, 2);
    let (id_b, s_b) = attempt(&mut store, &zkp, "alice", 6, 9);
    assert_ne!(id_a, id_b);
    assert_eq!(store.verify_authentication(&id_b, &s_b), Ok(id_b.clone()));
    assert_eq!(store.verify_authentication(&id_a, &s_a), Ok(id_a.clone()));
}

#[test]
fn many_users_in_parallel() {
    let store = Arc::new(Mutex::new(AuthImpl::new(toy())));
    let rt = tokio::runtime::Builder::new_multi_thread().worker_threads(4).build().unwrap();
    rt.block_on(async {
        let mut tasks = Vec::new();
        for i in 0..16u64 {
            let store = Arc::clone(&store);
            tasks.push(tokio::task::spawn_blocking(move || {
                let zkp = toy();
                let name = format!("user{}", i);
                let y1 = ZKP::exponentiate(&zkp.alpha, &n(i % 11), &zkp.p);
                let y2 = ZKP::exponentiate(&zkp.beta, &n(i % 11), &zkp.p);
                store.lock().unwrap().register(name, y1, y2);
            }));
        }
        for t in tasks {
            t.await.unwrap();
        }
        let mut tasks = Vec::new();
        for i in 0..16u64 {
            let store = Arc::clone(&store);
            tasks.push(tokio::task::spawn_blocking(move || {
                let zkp = toy();
                let name = format!("user{}", i);
                let (x, k) = (i % 11, (i * 5 + 1) % 11);
                let r1 = ZKP::exponentiate(&zkp.alpha, &n(k), &zkp.p);
                let r2 = ZKP::exponentiate(&zkp.beta, &n(k), &zkp.p);
                let (auth_id, c) = store.lock().unwrap().create_authentication_challenge(&name, r1, r2).unwrap();
                let s = zkp.solve(&n(k), &c, &n(x));
                let r = store.lock().unwrap().verify_authentication(&auth_id, &s);
                assert_eq!(r, Ok(auth_id));
            }));
        }
        for t in tasks {
            t.await.unwrap();
        }
    });
}
