//! The verifier's state: registered identities by username and outstanding
//! challenges by session token, and the three transitions over them.

use crate::bignum::BigNat;
use crate::zkp::{accepts, ZKP};
use rand::distributions::DistString;
use vstd::prelude::*;

verus! {

/// Length of a freshly drawn session token.
pub const AUTH_ID_LEN: usize = 12;

pub open spec fn is_ascii_alphanumeric(ch: char) -> bool {
    ('0' <= ch && ch <= '9') || ('a' <= ch && ch <= 'z') || ('A' <= ch && ch <= 'Z')
}

/// Relies on `DistString::sample_string` of `rand::distributions::Alphanumeric`
/// over `rand::thread_rng`: `n` characters, each an ASCII letter or digit.
#[verifier::external_body]
fn random_token(n: usize) -> (r: String)
    ensures
        r@.len() == n,
        forall|i: int| 0 <= i < n ==> is_ascii_alphanumeric(#[trigger] r@[i]),
{
    rand::distributions::Alphanumeric.sample_string(&mut rand::thread_rng(), n)
}

/// A registered identity: `y1 = alpha^x mod p`, `y2 = beta^x mod p`.
pub struct UserInfo {
    pub username: String,
    pub y1: BigNat,
    pub y2: BigNat,
}

/// One outstanding authentication attempt, keyed by its token `auth_id`.
pub struct ChallengeSession {
    pub auth_id: String,
    pub username: String,
    pub r1: BigNat,
    pub r2: BigNat,
    pub c: BigNat,
}

/// Why a challenge or a proof was turned down.
#[derive(Debug, Clone, Copy, PartialEq, Eq, Structural)]
pub enum AuthError {
    /// The username, or the session token, is not known.
    NotFound,
    /// The verification equations do not hold.
    InvalidProof,
    /// A freshly drawn session token is already in use.
    SessionCollision,
}

/// The verifier: the group, the registered identities and the outstanding
/// challenges.
pub struct AuthImpl {
    zkp: ZKP,
    user_info: Vec<UserInfo>,
    sessions: Vec<ChallengeSession>,
    user_map: Ghost<Map<Seq<char>, (nat, nat)>>,
    session_map: Ghost<Map<Seq<char>, (Seq<char>, nat, nat, nat)>>,
}

impl AuthImpl {
    /// Registered identities: username to `(y1, y2)`.
    pub closed spec fn users(&self) -> Map<Seq<char>, (nat, nat)> {
        self.user_map@
    }

    /// Outstanding challenges: token to `(username, r1, r2, c)`.
    pub closed spec fn challenges(&self) -> Map<Seq<char>, (Seq<char>, nat, nat, nat)> {
        self.session_map@
    }

    /// The group the proofs are checked in.
    pub closed spec fn group(&self) -> ZKP {
        self.zkp
    }

    /// The group is usable, and the two vectors hold exactly the two maps,
    /// one entry per key.
    pub closed spec fn wf(&self) -> bool {
        &&& self.zkp.wf()
        &&& self.users_wf()
        &&& self.sessions_wf()
    }

    spec fn users_wf(&self) -> bool {
        &&& forall|i: int|
            0 <= i < self.user_info@.len() ==> {
                let u = #[trigger] self.user_info@[i];
                &&& self.user_map@.contains_key(u.username@)
                &&& self.user_map@[u.username@] == (u.y1@, u.y2@)
            }
        &&& forall|k: Seq<char>|
            #[trigger] self.user_map@.contains_key(k) ==> exists|i: int|
                0 <= i < self.user_info@.len() && (#[trigger] self.user_info@[i]).username@ == k
        &&& forall|i: int, j: int|
            0 <= i < self.user_info@.len() && 0 <= j < self.user_info@.len() && i != j
                ==> (#[trigger] self.user_info@[i]).username@ != (#[trigger] self.user_info@[j]).username@
    }

    spec fn sessions_wf(&self) -> bool {
        &&& forall|i: int|
            0 <= i < self.sessions@.len() ==> {
                let s = #[trigger] self.sessions@[i];
                &&& self.session_map@.contains_key(s.auth_id@)
                &&& self.session_map@[s.auth_id@] == (s.username@, s.r1@, s.r2@, s.c@)
            }
        &&& forall|k: Seq<char>|
            #[trigger] self.session_map@.contains_key(k) ==> exists|i: int|
                0 <= i < self.sessions@.len() && (#[trigger] self.sessions@[i]).auth_id@ == k
        &&& forall|i: int, j: int|
            0 <= i < self.sessions@.len() && 0 <= j < self.sessions@.len() && i != j
                ==> (#[trigger] self.sessions@[i]).auth_id@ != (#[trigger] self.sessions@[j]).auth_id@
    }

    /// An empty verifier over the group `zkp`.
    pub fn new(zkp: ZKP) -> (r: AuthImpl)
        requires
            zkp.wf(),
        ensures
            r.wf(),
            r.group() == zkp,
            r.users() == Map::<Seq<char>, (nat, nat)>::empty(),
            r.challenges() == Map::<Seq<char>, (Seq<char>, nat, nat, nat)>::empty(),
    {
        AuthImpl {
            zkp,
            user_info: Vec::new(),
            sessions: Vec::new(),
            user_map: Ghost(Map::empty()),
            session_map: Ghost(Map::empty()),
        }
    }

    fn find_user(&self, name: &String) -> (r: Option<usize>)
        requires
            self.wf(),
        ensures
            match r {
                Some(i) => i < self.user_info@.len() && self.user_info@[i as int].username@ == name@,
                None => !self.users().contains_key(name@),
            },
    {
        let mut i: usize = 0;
        while i < self.user_info.len()
            invariant
                i <= self.user_info@.len(),
                forall|j: int| 0 <= j < i ==> (#[trigger] self.user_info@[j]).username@ != name@,
            decreases self.user_info@.len() - i,
        {
            if self.user_info[i].username == *name {
                return Some(i);
            }
            i = i + 1;
        }
        None
    }

    fn find_session(&self, auth_id: &String) -> (r: Option<usize>)
        requires
            self.wf(),
        ensures
            match r {
                Some(i) => i < self.sessions@.len() && self.sessions@[i as int].auth_id@ == auth_id@,
                None => !self.challenges().contains_key(auth_id@),
            },
    {
        let mut i: usize = 0;
        while i < self.sessions.len()
            invariant
                i <= self.sessions@.len(),
                forall|j: int| 0 <= j < i ==> (#[trigger] self.sessions@[j]).auth_id@ != auth_id@,
            decreases self.sessions@.len() - i,
        {
            if self.sessions[i].auth_id == *auth_id {
                return Some(i);
            }
            i = i + 1;
        }
        None
    }

    /// Records `(y1, y2)` for `username`, replacing any earlier registration.
    pub fn register(&mut self, username: String, y1: BigNat, y2: BigNat)
        requires
            old(self).wf(),
        ensures
            final(self).wf(),
            final(self).group() == old(self).group(),
            final(self).users() == old(self).users().insert(username@, (y1@, y2@)),
            final(self).challenges() == old(self).challenges(),
    {
        let ghost key = username@;
        let ghost rec = (y1@, y2@);
        let ghost pos: int;
        let info = UserInfo { username, y1, y2 };
        match self.find_user(&info.username) {
            Some(i) => {
                self.user_info.set(i, info);
                proof {
                    pos = i as int;
                }
            },
            None => {
                self.user_info.push(info);
                proof {
                    pos = self.user_info@.len() - 1;
                }
            },
        }
        assert(self.user_info@[pos].username@ == key);
        self.user_map = Ghost(self.user_map@.insert(key, rec));
        assert forall|k: Seq<char>| #[trigger] self.user_map@.contains_key(k) implies exists|i: int|
            0 <= i < self.user_info@.len() && (#[trigger] self.user_info@[i]).username@ == k by {
            if k != key {
                let i = choose|i: int|
                    0 <= i < old(self).user_info@.len() && (#[trigger] old(self).user_info@[i]).username@ == k;
                assert(self.user_info@[i].username@ == k);
            } else {
                assert(self.user_info@[pos].username@ == k);
            }
        }
        assert forall|i: int| 0 <= i < self.user_info@.len() implies {
            let u = #[trigger] self.user_info@[i];
            &&& self.user_map@.contains_key(u.username@)
            &&& self.user_map@[u.username@] == (u.y1@, u.y2@)
        } by {
            if i != pos {
                assert(old(self).user_info@[i] == self.user_info@[i]);
            }
        }
        assert forall|i: int, j: int|
            0 <= i < self.user_info@.len() && 0 <= j < self.user_info@.len() && i != j
                implies (#[trigger] self.user_info@[i]).username@ != (#[trigger] self.user_info@[j]).username@ by {
            if i != pos && j != pos {
                assert(old(self).user_info@[i] == self.user_info@[i]);
                assert(old(self).user_info@[j] == self.user_info@[j]);
            } else if i != pos {
                assert(old(self).user_info@[i] == self.user_info@[i]);
            } else {
                assert(old(self).user_info@[j] == self.user_info@[j]);
            }
        }
        assert(self.sessions == old(self).sessions);
        assert(self.session_map == old(self).session_map);
    }

    fn add_session(&mut self, sess: ChallengeSession)
        requires
            old(self).wf(),
            !old(self).challenges().contains_key(sess.auth_id@),
        ensures
            final(self).wf(),
            final(self).group() == old(self).group(),
            final(self).users() == old(self).users(),
            final(self).challenges() == old(self).challenges().insert(
                sess.auth_id@,
                (sess.username@, sess.r1@, sess.r2@, sess.c@),
            ),
    {
        let ghost key = sess.auth_id@;
        let ghost rec = (sess.username@, sess.r1@, sess.r2@, sess.c@);
        self.sessions.push(sess);
        let ghost pos = self.sessions@.len() - 1;
        self.session_map = Ghost(self.session_map@.insert(key, rec));
        assert(self.user_info == old(self).user_info);
        assert(self.user_map == old(self).user_map);
        assert forall|k: Seq<char>| #[trigger] self.session_map@.contains_key(k) implies exists|i: int|
            0 <= i < self.sessions@.len() && (#[trigger] self.sessions@[i]).auth_id@ == k by {
            if k != key {
                let i = choose|i: int|
                    0 <= i < old(self).sessions@.len() && (#[trigger] old(self).sessions@[i]).auth_id@ == k;
                assert(self.sessions@[i].auth_id@ == k);
            } else {
                assert(self.sessions@[pos].auth_id@ == k);
            }
        }
        assert forall|i: int| 0 <= i < self.sessions@.len() implies {
            let s = #[trigger] self.sessions@[i];
            &&& self.session_map@.contains_key(s.auth_id@)
            &&& self.session_map@[s.auth_id@] == (s.username@, s.r1@, s.r2@, s.c@)
        } by {
            if i != pos {
                assert(old(self).sessions@[i] == self.sessions@[i]);
            }
        }
        assert forall|i: int, j: int|
            0 <= i < self.sessions@.len() && 0 <= j < self.sessions@.len() && i != j
                implies (#[trigger] self.sessions@[i]).auth_id@ != (#[trigger] self.sessions@[j]).auth_id@ by {
            if i != pos && j != pos {
                assert(old(self).sessions@[i] == self.sessions@[i]);
                assert(old(self).sessions@[j] == self.sessions@[j]);
            } else if i != pos {
                assert(old(self).sessions@[i] == self.sessions@[i]);
            } else {
                assert(old(self).sessions@[j] == self.sessions@[j]);
            }
        }
    }

    fn remove_session(&mut self, pos: usize)
        requires
            old(self).wf(),
            pos < old(self).sessions@.len(),
        ensures
            final(self).wf(),
            final(self).group() == old(self).group(),
            final(self).users() == old(self).users(),
            final(self).challenges() == old(self).challenges().remove(old(self).sessions@[pos as int].auth_id@),
    {
        let ghost key = self.sessions@[pos as int].auth_id@;
        self.sessions.remove(pos);
        self.session_map = Ghost(self.session_map@.remove(key));
        assert(self.user_info == old(self).user_info);
        assert(self.user_map == old(self).user_map);
        assert forall|k: Seq<char>| #[trigger] self.session_map@.contains_key(k) implies exists|i: int|
            0 <= i < self.sessions@.len() && (#[trigger] self.sessions@[i]).auth_id@ == k by {
            let i = choose|i: int|
                0 <= i < old(self).sessions@.len() && (#[trigger] old(self).sessions@[i]).auth_id@ == k;
            if i < pos {
                assert(self.sessions@[i].auth_id@ == k);
            } else {
                assert(i != pos);
                assert(self.sessions@[i - 1].auth_id@ == k);
            }
        }
        assert forall|i: int| 0 <= i < self.sessions@.len() implies {
            let s = #[trigger] self.sessions@[i];
            &&& self.session_map@.contains_key(s.auth_id@)
            &&& self.session_map@[s.auth_id@] == (s.username@, s.r1@, s.r2@, s.c@)
        } by {
            if i < pos {
                assert(old(self).sessions@[i] == self.sessions@[i]);
                assert(old(self).sessions@[i].auth_id@ != key);
            } else {
                assert(old(self).sessions@[i + 1] == self.sessions@[i]);
                assert(old(self).sessions@[i + 1].auth_id@ != key);
            }
        }
        assert forall|i: int, j: int|
            0 <= i < self.sessions@.len() && 0 <= j < self.sessions@.len() && i != j
                implies (#[trigger] self.sessions@[i]).auth_id@ != (#[trigger] self.sessions@[j]).auth_id@ by {
            let oi = if i < pos { i } else { i + 1 };
            let oj = if j < pos { j } else { j + 1 };
            assert(old(self).sessions@[oi] == self.sessions@[i]);
            assert(old(self).sessions@[oj] == self.sessions@[j]);
        }
    }

    /// Opens an attempt for `username` with commitment `(r1, r2)`, challenge
    /// `c` and token `auth_id`. Fails with `NotFound` when `username` is not
    /// registered and with `SessionCollision` when `auth_id` is already in
    /// use; a failure leaves the state as it was.
    pub fn open_challenge(
        &mut self,
        username: &String,
        r1: BigNat,
        r2: BigNat,
        c: BigNat,
        auth_id: String,
    ) -> (r: Result<(String, BigNat), AuthError>)
        requires
            old(self).wf(),
        ensures
            final(self).wf(),
            final(self).group() == old(self).group(),
            final(self).users() == old(self).users(),
            !old(self).users().contains_key(username@) ==> r == Err::<(String, BigNat), AuthError>(
                AuthError::NotFound,
            ),
            old(self).users().contains_key(username@) && old(self).challenges().contains_key(auth_id@)
                ==> r == Err::<(String, BigNat), AuthError>(AuthError::SessionCollision),
            r is Err ==> final(self).challenges() == old(self).challenges(),
            old(self).users().contains_key(username@) && !old(self).challenges().contains_key(auth_id@)
                ==> r is Ok,
            r matches Ok((id, cc)) ==> {
                &&& id@ == auth_id@
                &&& cc@ == c@
                &&& final(self).challenges() == old(self).challenges().insert(
                    auth_id@,
                    (username@, r1@, r2@, c@),
                )
            },
    {
        if self.find_user(username).is_none() {
            return Err(AuthError::NotFound);
        }
        if self.find_session(&auth_id).is_some() {
            return Err(AuthError::SessionCollision);
        }
        let reply = (auth_id.clone(), c.clone());
        self.add_session(ChallengeSession { auth_id, username: username.clone(), r1, r2, c });
        Ok(reply)
    }

    /// Receives the commitment `(r1, r2)` of `username`, draws a challenge
    /// below `q` and a fresh token, and opens the attempt with them
    /// (see `open_challenge`). Returns the token and the challenge.
    pub fn create_authentication_challenge(
        &mut self,
        username: &String,
        r1: BigNat,
        r2: BigNat,
    ) -> (r: Result<(String, BigNat), AuthError>)
        requires
            old(self).wf(),
        ensures
            final(self).wf(),
            final(self).group() == old(self).group(),
            final(self).users() == old(self).users(),
            !old(self).users().contains_key(username@) ==> r == Err::<(String, BigNat), AuthError>(
                AuthError::NotFound,
            ),
            old(self).users().contains_key(username@) ==> r is Ok || r == Err::<
                (String, BigNat),
                AuthError,
            >(AuthError::SessionCollision),
            old(self).users().contains_key(username@) && (forall|t: Seq<char>|
                #[trigger] old(self).challenges().contains_key(t) ==> t.len() != AUTH_ID_LEN)
                ==> r is Ok,
            r is Err ==> final(self).challenges() == old(self).challenges(),
            r matches Ok((id, c)) ==> {
                &&& id@.len() == AUTH_ID_LEN
                &&& c@ < old(self).group().q@
                &&& !old(self).challenges().contains_key(id@)
                &&& final(self).challenges() == old(self).challenges().insert(
                    id@,
                    (username@, r1@, r2@, c@),
                )
            },
    {
        let c = ZKP::generate_random_number(&self.zkp.q);
        let auth_id = random_token(AUTH_ID_LEN);
        self.open_challenge(username, r1, r2, c, auth_id)
    }

    /// Checks the response `s` to the attempt `auth_id` against its stored
    /// commitment and challenge and the user's registered `(y1, y2)`. Fails
    /// with `NotFound` when the token, or its user, is unknown (the state is
    /// left as it was), and with `InvalidProof` when the equations do not
    /// hold. Once checked, the attempt is closed either way. On success the
    /// token is returned as the session identifier.
    pub fn verify_authentication(&mut self, auth_id: &String, s: &BigNat) -> (r: Result<String, AuthError>)
        requires
            old(self).wf(),
        ensures
            final(self).wf(),
            final(self).group() == old(self).group(),
            final(self).users() == old(self).users(),
            ({
                let g = old(self).group();
                let ch = old(self).challenges();
                let us = old(self).users();
                if !ch.contains_key(auth_id@) || !us.contains_key(ch[auth_id@].0) {
                    &&& r == Err::<String, AuthError>(AuthError::NotFound)
                    &&& final(self).challenges() == ch
                } else {
                    let (name, r1, r2, c) = ch[auth_id@];
                    let (y1, y2) = us[name];
                    &&& final(self).challenges() == ch.remove(auth_id@)
                    &&& if accepts(r1, r2, y1, y2, c, s@, g.alpha@, g.beta@, g.p@) {
                        r matches Ok(id) && id@ == auth_id@
                    } else {
                        r == Err::<String, AuthError>(AuthError::InvalidProof)
                    }
                }
            }),
    {
        let pos = match self.find_session(auth_id) {
            Some(i) => i,
            None => {
                return Err(AuthError::NotFound);
            },
        };
        let u = match self.find_user(&self.sessions[pos].username) {
            Some(j) => j,
            None => {
                return Err(AuthError::NotFound);
            },
        };
        let sess = &self.sessions[pos];
        let user = &self.user_info[u];
        let verified = self.zkp.verify(&sess.r1, &sess.r2, &user.y1, &user.y2, &sess.c, s);
        self.remove_session(pos);
        if !verified {
            return Err(AuthError::InvalidProof);
        }
        Ok(auth_id.clone())
    }
}

} // verus!
