//! An embedded credential store: it keeps one row per username with a
//! self-describing password hash, verifies login attempts, and manages
//! short-lived session tokens in memory.
//!
//! The store itself is a plain value; a caller that shares it across
//! concurrent tasks wraps it in its own exclusion primitive, and a caller
//! that persists it loads a snapshot of rows at start and writes rows back
//! after each change.

pub mod creds;
pub mod err;
pub mod hashing;
pub mod laws;
pub mod tokens;

pub use err::SafeBoxError;
pub use hashing::hash_password;
pub use hashing::verify_password;

use vstd::prelude::*;

use creds::lemma_count_one_unique;
use creds::lemma_count_zero_no_match;
use creds::lemma_user_count_push;
use creds::lemma_user_count_remove;
use creds::lemma_user_count_update;
use creds::lemma_user_scan_step;
use creds::stored_phc;
use creds::user_count;
use creds::verify_outcome;
use creds::verify_reflects;
use hashing::phc_check;
use tokens::age_swept;
use tokens::base64_encode;
use tokens::distinct_tokens;
use tokens::has_token;
use tokens::holds_token;
use tokens::keeps;
use tokens::owner_has_token;
use tokens::lemma_sweep_complete;
use tokens::lemma_sweep_keep;
use tokens::lemma_sweep_skip;
use tokens::now_millis;
use tokens::lemma_age_swept_from;
use tokens::lemma_swept_transfer;
use tokens::lemma_token_swept_from;
use tokens::lemma_user_swept_from;
use tokens::sweep_inv_from;
use tokens::sweep_inv_onto;
use tokens::swept_by;
use tokens::token_swept;
use tokens::user_swept;
use tokens::Sweep;
use tokens::TokenEntry;
use vstd::pervasive::VecAdditionalExecFns;

verus! {

/// Interface to the credential rows and the session-token map.
pub struct Safe {
    rows: Vec<(String, String)>,
    toks: Vec<TokenEntry>,
}

impl Safe {
    /// The credential rows, each a `(username, encoded hash)` pair, in
    /// insertion order. Duplicate usernames can occur only in a snapshot
    /// handed to `from_rows`; they are reported, never silently resolved.
    pub closed spec fn rows_view(self) -> Seq<(String, String)> {
        self.rows@
    }

    /// The live session tokens.
    pub closed spec fn toks_view(self) -> Seq<TokenEntry> {
        self.toks@
    }

    /// Each token string occurs at most once in the map.
    pub open spec fn wf(self) -> bool {
        distinct_tokens(self.toks_view())
    }

    /// An empty store: no credential rows, no tokens.
    pub fn new() -> (s: Safe)
        ensures
            s.wf(),
            s.rows_view().len() == 0,
            s.toks_view().len() == 0,
    {
        Safe { rows: Vec::new(), toks: Vec::new() }
    }

    /// A store over a snapshot of credential rows, as a persistence layer
    /// hands them back. The snapshot is taken as it is: a duplicated
    /// username surfaces later as `InvalidData`.
    pub fn from_rows(rows: Vec<(String, String)>) -> (s: Safe)
        ensures
            s.wf(),
            s.rows_view() == rows@,
            s.toks_view().len() == 0,
    {
        Safe { rows, toks: Vec::new() }
    }

    /// The rows, for a persistence layer to write back.
    pub fn rows(&self) -> (r: &Vec<(String, String)>)
        ensures
            r@ == self.rows_view(),
    {
        &self.rows
    }

    /// The total number of credential rows, duplicates included.
    pub fn user_cnt(&self) -> (n: usize)
        ensures
            n == self.rows_view().len(),
    {
        self.rows.len()
    }

    /// Counts the rows of `user` and finds the first of them.
    fn scan_user(&self, user: &String) -> (r: (usize, Option<usize>))
        ensures
            r.0 == user_count(self.rows_view(), user@),
            r.1 matches Some(i) ==> i < self.rows_view().len() && self.rows_view()[i as int].0@
                == user@ && self.rows_view()[i as int].1@ == stored_phc(self.rows_view(), user@)
                && (forall|j: int| 0 <= j < i ==> self.rows_view()[j].0@ != user@),
            (r.1 is Some) <==> r.0 > 0,
    {
        let rows_len = self.rows.len();
        let mut cnt: usize = 0;
        let mut first: Option<usize> = None;
        let mut i: usize = 0;
        proof {
            assert(self.rows@.skip(0) =~= self.rows@);
        }
        while i < rows_len
            invariant
                i <= rows_len,
                rows_len == self.rows@.len(),
                cnt <= i,
                user_count(self.rows@, user@) == cnt + user_count(
                    self.rows@.skip(i as int),
                    user@,
                ),
                cnt == 0 ==> first is None && stored_phc(self.rows@, user@) == stored_phc(
                    self.rows@.skip(i as int),
                    user@,
                ) && (forall|j: int| 0 <= j < i ==> self.rows@[j].0@ != user@),
                cnt > 0 ==> (first matches Some(f) && f < i && self.rows@[f as int].0@ == user@
                    && self.rows@[f as int].1@ == stored_phc(self.rows@, user@) && (forall|j: int|
                    0 <= j < f ==> self.rows@[j].0@ != user@)),
            decreases rows_len - i,
        {
            proof {
                lemma_user_scan_step(self.rows@, user@, i as int);
            }
            if self.rows[i].0 == *user {
                if cnt == 0 {
                    first = Some(i);
                }
                cnt = cnt + 1;
            }
            i = i + 1;
        }
        proof {
            assert(self.rows@.skip(rows_len as int) =~= Seq::<(String, String)>::empty());
        }
        (cnt, first)
    }

    /// Creates a new credential row for `user`, hashing `pass` under a
    /// fresh random salt. Fails with `UserAlreadyExist`, and changes
    /// nothing, exactly when a row for `user` is already there.
    pub fn create(&mut self, user: &str, pass: &str) -> (r: Result<(), SafeBoxError>)
        requires
            old(self).wf(),
            pass@.len() <= 0x3FFF_FFFF,
        ensures
            final(self).wf(),
            final(self).toks_view() == old(self).toks_view(),
            match r {
                Ok(()) => {
                    &&& user_count(old(self).rows_view(), user@) == 0
                    &&& final(self).rows_view() == old(self).rows_view().push(
                        final(self).rows_view().last(),
                    )
                    &&& final(self).rows_view().last().0@ == user@
                    &&& user_count(final(self).rows_view(), user@) == 1
                    &&& phc_check(stored_phc(final(self).rows_view(), user@), pass@) == Some(true)
                    &&& forall|u: Seq<char>|
                        u != user@ ==> user_count(final(self).rows_view(), u) == user_count(
                            old(self).rows_view(),
                            u,
                        ) && stored_phc(final(self).rows_view(), u) == stored_phc(
                            old(self).rows_view(),
                            u,
                        )
                },
                Err(e) => {
                    &&& e matches SafeBoxError::UserAlreadyExist(m) && m@ == user@
                    &&& user_count(old(self).rows_view(), user@) > 0
                    &&& final(self).rows_view() == old(self).rows_view()
                },
            },
    {
        let uo = user.to_owned();
        let (cnt, _) = self.scan_user(&uo);
        if cnt > 0 {
            return Err(SafeBoxError::UserAlreadyExist(uo));
        }
        let hashed = match hash_password(pass) {
            Some(h) => h,
            None => {
                proof {
                    assert(false);
                }
                return Err(SafeBoxError::Crypto);
            },
        };
        proof {
            lemma_user_count_push(self.rows@, user@, (uo, hashed));
        }
        self.rows.push((uo, hashed));
        proof {
            assert forall|u: Seq<char>| u != user@ implies user_count(self.rows@, u) == user_count(
                old(self).rows@,
                u,
            ) && stored_phc(self.rows@, u) == stored_phc(old(self).rows@, u) by {
                lemma_user_count_push(old(self).rows@, u, self.rows@.last());
            }
        }
        Ok(())
    }

    /// Checks `pass` against the stored hash of `user`. A non-matching
    /// password is a normal `Ok(false)`; the errors are structural:
    /// `UserNotExist` for a missing row, `InvalidData` for duplicate rows
    /// (store corruption), `Crypto` for a stored hash that does not parse.
    pub fn verify(&self, user: &str, pass: &str) -> (r: Result<bool, SafeBoxError>)
        ensures
            verify_reflects(r, verify_outcome(self.rows_view(), user@, pass@), user@),
    {
        let uo = user.to_owned();
        let (cnt, first) = self.scan_user(&uo);
        if cnt == 0 {
            return Err(SafeBoxError::UserNotExist(uo));
        }
        if cnt >= 2 {
            return Err(SafeBoxError::InvalidData(uo));
        }
        let i = match first {
            Some(i) => i,
            None => {
                proof {
                    assert(false);
                }
                return Err(SafeBoxError::Crypto);
            },
        };
        match verify_password(self.rows[i].1.as_str(), pass) {
            Some(b) => Ok(b),
            None => Err(SafeBoxError::Crypto),
        }
    }

    /// Replaces the stored hash of `user` by a fresh hash of `new_pass`,
    /// after invalidating every session token issued for `user` (so a
    /// password change forces re-authentication). A missing row is a no-op
    /// `Ok`; duplicate rows are reported as `InvalidData` and left alone.
    /// The tokens of `user` are gone in every case.
    pub fn update(&mut self, user: &str, new_pass: &str) -> (r: Result<(), SafeBoxError>)
        requires
            old(self).wf(),
            new_pass@.len() <= 0x3FFF_FFFF,
        ensures
            final(self).wf(),
            user_swept(old(self).toks_view(), final(self).toks_view(), user@),
            match r {
                Ok(()) => {
                    &&& user_count(old(self).rows_view(), user@) <= 1
                    &&& final(self).rows_view().len() == old(self).rows_view().len()
                    &&& forall|u: Seq<char>|
                        user_count(final(self).rows_view(), u) == user_count(
                            old(self).rows_view(),
                            u,
                        )
                    &&& user_count(old(self).rows_view(), user@) == 1 ==> phc_check(
                        stored_phc(final(self).rows_view(), user@),
                        new_pass@,
                    ) == Some(true)
                    &&& user_count(old(self).rows_view(), user@) == 0 ==> final(self).rows_view()
                        == old(self).rows_view()
                    &&& forall|u: Seq<char>|
                        u != user@ ==> stored_phc(final(self).rows_view(), u) == stored_phc(
                            old(self).rows_view(),
                            u,
                        )
                    &&& forall|j: int|
                        0 <= j < old(self).rows_view().len() && old(self).rows_view()[j].0@
                            != user@ ==> final(self).rows_view()[j] == old(self).rows_view()[j]
                    &&& forall|j: int|
                        0 <= j < old(self).rows_view().len() && old(self).rows_view()[j].0@
                            == user@ ==> final(self).rows_view()[j].0@ == user@ && phc_check(
                            final(self).rows_view()[j].1@,
                            new_pass@,
                        ) == Some(true)
                },
                Err(e) => {
                    &&& e matches SafeBoxError::InvalidData(m) && m@ == user@
                    &&& user_count(old(self).rows_view(), user@) >= 2
                    &&& final(self).rows_view() == old(self).rows_view()
                },
            },
    {
        self.invalidate_user_token(user);
        let uo = user.to_owned();
        let (cnt, first) = self.scan_user(&uo);
        if cnt >= 2 {
            return Err(SafeBoxError::InvalidData(uo));
        }
        if cnt == 0 {
            proof {
                lemma_count_zero_no_match(old(self).rows_view(), user@);
            }
            return Ok(());
        }
        let i = match first {
            Some(i) => i,
            None => {
                proof {
                    assert(false);
                }
                return Ok(());
            },
        };
        let hashed = match hash_password(new_pass) {
            Some(h) => h,
            None => {
                proof {
                    assert(false);
                }
                return Ok(());
            },
        };
        proof {
            lemma_count_one_unique(old(self).rows_view(), user@, i as int);
            lemma_user_count_update(self.rows@, i as int, (uo, hashed));
        }
        self.rows.set(i, (uo, hashed));
        Ok(())
    }

    /// Removes the row of `user`. A missing row is a no-op `Ok` (callers
    /// that demand a password first call `verify`); duplicate rows are
    /// reported as `InvalidData` and left alone. Tokens are untouched.
    pub fn delete(&mut self, user: &str) -> (r: Result<(), SafeBoxError>)
        requires
            old(self).wf(),
        ensures
            final(self).wf(),
            final(self).toks_view() == old(self).toks_view(),
            match r {
                Ok(()) => {
                    &&& user_count(old(self).rows_view(), user@) <= 1
                    &&& user_count(final(self).rows_view(), user@) == 0
                    &&& final(self).rows_view().len() + user_count(old(self).rows_view(), user@)
                        == old(self).rows_view().len()
                    &&& forall|u: Seq<char>|
                        u != user@ ==> user_count(final(self).rows_view(), u) == user_count(
                            old(self).rows_view(),
                            u,
                        )
                    &&& user_count(old(self).rows_view(), user@) == 0 ==> final(self).rows_view()
                        == old(self).rows_view()
                },
                Err(e) => {
                    &&& e matches SafeBoxError::InvalidData(m) && m@ == user@
                    &&& user_count(old(self).rows_view(), user@) >= 2
                    &&& final(self).rows_view() == old(self).rows_view()
                },
            },
    {
        let uo = user.to_owned();
        let (cnt, first) = self.scan_user(&uo);
        if cnt >= 2 {
            return Err(SafeBoxError::InvalidData(uo));
        }
        if cnt == 0 {
            return Ok(());
        }
        let i = match first {
            Some(i) => i,
            None => {
                proof {
                    assert(false);
                }
                return Ok(());
            },
        };
        proof {
            lemma_user_count_remove(self.rows@, i as int);
        }
        self.rows.remove(i);
        Ok(())
    }

    /// Removes every token entry that the criterion does not keep; returns
    /// how many were removed.
    #[verifier::rlimit(50)]
    fn sweep(&mut self, c: &Sweep) -> (removed: usize)
        requires
            old(self).wf(),
        ensures
            final(self).wf(),
            final(self).rows_view() == old(self).rows_view(),
            swept_by(old(self).toks_view(), final(self).toks_view(), *c),
            final(self).toks_view().len() + removed == old(self).toks_view().len(),
    {
        let toks_len = self.toks.len();
        let mut kept: Vec<TokenEntry> = Vec::new();
        let mut i: usize = 0;
        while i < toks_len
            invariant
                i <= toks_len,
                toks_len == self.toks@.len(),
                self.toks@ == old(self).toks@,
                self.rows@ == old(self).rows@,
                distinct_tokens(self.toks@),
                kept@.len() <= i,
                distinct_tokens(kept@),
                sweep_inv_from(kept@, self.toks@, i as int, *c),
                sweep_inv_onto(kept@, self.toks@, i as int, *c),
            decreases toks_len - i,
        {
            let e = &self.toks[i];
            let keep = match c {
                Sweep::ByToken(tok) => !(e.token == *tok),
                Sweep::ByUser(us) => !(e.user == *us),
                Sweep::ByAge(now, max_age) => {
                    if e.issued_at >= *now {
                        true
                    } else {
                        *now - e.issued_at <= *max_age
                    }
                },
            };
            proof {
                assert(keep == keeps(
                    *c,
                    self.toks@[i as int].token@,
                    self.toks@[i as int].user@,
                    self.toks@[i as int].issued_at,
                ));
            }
            if keep {
                let ghost kept0 = kept@;
                kept.push(self.toks[i].clone());
                proof {
                    lemma_sweep_keep(kept0, kept@, self.toks@, i as int, *c);
                }
            } else {
                proof {
                    lemma_sweep_skip(kept@, self.toks@, i as int, *c);
                }
            }
            i = i + 1;
        }
        let removed = toks_len - kept.len();
        self.toks = kept;
        proof {
            lemma_sweep_complete(self.toks_view(), old(self).toks_view(), *c);
        }
        removed
    }

    /// Issues a fresh token for `user`: 64 bytes from the operating
    /// system's random source, base64-encoded (88 characters), recorded
    /// with the issuance time. Always succeeds; every other entry is kept.
    pub fn issue_token(&mut self, user: &str) -> (token: String)
        requires
            old(self).wf(),
        ensures
            final(self).wf(),
            final(self).rows_view() == old(self).rows_view(),
            token@.len() == 88,
            owner_has_token(final(self).toks_view(), token@, user@),
            forall|u: Seq<char>, a: u64|
                holds_token(final(self).toks_view(), token@, u, a) ==> u == user@,
            forall|t: Seq<char>, u: Seq<char>, a: u64|
                #![trigger holds_token(final(self).toks_view(), t, u, a)]
                #![trigger holds_token(old(self).toks_view(), t, u, a)]
                t != token@ ==> (holds_token(final(self).toks_view(), t, u, a) <==> holds_token(
                    old(self).toks_view(),
                    t,
                    u,
                    a,
                )),
    {
        let bytes = hashing::random_bytes(64);
        let tok = base64_encode(&bytes);
        let c = Sweep::ByToken(tok.clone());
        self.sweep(&c);
        let ghost mid = self.toks_view();
        let ghost bef = old(self).toks_view();
        let at = now_millis();
        let entry = TokenEntry { token: tok.clone(), user: user.to_owned(), issued_at: at };
        proof {
            assert forall|k: int| 0 <= k < mid.len() implies (#[trigger] mid[k]).token@ != tok@ by {
                assert(holds_token(mid, mid[k].token@, mid[k].user@, mid[k].issued_at));
                lemma_swept_transfer(bef, mid, c, mid[k].token@, mid[k].user@, mid[k].issued_at);
            }
        }
        self.toks.push(entry);
        proof {
            let fin = self.toks_view();
            let last = fin.len() - 1;
            assert(fin[last].token@ == tok@ && fin[last].user@ == user@ && fin[last].issued_at
                == at);
            assert(holds_token(fin, tok@, user@, at));
            assert(owner_has_token(fin, tok@, user@));
            assert forall|u: Seq<char>, a: u64|
                holds_token(fin, tok@, u, a) implies u == user@ by {
                let j = choose|j: int|
                    0 <= j < fin.len() && (#[trigger] fin[j]).token@ == tok@ && fin[j].user@ == u
                        && fin[j].issued_at == a;
                if j < last {
                    assert(mid[j] == fin[j]);
                }
            }
            assert forall|t: Seq<char>, u: Seq<char>, a: u64| t != tok@ implies (holds_token(
                fin,
                t,
                u,
                a,
            ) == holds_token(bef, t, u, a)) by {
                lemma_swept_transfer(bef, mid, c, t, u, a);
                if holds_token(fin, t, u, a) {
                    let j = choose|j: int|
                        0 <= j < fin.len() && (#[trigger] fin[j]).token@ == t && fin[j].user@ == u
                            && fin[j].issued_at == a;
                    assert(j < last);
                    assert(mid[j] == fin[j]);
                    assert(holds_token(mid, t, u, a));
                }
                if holds_token(bef, t, u, a) {
                    assert(holds_token(mid, t, u, a));
                    let j = choose|j: int|
                        0 <= j < mid.len() && (#[trigger] mid[j]).token@ == t && mid[j].user@ == u
                            && mid[j].issued_at == a;
                    assert(fin[j] == mid[j]);
                    assert(holds_token(fin, t, u, a));
                }
            }
        }
        tok
    }

    /// Removes the entry for `token` if present; absent is a no-op, so
    /// invalidation is idempotent. Every other entry is kept.
    pub fn invalidate_token(&mut self, token: &str)
        requires
            old(self).wf(),
        ensures
            final(self).wf(),
            final(self).rows_view() == old(self).rows_view(),
            !has_token(final(self).toks_view(), token@),
            token_swept(old(self).toks_view(), final(self).toks_view(), token@),
    {
        let c = Sweep::ByToken(token.to_owned());
        self.sweep(&c);
        proof {
            lemma_token_swept_from(old(self).toks_view(), self.toks_view(), c, token@);
        }
    }

    /// Removes every token issued for `user` and none issued for another
    /// owner ("log out everywhere").
    pub fn invalidate_user_token(&mut self, user: &str)
        requires
            old(self).wf(),
        ensures
            final(self).wf(),
            final(self).rows_view() == old(self).rows_view(),
            user_swept(old(self).toks_view(), final(self).toks_view(), user@),
    {
        let c = Sweep::ByUser(user.to_owned());
        self.sweep(&c);
        proof {
            lemma_user_swept_from(old(self).toks_view(), self.toks_view(), c, user@);
        }
    }

    /// Removes exactly the tokens whose age at the time of the call
    /// exceeds `max_age` (in milliseconds), leaving younger tokens
    /// untouched, and reports how many were removed. With no tokens held
    /// it removes zero. The reading of the clock is arbitrary: the sweep
    /// is exact for whatever it returned.
    pub fn expire_token(&mut self, max_age: u64) -> (removed: usize)
        requires
            old(self).wf(),
        ensures
            final(self).wf(),
            final(self).rows_view() == old(self).rows_view(),
            exists|now: u64|
                age_swept(old(self).toks_view(), final(self).toks_view(), now, max_age),
            final(self).toks_view().len() + removed == old(self).toks_view().len(),
    {
        let now = now_millis();
        let c = Sweep::ByAge(now, max_age);
        let removed = self.sweep(&c);
        proof {
            lemma_age_swept_from(old(self).toks_view(), self.toks_view(), c, now, max_age);
        }
        removed
    }

    /// Pure lookup: the owner of `token` if it is currently held, absent
    /// otherwise, independent of age. Does not mutate the map; staleness
    /// is removed only by an explicit `expire_token` sweep.
    pub fn verify_token(&self, token: &str) -> (r: Option<String>)
        requires
            self.wf(),
        ensures
            r matches Some(u) ==> owner_has_token(self.toks_view(), token@, u@),
            r is None ==> !has_token(self.toks_view(), token@),
    {
        let tok = token.to_owned();
        let toks_len = self.toks.len();
        let mut i: usize = 0;
        while i < toks_len
            invariant
                i <= toks_len,
                toks_len == self.toks@.len(),
                tok@ == token@,
                forall|k: int| 0 <= k < i ==> (#[trigger] self.toks@[k]).token@ != token@,
            decreases toks_len - i,
        {
            if self.toks[i].token == tok {
                let u = self.toks[i].user.clone();
                proof {
                    assert(holds_token(
                        self.toks_view(),
                        token@,
                        u@,
                        self.toks@[i as int].issued_at,
                    ));
                    assert(owner_has_token(self.toks_view(), token@, u@));
                }
                return Some(u);
            }
            i = i + 1;
        }
        None
    }
}

} // verus!
