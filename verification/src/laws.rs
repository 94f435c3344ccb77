use vstd::prelude::*;

use crate::creds::lemma_user_count_push;
use crate::creds::stored_phc;
use crate::creds::user_count;
use crate::creds::verify_outcome;
use crate::creds::VerifyOutcome;
use crate::hashing::phc_check;

verus! {

/// A username with no credential row always yields the missing-user
/// outcome, whatever the password: `verify` owes `UserNotExist` exactly
/// there.
pub proof fn lemma_verify_unknown_user(
    rows: Seq<(String, String)>,
    user: Seq<char>,
    pass: Seq<char>,
)
    requires
        user_count(rows, user) == 0,
    ensures
        verify_outcome(rows, user, pass) is MissingUser,
{
}

/// After a row for an absent `user` is appended whose hash checks `true`
/// against `pass` (what a successful `create(user, pass)` leaves behind),
/// a credential check for `(user, pass)` owes `true`; and it owes `false`
/// for every password that the stored hash checks `false` against — which
/// is how the hashing backend tells the two apart.
pub proof fn lemma_create_then_verify(
    rows: Seq<(String, String)>,
    user: Seq<char>,
    pass: Seq<char>,
    row: (String, String),
)
    requires
        user_count(rows, user) == 0,
        row.0@ == user,
        phc_check(row.1@, pass) == Some(true),
    ensures
        verify_outcome(rows.push(row), user, pass) == VerifyOutcome::Matched(true),
        forall|q: Seq<char>|
            phc_check(row.1@, q) == Some(false) ==> verify_outcome(rows.push(row), user, q)
                == VerifyOutcome::Matched(false),
{
    lemma_user_count_push(rows, user, row);
}

/// A row for `user` in place means a second `create(user, _)` sees a
/// positive count: its contract then owes `UserAlreadyExist` and leaves
/// every row — the first stored hash among them — unchanged.
pub proof fn lemma_create_is_exclusive(
    rows: Seq<(String, String)>,
    user: Seq<char>,
    row: (String, String),
)
    requires
        row.0@ == user,
    ensures
        user_count(rows.push(row), user) > 0,
{
    lemma_user_count_push(rows, user, row);
}

/// After an update leaves exactly one row for `user` whose hash checks
/// `true` against the new password (what a successful `update` ensures),
/// a credential check owes `true` for the new password and `false` for
/// every password the new hash checks `false` against — the old password
/// in particular, as far as the hashing backend distinguishes the two.
pub proof fn lemma_update_then_verify(rows: Seq<(String, String)>, user: Seq<char>, new_pass: Seq<char>)
    requires
        user_count(rows, user) == 1,
        phc_check(stored_phc(rows, user), new_pass) == Some(true),
    ensures
        verify_outcome(rows, user, new_pass) == VerifyOutcome::Matched(true),
        forall|q: Seq<char>|
            phc_check(stored_phc(rows, user), q) == Some(false) ==> verify_outcome(rows, user, q)
                == VerifyOutcome::Matched(false),
{
}

} // verus!
