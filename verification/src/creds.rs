use vstd::prelude::*;

use crate::err::SafeBoxError;
use crate::hashing::phc_check;

verus! {

/// How many credential rows carry the username `user`. The store invariant
/// asks for at most one; any other count signals corruption.
pub open spec fn user_count(rows: Seq<(String, String)>, user: Seq<char>) -> nat
    decreases rows.len(),
{
    if rows.len() == 0 {
        0
    } else {
        (if rows[0].0@ == user {
            1nat
        } else {
            0nat
        }) + user_count(rows.skip(1), user)
    }
}

/// The encoded hash of the first row that carries `user` (the hash of the
/// unique row, whenever `user_count` is 1).
pub open spec fn stored_phc(rows: Seq<(String, String)>, user: Seq<char>) -> Seq<char>
    decreases rows.len(),
{
    if rows.len() == 0 {
        Seq::empty()
    } else if rows[0].0@ == user {
        rows[0].1@
    } else {
        stored_phc(rows.skip(1), user)
    }
}

/// The outcome that a credential check owes for a given store, username and
/// password.
pub enum VerifyOutcome {
    /// No row for the username.
    MissingUser,
    /// More than one row for the username: store corruption.
    CorruptStore,
    /// Exactly one row, but its stored hash string does not parse.
    BadHash,
    /// Exactly one row with a well-formed hash; `true` exactly on a match.
    Matched(bool),
}

/// The outcome `Safe::verify` owes: missing user and duplicate rows are
/// detected first; otherwise the stored hash decides.
pub open spec fn verify_outcome(
    rows: Seq<(String, String)>,
    user: Seq<char>,
    pass: Seq<char>,
) -> VerifyOutcome {
    if user_count(rows, user) == 0 {
        VerifyOutcome::MissingUser
    } else if user_count(rows, user) >= 2 {
        VerifyOutcome::CorruptStore
    } else {
        match phc_check(stored_phc(rows, user), pass) {
            None => VerifyOutcome::BadHash,
            Some(b) => VerifyOutcome::Matched(b),
        }
    }
}

/// How an executable result of `Safe::verify` reflects the owed outcome,
/// error payloads included.
pub open spec fn verify_reflects(
    r: Result<bool, SafeBoxError>,
    o: VerifyOutcome,
    user: Seq<char>,
) -> bool {
    match o {
        VerifyOutcome::MissingUser => r matches Err(SafeBoxError::UserNotExist(m)) && m@ == user,
        VerifyOutcome::CorruptStore => r matches Err(SafeBoxError::InvalidData(m)) && m@ == user,
        VerifyOutcome::BadHash => r matches Err(SafeBoxError::Crypto),
        VerifyOutcome::Matched(b) => r matches Ok(x) && x == b,
    }
}

/// Unrolls `user_count` and `stored_phc` one row at a time, as a scan of the
/// rows does.
pub proof fn lemma_user_scan_step(rows: Seq<(String, String)>, user: Seq<char>, i: int)
    requires
        0 <= i < rows.len(),
    ensures
        user_count(rows.skip(i), user) == (if rows[i].0@ == user {
            1nat
        } else {
            0nat
        }) + user_count(rows.skip(i + 1), user),
        stored_phc(rows.skip(i), user) == (if rows[i].0@ == user {
            rows[i].1@
        } else {
            stored_phc(rows.skip(i + 1), user)
        }),
{
    assert(rows.skip(i).skip(1) =~= rows.skip(i + 1));
    assert(rows.skip(i)[0] == rows[i]);
}

/// A row of `user` in the sequence means a positive count.
pub proof fn lemma_match_implies_count_pos(rows: Seq<(String, String)>, user: Seq<char>, i: int)
    requires
        0 <= i < rows.len(),
        rows[i].0@ == user,
    ensures
        user_count(rows, user) >= 1,
    decreases i,
{
    if i > 0 {
        assert(rows.skip(1)[i - 1] == rows[i]);
        lemma_match_implies_count_pos(rows.skip(1), user, i - 1);
    }
}

/// A zero count means no row carries the username.
pub proof fn lemma_count_zero_no_match(rows: Seq<(String, String)>, user: Seq<char>)
    requires
        user_count(rows, user) == 0,
    ensures
        forall|j: int| 0 <= j < rows.len() ==> (#[trigger] rows[j]).0@ != user,
{
    assert forall|j: int| 0 <= j < rows.len() implies (#[trigger] rows[j]).0@ != user by {
        if rows[j].0@ == user {
            lemma_match_implies_count_pos(rows, user, j);
        }
    }
}

/// A count of one means the matching row's index is unique.
pub proof fn lemma_count_one_unique(rows: Seq<(String, String)>, user: Seq<char>, i: int)
    requires
        user_count(rows, user) == 1,
        0 <= i < rows.len(),
        rows[i].0@ == user,
    ensures
        forall|j: int| 0 <= j < rows.len() && j != i ==> (#[trigger] rows[j]).0@ != user,
    decreases rows.len(),
{
    let tail = rows.skip(1);
    if rows[0].0@ == user {
        lemma_count_zero_no_match(tail, user);
        assert forall|j: int| 0 <= j < rows.len() && j != i implies (#[trigger] rows[j]).0@
            != user by {
            if j > 0 {
                assert(tail[j - 1] == rows[j]);
            } else {
                assert(i > 0);
                assert(tail[i - 1] == rows[i]);
            }
        }
    } else {
        assert(i > 0);
        assert(tail[i - 1] == rows[i]);
        lemma_count_one_unique(tail, user, i - 1);
        assert forall|j: int| 0 <= j < rows.len() && j != i implies (#[trigger] rows[j]).0@
            != user by {
            if j > 0 {
                assert(tail[j - 1] == rows[j]);
            }
        }
    }
}

/// Appending a row adds to the count of its own username only, and when the
/// username was absent the new row's hash is the stored one.
pub proof fn lemma_user_count_push(
    rows: Seq<(String, String)>,
    user: Seq<char>,
    row: (String, String),
)
    ensures
        user_count(rows.push(row), user) == user_count(rows, user) + (if row.0@ == user {
            1nat
        } else {
            0nat
        }),
        user_count(rows, user) == 0 && row.0@ == user ==> stored_phc(rows.push(row), user)
            == row.1@,
        row.0@ != user ==> stored_phc(rows.push(row), user) == stored_phc(rows, user),
    decreases rows.len(),
{
    if rows.len() == 0 {
        assert(rows.push(row)[0] == row);
        assert(rows.push(row).skip(1) =~= rows);
    } else {
        assert(rows.push(row)[0] == rows[0]);
        assert(rows.push(row).skip(1) =~= rows.skip(1).push(row));
        lemma_user_count_push(rows.skip(1), user, row);
    }
}

/// Replacing the first row of a username by a row of the same username
/// keeps every count; with exactly one row for it, the stored hash becomes
/// the new row's.
pub proof fn lemma_user_count_update(
    rows: Seq<(String, String)>,
    i: int,
    row: (String, String),
)
    requires
        0 <= i < rows.len(),
        row.0@ == rows[i].0@,
        forall|j: int| 0 <= j < i ==> rows[j].0@ != rows[i].0@,
    ensures
        forall|u: Seq<char>| user_count(rows.update(i, row), u) == user_count(rows, u),
        user_count(rows, rows[i].0@) == 1 ==> stored_phc(rows.update(i, row), rows[i].0@)
            == row.1@,
        forall|u: Seq<char>|
            u != rows[i].0@ ==> stored_phc(rows.update(i, row), u) == stored_phc(rows, u),
    decreases i,
{
    let rows2 = rows.update(i, row);
    if i == 0 {
        assert(rows2[0] == row);
        assert(rows2.skip(1) =~= rows.skip(1));
    } else {
        let tail = rows.skip(1);
        let tail2 = rows2.skip(1);
        assert(rows2[0] == rows[0]);
        assert(tail[i - 1] == rows[i]);
        assert forall|j: int| 0 <= j < i - 1 implies (#[trigger] tail[j]).0@ != tail[i - 1].0@ by {
            assert(tail[j] == rows[j + 1]);
        }
        assert(tail2 =~= tail.update(i - 1, row));
        lemma_user_count_update(tail, i - 1, row);
        assert forall|u: Seq<char>| user_count(rows2, u) == user_count(rows, u) by {
            assert(user_count(tail.update(i - 1, row), u) == user_count(tail, u));
        }
        if user_count(rows, rows[i].0@) == 1 {
            assert(rows[0].0@ != rows[i].0@);
            assert(user_count(tail, tail[i - 1].0@) == 1);
            assert(stored_phc(rows2, rows[i].0@) == stored_phc(tail.update(i - 1, row), rows[i].0@));
        }
        assert forall|u: Seq<char>|
            u != rows[i].0@ implies stored_phc(rows2, u) == stored_phc(rows, u) by {
            assert(stored_phc(tail.update(i - 1, row), u) == stored_phc(tail, u));
        }
    }
}

/// Removing one row lowers the count of its own username by one and keeps
/// every other count.
pub proof fn lemma_user_count_remove(rows: Seq<(String, String)>, i: int)
    requires
        0 <= i < rows.len(),
    ensures
        forall|u: Seq<char>|
            user_count(rows, u) == user_count(rows.remove(i), u) + (if rows[i].0@ == u {
                1nat
            } else {
                0nat
            }),
    decreases i,
{
    let rows2 = rows.remove(i);
    if i == 0 {
        assert(rows2 =~= rows.skip(1));
    } else {
        let tail = rows.skip(1);
        assert(rows2[0] == rows[0]);
        assert(tail[i - 1] == rows[i]);
        assert(rows2.skip(1) =~= tail.remove(i - 1));
        lemma_user_count_remove(tail, i - 1);
        assert forall|u: Seq<char>|
            user_count(rows, u) == user_count(rows2, u) + (if rows[i].0@ == u {
                1nat
            } else {
                0nat
            }) by {
            assert(user_count(tail, u) == user_count(tail.remove(i - 1), u) + (if tail[i
                - 1].0@ == u {
                1nat
            } else {
                0nat
            }));
        }
    }
}

} // verus!
