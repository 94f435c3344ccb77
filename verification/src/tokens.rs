use base64::Engine;
use vstd::prelude::*;

verus! {

/// One live session token: an opaque high-entropy string, the username it
/// authenticates, and the issuance time in milliseconds since the Unix
/// epoch.
pub struct TokenEntry {
    pub token: String,
    pub user: String,
    pub issued_at: u64,
}

impl Clone for TokenEntry {
    fn clone(&self) -> (r: Self)
        ensures
            r.token@ == self.token@,
            r.user@ == self.user@,
            r.issued_at == self.issued_at,
    {
        TokenEntry {
            token: self.token.clone(),
            user: self.user.clone(),
            issued_at: self.issued_at,
        }
    }
}

/// Each token string occurs at most once: a token maps to exactly one owner
/// and one issuance time.
pub open spec fn distinct_tokens(toks: Seq<TokenEntry>) -> bool {
    forall|i: int, j: int|
        0 <= i < j < toks.len() ==> (#[trigger] toks[i].token@) != (#[trigger] toks[j].token@)
}

/// The map holds `token`, owned by `user` and issued at `at`.
pub open spec fn holds_token(
    toks: Seq<TokenEntry>,
    token: Seq<char>,
    user: Seq<char>,
    at: u64,
) -> bool {
    exists|i: int|
        0 <= i < toks.len() && (#[trigger] toks[i]).token@ == token && toks[i].user@ == user
            && toks[i].issued_at == at
}

/// The map holds `token`, owned by `user`, whatever the issuance time.
pub open spec fn owner_has_token(
    toks: Seq<TokenEntry>,
    token: Seq<char>,
    user: Seq<char>,
) -> bool {
    exists|a: u64| holds_token(toks, token, user, a)
}

/// The map holds `token`, whoever owns it.
pub open spec fn has_token(toks: Seq<TokenEntry>, token: Seq<char>) -> bool {
    exists|i: int| 0 <= i < toks.len() && (#[trigger] toks[i]).token@ == token
}

/// A token issued at `at` is kept by a sweep at `now` with age bound
/// `max_age` when its age does not exceed `max_age`; an issuance time in
/// the future counts as age zero.
pub open spec fn fresh_at(at: u64, now: u64, max_age: u64) -> bool {
    at >= now || now - at <= max_age
}

/// Two entries carry the same token, owner and issuance time.
pub open spec fn entry_eq(a: TokenEntry, b: TokenEntry) -> bool {
    a.token@ == b.token@ && a.user@ == b.user@ && a.issued_at == b.issued_at
}

/// Exactly the entries whose string is `token` are gone; every other entry
/// is kept, owner and issuance time untouched.
pub open spec fn token_swept(
    before: Seq<TokenEntry>,
    after: Seq<TokenEntry>,
    token: Seq<char>,
) -> bool {
    forall|t: Seq<char>, u: Seq<char>, a: u64|
        #![trigger holds_token(after, t, u, a)]
        #![trigger holds_token(before, t, u, a)]
        holds_token(after, t, u, a) <==> (holds_token(before, t, u, a) && t != token)
}

/// Exactly the entries owned by `user` are gone; every other entry is kept.
pub open spec fn user_swept(
    before: Seq<TokenEntry>,
    after: Seq<TokenEntry>,
    user: Seq<char>,
) -> bool {
    forall|t: Seq<char>, u: Seq<char>, a: u64|
        #![trigger holds_token(after, t, u, a)]
        #![trigger holds_token(before, t, u, a)]
        holds_token(after, t, u, a) <==> (holds_token(before, t, u, a) && u != user)
}

/// Exactly the entries whose age at `now` exceeds `max_age` are gone;
/// every younger entry is kept untouched.
pub open spec fn age_swept(
    before: Seq<TokenEntry>,
    after: Seq<TokenEntry>,
    now: u64,
    max_age: u64,
) -> bool {
    forall|t: Seq<char>, u: Seq<char>, a: u64|
        #![trigger holds_token(after, t, u, a)]
        #![trigger holds_token(before, t, u, a)]
        holds_token(after, t, u, a) <==> (holds_token(before, t, u, a) && fresh_at(
            a,
            now,
            max_age,
        ))
}

/// A token present in a well-formed map has exactly one owner and one
/// issuance time.
pub proof fn lemma_token_owner_unique(
    toks: Seq<TokenEntry>,
    t: Seq<char>,
    u1: Seq<char>,
    a1: u64,
    u2: Seq<char>,
    a2: u64,
)
    requires
        distinct_tokens(toks),
        holds_token(toks, t, u1, a1),
        holds_token(toks, t, u2, a2),
    ensures
        u1 == u2,
        a1 == a2,
{
    let i1 = choose|i: int|
        0 <= i < toks.len() && (#[trigger] toks[i]).token@ == t && toks[i].user@ == u1
            && toks[i].issued_at == a1;
    let i2 = choose|i: int|
        0 <= i < toks.len() && (#[trigger] toks[i]).token@ == t && toks[i].user@ == u2
            && toks[i].issued_at == a2;
    if i1 < i2 {
        assert(toks[i1].token@ != toks[i2].token@);
    } else if i2 < i1 {
        assert(toks[i2].token@ != toks[i1].token@);
    }
}

/// In a well-formed map a token has one owner: whoever `issue_token` made
/// an entry for, a lookup of that token can name no one else.
pub proof fn lemma_owner_unique(
    toks: Seq<TokenEntry>,
    t: Seq<char>,
    u1: Seq<char>,
    u2: Seq<char>,
)
    requires
        distinct_tokens(toks),
        owner_has_token(toks, t, u1),
        owner_has_token(toks, t, u2),
    ensures
        u1 == u2,
{
    let a1 = choose|a: u64| holds_token(toks, t, u1, a);
    let a2 = choose|a: u64| holds_token(toks, t, u2, a);
    lemma_token_owner_unique(toks, t, u1, a1, u2, a2);
}

/// A criterion that a sweep over the token map keeps entries by.
pub(crate) enum Sweep {
    /// Keep every entry whose token string differs.
    ByToken(String),
    /// Keep every entry whose owner differs.
    ByUser(String),
    /// Keep every entry no older than the bound: `ByAge(now, max_age)`.
    ByAge(u64, u64),
}

/// Whether a sweep by `c` keeps an entry with the given token, owner and
/// issuance time.
pub(crate) open spec fn keeps(c: Sweep, t: Seq<char>, u: Seq<char>, a: u64) -> bool {
    match c {
        Sweep::ByToken(tok) => t != tok@,
        Sweep::ByUser(us) => u != us@,
        Sweep::ByAge(now, max_age) => fresh_at(a, now, max_age),
    }
}

/// The entries of `after` are exactly the entries of `before` that the
/// criterion keeps.
pub(crate) open spec fn swept_by(
    before: Seq<TokenEntry>,
    after: Seq<TokenEntry>,
    c: Sweep,
) -> bool {
    forall|t: Seq<char>, u: Seq<char>, a: u64|
        #![trigger holds_token(after, t, u, a)]
        #![trigger holds_token(before, t, u, a)]
        holds_token(after, t, u, a) <==> (holds_token(before, t, u, a) && keeps(c, t, u, a))
}

/// Reads one point of a `swept_by` relation.
pub(crate) proof fn lemma_swept_transfer(
    before: Seq<TokenEntry>,
    after: Seq<TokenEntry>,
    c: Sweep,
    t: Seq<char>,
    u: Seq<char>,
    a: u64,
)
    requires
        swept_by(before, after, c),
    ensures
        holds_token(after, t, u, a) <==> (holds_token(before, t, u, a) && keeps(c, t, u, a)),
{
}

/// A sweep by token string is exactly a `token_swept` step.
pub(crate) proof fn lemma_token_swept_from(
    before: Seq<TokenEntry>,
    after: Seq<TokenEntry>,
    c: Sweep,
    token: Seq<char>,
)
    requires
        swept_by(before, after, c),
        c matches Sweep::ByToken(s) && s@ == token,
    ensures
        token_swept(before, after, token),
        !has_token(after, token),
{
    assert forall|t: Seq<char>, u: Seq<char>, a: u64|
        #![trigger holds_token(after, t, u, a)]
        #![trigger holds_token(before, t, u, a)]
        holds_token(after, t, u, a) == ((holds_token(before, t, u, a) && t != token)) by {
        lemma_swept_transfer(before, after, c, t, u, a);
    }
    if has_token(after, token) {
        let i = choose|i: int| 0 <= i < after.len() && (#[trigger] after[i]).token@ == token;
        assert(holds_token(after, token, after[i].user@, after[i].issued_at));
    }
}

/// A sweep by owner is exactly a `user_swept` step.
pub(crate) proof fn lemma_user_swept_from(
    before: Seq<TokenEntry>,
    after: Seq<TokenEntry>,
    c: Sweep,
    user: Seq<char>,
)
    requires
        swept_by(before, after, c),
        c matches Sweep::ByUser(s) && s@ == user,
    ensures
        user_swept(before, after, user),
{
    assert forall|t: Seq<char>, u: Seq<char>, a: u64|
        #![trigger holds_token(after, t, u, a)]
        #![trigger holds_token(before, t, u, a)]
        holds_token(after, t, u, a) == ((holds_token(before, t, u, a) && u != user)) by {
        lemma_swept_transfer(before, after, c, t, u, a);
    }
}

/// A sweep by age is exactly an `age_swept` step.
pub(crate) proof fn lemma_age_swept_from(
    before: Seq<TokenEntry>,
    after: Seq<TokenEntry>,
    c: Sweep,
    now: u64,
    max_age: u64,
)
    requires
        swept_by(before, after, c),
        c == Sweep::ByAge(now, max_age),
    ensures
        age_swept(before, after, now, max_age),
{
    assert forall|t: Seq<char>, u: Seq<char>, a: u64|
        #![trigger holds_token(after, t, u, a)]
        #![trigger holds_token(before, t, u, a)]
        holds_token(after, t, u, a) == ((holds_token(before, t, u, a) && fresh_at(
            a,
            now,
            max_age,
        ))) by {
        lemma_swept_transfer(before, after, c, t, u, a);
    }
}

/// The kept entry at `j` stems from an entry of `toks` before `bound` that
/// the criterion keeps.
pub(crate) open spec fn kept_from(
    kept: Seq<TokenEntry>,
    toks: Seq<TokenEntry>,
    bound: int,
    c: Sweep,
    j: int,
) -> bool {
    exists|k: int|
        0 <= k < bound && entry_eq(kept[j], #[trigger] toks[k]) && keeps(
            c,
            toks[k].token@,
            toks[k].user@,
            toks[k].issued_at,
        )
}

/// The entry of `toks` at `k` is among the kept entries.
pub(crate) open spec fn kept_onto(kept: Seq<TokenEntry>, toks: Seq<TokenEntry>, k: int) -> bool {
    exists|j: int| 0 <= j < kept.len() && entry_eq(#[trigger] kept[j], toks[k])
}

/// Every kept entry stems from an entry before `bound` that the criterion
/// keeps.
pub(crate) open spec fn sweep_inv_from(
    kept: Seq<TokenEntry>,
    toks: Seq<TokenEntry>,
    bound: int,
    c: Sweep,
) -> bool {
    forall|j: int| 0 <= j < kept.len() ==> #[trigger] kept_from(kept, toks, bound, c, j)
}

/// Every entry before `bound` that the criterion keeps is among the kept.
pub(crate) open spec fn sweep_inv_onto(
    kept: Seq<TokenEntry>,
    toks: Seq<TokenEntry>,
    bound: int,
    c: Sweep,
) -> bool {
    forall|k: int|
        0 <= k < bound && keeps(
            c,
            (#[trigger] toks[k]).token@,
            toks[k].user@,
            toks[k].issued_at,
        ) ==> kept_onto(kept, toks, k)
}

/// One sweep step over an entry the criterion drops.
pub(crate) proof fn lemma_sweep_skip(kept: Seq<TokenEntry>, toks: Seq<TokenEntry>, i: int, c: Sweep)
    requires
        0 <= i < toks.len(),
        !keeps(c, toks[i].token@, toks[i].user@, toks[i].issued_at),
        sweep_inv_from(kept, toks, i, c),
        sweep_inv_onto(kept, toks, i, c),
    ensures
        sweep_inv_from(kept, toks, i + 1, c),
        sweep_inv_onto(kept, toks, i + 1, c),
{
    assert forall|j: int| 0 <= j < kept.len() implies #[trigger] kept_from(
        kept,
        toks,
        i + 1,
        c,
        j,
    ) by {
        assert(kept_from(kept, toks, i, c, j));
        let k = choose|k: int|
            0 <= k < i && entry_eq(kept[j], #[trigger] toks[k]) && keeps(
                c,
                toks[k].token@,
                toks[k].user@,
                toks[k].issued_at,
            );
        assert(0 <= k < i + 1 && entry_eq(kept[j], toks[k]) && keeps(
            c,
            toks[k].token@,
            toks[k].user@,
            toks[k].issued_at,
        ));
    }
    assert forall|k: int|
        0 <= k < i + 1 && keeps(
            c,
            (#[trigger] toks[k]).token@,
            toks[k].user@,
            toks[k].issued_at,
        ) implies kept_onto(kept, toks, k) by {
        assert(k < i);
    }
}

/// One sweep step over an entry the criterion keeps: the entry was just
/// appended (up to field equality) to the kept sequence.
pub(crate) proof fn lemma_sweep_keep(
    kept0: Seq<TokenEntry>,
    kept: Seq<TokenEntry>,
    toks: Seq<TokenEntry>,
    i: int,
    c: Sweep,
)
    requires
        0 <= i < toks.len(),
        distinct_tokens(toks),
        keeps(c, toks[i].token@, toks[i].user@, toks[i].issued_at),
        kept.len() == kept0.len() + 1,
        forall|j: int| 0 <= j < kept0.len() ==> kept[j] == kept0[j],
        entry_eq(kept[kept.len() - 1], toks[i]),
        distinct_tokens(kept0),
        sweep_inv_from(kept0, toks, i, c),
        sweep_inv_onto(kept0, toks, i, c),
    ensures
        distinct_tokens(kept),
        sweep_inv_from(kept, toks, i + 1, c),
        sweep_inv_onto(kept, toks, i + 1, c),
{
    let last = kept.len() - 1;
    assert forall|j1: int, j2: int| 0 <= j1 < j2 < kept.len() implies (#[trigger] kept[j1].token@)
        != (#[trigger] kept[j2].token@) by {
        if j2 < last {
            assert(kept0[j1].token@ != kept0[j2].token@);
        } else {
            assert(kept_from(kept0, toks, i, c, j1));
            let k = choose|k: int|
                0 <= k < i && entry_eq(kept0[j1], #[trigger] toks[k]) && keeps(
                    c,
                    toks[k].token@,
                    toks[k].user@,
                    toks[k].issued_at,
                );
            assert(toks[k].token@ != toks[i].token@);
        }
    }
    assert forall|j: int| 0 <= j < kept.len() implies #[trigger] kept_from(
        kept,
        toks,
        i + 1,
        c,
        j,
    ) by {
        if j < last {
            assert(kept_from(kept0, toks, i, c, j));
            let k = choose|k: int|
                0 <= k < i && entry_eq(kept0[j], #[trigger] toks[k]) && keeps(
                    c,
                    toks[k].token@,
                    toks[k].user@,
                    toks[k].issued_at,
                );
            assert(0 <= k < i + 1 && entry_eq(kept[j], toks[k]) && keeps(
                c,
                toks[k].token@,
                toks[k].user@,
                toks[k].issued_at,
            ));
        } else {
            assert(0 <= i < i + 1 && entry_eq(kept[j], toks[i]) && keeps(
                c,
                toks[i].token@,
                toks[i].user@,
                toks[i].issued_at,
            ));
        }
    }
    assert forall|k: int|
        0 <= k < i + 1 && keeps(
            c,
            (#[trigger] toks[k]).token@,
            toks[k].user@,
            toks[k].issued_at,
        ) implies kept_onto(kept, toks, k) by {
        if k < i {
            assert(kept_onto(kept0, toks, k));
            let j = choose|j: int| 0 <= j < kept0.len() && entry_eq(#[trigger] kept0[j], toks[k]);
            assert(0 <= j < kept.len() && entry_eq(kept[j], toks[k]));
        } else {
            assert(0 <= last < kept.len() && entry_eq(kept[last], toks[k]));
        }
    }
}

/// After a full sweep, the kept entries are exactly those the criterion
/// keeps.
pub(crate) proof fn lemma_sweep_complete(kept: Seq<TokenEntry>, toks: Seq<TokenEntry>, c: Sweep)
    requires
        sweep_inv_from(kept, toks, toks.len() as int, c),
        sweep_inv_onto(kept, toks, toks.len() as int, c),
    ensures
        swept_by(toks, kept, c),
{
    let n = toks.len() as int;
    assert forall|t: Seq<char>, u: Seq<char>, a: u64|
        #![trigger holds_token(kept, t, u, a)]
        #![trigger holds_token(toks, t, u, a)]
        holds_token(kept, t, u, a) == ((holds_token(toks, t, u, a) && keeps(c, t, u, a))) by {
        if holds_token(kept, t, u, a) {
            let j = choose|j: int|
                0 <= j < kept.len() && (#[trigger] kept[j]).token@ == t && kept[j].user@ == u
                    && kept[j].issued_at == a;
            assert(kept_from(kept, toks, n, c, j));
            let k = choose|k: int|
                0 <= k < n && entry_eq(kept[j], #[trigger] toks[k]) && keeps(
                    c,
                    toks[k].token@,
                    toks[k].user@,
                    toks[k].issued_at,
                );
            assert(toks[k].token@ == t && toks[k].user@ == u && toks[k].issued_at == a);
            assert(holds_token(toks, t, u, a));
        }
        if holds_token(toks, t, u, a) && keeps(c, t, u, a) {
            let k = choose|k: int|
                0 <= k < toks.len() && (#[trigger] toks[k]).token@ == t && toks[k].user@ == u
                    && toks[k].issued_at == a;
            assert(keeps(c, toks[k].token@, toks[k].user@, toks[k].issued_at));
            assert(kept_onto(kept, toks, k));
            let j = choose|j: int| 0 <= j < kept.len() && entry_eq(#[trigger] kept[j], toks[k]);
            assert(0 <= j < kept.len() && kept[j].token@ == t && kept[j].user@ == u
                && kept[j].issued_at == a);
            assert(holds_token(kept, t, u, a));
        }
    }
}

/// The base64 encoding, standard alphabet with padding, of a byte string;
/// a function of the bytes alone.
pub uninterp spec fn base64_std(bytes: Seq<u8>) -> Seq<char>;

/// Relies on base64's `BASE64_STANDARD` engine: it encodes with the
/// standard alphabet and padding, four output characters for every three
/// input bytes begun, a function of the bytes alone.
#[verifier::external_body]
pub(crate) fn base64_encode(bytes: &Vec<u8>) -> (r: String)
    requires
        bytes@.len() <= 0x3FFF_FFFF,
    ensures
        r@ == base64_std(bytes@),
        r@.len() == ((bytes@.len() + 2) / 3) * 4,
{
    base64::prelude::BASE64_STANDARD.encode(bytes.as_slice())
}

/// Relies on `std::time::SystemTime::now`, read as whole milliseconds since
/// the Unix epoch (zero for a clock before the epoch). No two calls are
/// promised any relation: every contract downstream holds for an arbitrary
/// reading.
#[verifier::external_body]
pub(crate) fn now_millis() -> u64 {
    match std::time::SystemTime::now().duration_since(std::time::UNIX_EPOCH) {
        Ok(d) => d.as_millis() as u64,
        Err(_) => 0,
    }
}

} // verus!
