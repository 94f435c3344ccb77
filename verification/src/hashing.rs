use vstd::prelude::*;

verus! {

/// The PHC-style encoded string that the hashing backend produces for a
/// password and a salt. With the backend's default configuration the result
/// is a function of the two alone; algorithm, parameters, version and the
/// salt itself are embedded in the string, so verification needs no
/// external state.
pub uninterp spec fn phc_of(pass: Seq<char>, salt: Seq<u8>) -> Seq<char>;

/// What checking a password against an encoded hash yields: `None` when the
/// encoded string is not a record the backend accepts, `Some(b)` when it
/// parses and the match result is `b`. A function of the two strings alone.
pub uninterp spec fn phc_check(phc: Seq<char>, pass: Seq<char>) -> Option<bool>;

/// Relies on `argon2::hash_encoded` (rust-argon2): with the default
/// configuration it returns a PHC string determined by the password and the
/// salt alone; it succeeds whenever the salt is 8 to 2^32 - 1 bytes and the
/// password is at most 2^32 - 1 bytes (at most 4 bytes per character); and
/// the string it returns verifies as a match against the same password.
#[verifier::external_body]
fn hash_encoded(pass: &str, salt: &Vec<u8>) -> (r: Option<String>)
    ensures
        r matches Some(h) ==> h@ == phc_of(pass@, salt@) && phc_check(h@, pass@) == Some(true),
        8 <= salt@.len() <= 0xFFFF_FFFF && pass@.len() <= 0x3FFF_FFFF ==> r is Some,
{
    match argon2::hash_encoded(pass.as_bytes(), salt.as_slice(), &argon2::Config::default()) {
        Ok(h) => Some(h),
        Err(_) => None,
    }
}

/// Relies on `argon2::verify_encoded` (rust-argon2): a total, deterministic
/// function of the encoded string and the password; it errs exactly when
/// the encoded string does not parse as a record the backend accepts.
#[verifier::external_body]
fn check_encoded(phc: &str, pass: &str) -> (r: Option<bool>)
    ensures
        r == phc_check(phc@, pass@),
{
    match argon2::verify_encoded(phc, pass.as_bytes()) {
        Ok(b) => Some(b),
        Err(_) => None,
    }
}

/// Relies on `getrandom::fill`: fills the buffer with bytes from the
/// operating system's random source. Nothing is promised of the bytes
/// themselves. Panics only if that source fails.
#[verifier::external_body]
pub(crate) fn random_bytes(n: usize) -> (r: Vec<u8>)
    ensures
        r@.len() == n,
{
    let mut buf = vec![0u8; n];
    getrandom::fill(&mut buf).expect("the operating system's random source failed");
    buf
}

/// The salt drawn for every fresh hash: 64 bytes from the operating
/// system's random source.
pub(crate) fn fresh_salt() -> (r: Vec<u8>)
    ensures
        r@.len() == 64,
{
    random_bytes(64)
}

/// The password hasher: encodes `pass` under a fresh 64-byte random salt,
/// so two calls on the same password yield independently salted strings.
/// Returns `None` only if the backend refuses the input, which it never
/// does for a password of at most 2^30 - 1 characters.
pub fn hash_password(pass: &str) -> (r: Option<String>)
    ensures
        r matches Some(h) ==> phc_check(h@, pass@) == Some(true),
        pass@.len() <= 0x3FFF_FFFF ==> r is Some,
{
    let salt = fresh_salt();
    hash_encoded(pass, &salt)
}

/// Checks `pass` against the self-describing encoded hash `phc`.
/// `None` means the encoded string is malformed; `Some(b)` is the match
/// result, where a non-match is a normal `Some(false)`, not an error.
pub fn verify_password(phc: &str, pass: &str) -> (r: Option<bool>)
    ensures
        r == phc_check(phc@, pass@),
{
    check_encoded(phc, pass)
}

} // verus!
