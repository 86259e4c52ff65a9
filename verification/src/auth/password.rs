//! Passwords. They are kept as Argon2id hashes; an older store may hold a SHA-256 digest in
//! hexadecimal digits.

use crate::text;
use argon2::Argon2;
use password_hash::{PasswordHash, PasswordHasher, PasswordVerifier, SaltString};
use rand_core::OsRng;
use sha2::{Digest, Sha256};
use vstd::prelude::*;

verus! {

broadcast use vstd::string::group_string_axioms;

/// What `argon2` makes of a password and a salt: the hash as a line of text, or what went wrong.
pub uninterp spec fn argon2_hashed(password: Seq<char>, salt: Seq<char>) -> Result<
    Seq<char>,
    Seq<char>,
>;

/// The text is a hash that `password_hash` reads and that `argon2` finds to be the password's.
pub uninterp spec fn argon2_accepts(password: Seq<char>, hash: Seq<char>) -> bool;

/// The text is a salt that `password_hash` reads and that is long enough for `argon2`.
pub uninterp spec fn is_salt(salt: Seq<char>) -> bool;

/// The SHA-256 digest that `sha2` computes of the text's UTF-8 bytes.
pub uninterp spec fn sha256_digest(s: Seq<char>) -> Seq<u8>;

/// The text has the outer form of an Argon2 hash: it starts with a dollar sign, and dollar signs
/// part the name of one of the three algorithms, at most two fields for the version and the
/// parameters, the salt and the output.
pub open spec fn is_phc(s: Seq<char>) -> bool {
    let f = text::pieces(s, '$');
    &&& 4 <= f.len() <= 6
    &&& f[0].len() == 0
    &&& f[1] == "argon2d"@ || f[1] == "argon2i"@ || f[1] == "argon2id"@
}

/// `password_hash::SaltString::generate` with the random numbers of the operating system.
#[verifier::external_body]
fn new_salt() -> (r: String)
    ensures
        is_salt(r@),
{
    SaltString::generate(&mut OsRng).to_string()
}

/// `argon2::Argon2::default`, and its `hash_password` of the password's bytes with the salt. The
/// hash has the form of one, starts with the name of the algorithm and is accepted for the password.
/// With a salt as it should be, only passwords of more than four gigabytes fail.
#[verifier::external_body]
fn argon2_hash(password: &str, salt: &str) -> (r: Result<String, String>)
    ensures
        match r {
            Ok(h) => argon2_hashed(password@, salt@) == Ok::<Seq<char>, Seq<char>>(h@),
            Err(e) => argon2_hashed(password@, salt@) == Err::<Seq<char>, Seq<char>>(e@),
        },
        r matches Ok(h) ==> argon2_accepts(password@, h@) && is_phc(h@) && "$argon2id$"@.is_prefix_of(
            h@,
        ),
        is_salt(salt@) && password@.len() <= 0x3fff_ffff ==> r is Ok,
{
    let salt = SaltString::from_b64(salt).map_err(|e| e.to_string())?;
    let hash = Argon2::default().hash_password(password.as_bytes(), &salt);
    hash.map(|h| h.to_string()).map_err(|e| e.to_string())
}

/// `password_hash::PasswordHash::new`, and `verify_password` of `argon2::Argon2::default` on what it
/// reads. The first refuses a text that does not start with a dollar sign or has too many fields;
/// the second refuses one without salt or output, and any algorithm that is not its own.
#[verifier::external_body]
fn argon2_verify(password: &str, hash: &str) -> (r: bool)
    ensures
        r == argon2_accepts(password@, hash@),
        r ==> is_phc(hash@),
{
    match PasswordHash::new(hash) {
        Ok(h) => Argon2::default().verify_password(password.as_bytes(), &h).is_ok(),
        Err(_) => false,
    }
}

/// `sha2::Sha256::digest` of the text's bytes: 32 bytes.
#[verifier::external_body]
fn sha256(s: &str) -> (r: Vec<u8>)
    ensures
        r@ == sha256_digest(s@),
        r@.len() == 32,
{
    Sha256::digest(s.as_bytes()).to_vec()
}

/// The bytes in hexadecimal digits, two for each.
pub open spec fn hex(bytes: Seq<u8>) -> Seq<char>
    decreases bytes.len(),
{
    if bytes.len() == 0 {
        Seq::empty()
    } else {
        hex(bytes.drop_last()) + text::hex_byte(bytes.last())
    }
}

/// The text has the shape of a SHA-256 digest: 64 hexadecimal digits.
pub open spec fn is_digest(s: Seq<char>) -> bool {
    s.len() == 64 && forall|i: int| 0 <= i < s.len() ==> text::is_hex_digit(#[trigger] s[i])
}

/// The password goes with what is stored. Nothing goes with nothing stored; only the empty password
/// goes with an empty text; a text that is neither a hash nor a digest goes with nothing.
pub open spec fn accepted(password: Seq<char>, stored: Option<Seq<char>>) -> bool {
    match stored {
        None => false,
        Some(h) => if h.len() == 0 {
            password.len() == 0
        } else {
            (is_phc(h) && argon2_accepts(password, h)) || (is_digest(h) && hex(sha256_digest(password)) == h)
        },
    }
}

fn to_hex(bytes: &Vec<u8>) -> (r: String)
    ensures
        r@ == hex(bytes@),
{
    let mut out: String = String::new();
    let mut i: usize = 0;
    while i < bytes.len()
        invariant
            i <= bytes@.len(),
            out@ == hex(bytes@.subrange(0, i as int)),
        decreases bytes@.len() - i,
    {
        proof {
            let longer = bytes@.subrange(0, i + 1);
            assert(longer.drop_last() =~= bytes@.subrange(0, i as int));
        }
        text::push_hex(&mut out, bytes[i]);
        i += 1;
    }
    assert(bytes@.subrange(0, bytes@.len() as int) =~= bytes@);
    out
}

fn has_digest_shape(s: &str) -> (r: bool)
    ensures
        r == is_digest(s@),
{
    let chars = text::chars_of(s);
    if chars.len() != 64 {
        return false;
    }
    let mut i: usize = 0;
    while i < chars.len()
        invariant
            i <= chars@.len(),
            chars@ == s@,
            chars@.len() == 64,
            forall|k: int| 0 <= k < i ==> text::is_hex_digit(#[trigger] chars@[k]),
        decreases chars@.len() - i,
    {
        let c: char = chars[i];
        if !text::has_hex_digit(c) {
            return false;
        }
        i += 1;
    }
    true
}

/// Hashes a password with a given salt.
pub fn hash_with_salt(password: &str, salt: &str) -> (r: Result<String, String>)
    ensures
        match r {
            Ok(h) => argon2_hashed(password@, salt@) == Ok::<Seq<char>, Seq<char>>(h@),
            Err(e) => argon2_hashed(password@, salt@) matches Err(m) && e@ == "Hashing failed: "@ + m,
        },
        r matches Ok(h) ==> "$argon2id$"@.is_prefix_of(h@) && accepted(password@, Some(h@)),
        is_salt(salt@) && password@.len() <= 0x3fff_ffff ==> r is Ok,
{
    match argon2_hash(password, salt) {
        Ok(h) => {
            proof {
                reveal_strlit("$argon2id$");
            }
            Ok(h)
        },
        Err(e) => {
            let mut s = "Hashing failed: ".to_owned();
            s.append(e.as_str());
            Err(s)
        },
    }
}

/// The result is a hash of the password with some salt.
pub open spec fn hashed_somehow(password: Seq<char>, r: Result<String, String>) -> bool {
    match r {
        Ok(h) => exists|salt: Seq<char>|
            is_salt(salt) && #[trigger] argon2_hashed(password, salt) == Ok::<
                Seq<char>,
                Seq<char>,
            >(h@),
        Err(_) => password.len() > 0x3fff_ffff,
    }
}

/// Hashes a password with a salt of its own. The hash is accepted for the password.
pub fn hash_password(password: &str) -> (r: Result<String, String>)
    ensures
        hashed_somehow(password@, r),
        r matches Ok(h) ==> "$argon2id$"@.is_prefix_of(h@) && accepted(password@, Some(h@)),
{
    let salt = new_salt();
    hash_with_salt(password, salt.as_str())
}

/// Whether a password goes with what is stored.
pub fn verify_password(password: &str, stored_hash: &Option<String>) -> (r: bool)
    ensures
        r == accepted(password@, text::optional(*stored_hash)),
{
    match stored_hash {
        None => false,
        Some(h) => {
            proof {
                reveal_strlit("");
                assert(h@.len() == 0 ==> h@ =~= ""@);
                assert(password@.len() == 0 ==> password@ =~= ""@);
            }
            if text::same_text(h.as_str(), "") {
                return text::same_text(password, "");
            }
            if argon2_verify(password, h.as_str()) {
                return true;
            }
            if has_digest_shape(h.as_str()) {
                let computed = to_hex(&sha256(password));
                return text::same_text(computed.as_str(), h.as_str());
            }
            false
        },
    }
}

/// Whether a password is asked for at all: only where one is stored.
pub fn is_auth_enabled(password_hash: &Option<String>) -> (r: bool)
    ensures
        r == (password_hash matches Some(h) && h@.len() > 0),
{
    match password_hash {
        Some(h) => {
            let empty: bool = text::same_text(h.as_str(), "");
            proof {
                reveal_strlit("");
                assert(h@.len() == 0 ==> h@ =~= ""@);
            }
            !empty
        },
        None => false,
    }
}

/// Nothing goes with nothing stored, only the empty password with an empty text, and no password
/// with a text that is neither an Argon2 hash nor a digest.
pub proof fn law_only_hashes_are_matched(password: Seq<char>, stored: Seq<char>)
    ensures
        !accepted(password, None),
        stored.len() == 0 ==> (accepted(password, Some(stored)) <==> password.len() == 0),
        stored.len() > 0 && !is_phc(stored) && !is_digest(stored) ==> !accepted(
            password,
            Some(stored),
        ),
        stored.len() > 0 && stored[0] != '$' && !is_digest(stored) ==> !accepted(
            password,
            Some(stored),
        ),
{
    if stored.len() > 0 && stored[0] != '$' {
        text::lemma_first_index(stored, '$');
        let f = text::pieces(stored, '$');
        assert(f[0].len() > 0);
    }
}

/// The digits of bytes are two for each, the higher first, in small letters.
pub proof fn law_digests_are_written_in_digits(bytes: Seq<u8>, i: int)
    requires
        0 <= i < bytes.len(),
    ensures
        hex(bytes).len() == 2 * bytes.len(),
        crate::dhcp::mac::writes_digit(hex(bytes)[2 * i], bytes[i] as int / 16),
        crate::dhcp::mac::writes_digit(hex(bytes)[2 * i + 1], bytes[i] as int % 16),
    decreases bytes.len(),
{
    let before = bytes.drop_last();
    lemma_hex_length(before);
    if i < before.len() {
        law_digests_are_written_in_digits(before, i);
        assert(before[i] == bytes[i]);
    }
}

proof fn lemma_hex_length(bytes: Seq<u8>)
    ensures
        hex(bytes).len() == 2 * bytes.len(),
    decreases bytes.len(),
{
    if bytes.len() > 0 {
        lemma_hex_length(bytes.drop_last());
    }
}

/// An older store holds a digest of 64 digits of base sixteen: a password goes with it exactly where
/// they are the digits of its own digest.
pub proof fn law_old_digests_are_matched(password: Seq<char>, stored: Seq<char>)
    requires
        stored.len() > 0,
        stored[0] != '$',
    ensures
        accepted(password, Some(stored)) <==> stored.len() == 64 && (forall|i: int|
            0 <= i < 64 ==> text::is_hex_digit(#[trigger] stored[i])) && hex(sha256_digest(password))
            == stored,
{
    law_only_hashes_are_matched(password, stored);
    text::lemma_first_index(stored, '$');
    let f = text::pieces(stored, '$');
    assert(f[0].len() > 0);
}

/// A password that was hashed is accepted afterwards, and its hash is one of Argon2; hashing fails only
/// for passwords of more than a thousand million characters.
pub proof fn law_hashed_password_is_accepted(password: &str, r: Result<String, String>)
    requires
        hash_password.ensures((password,), r),
    ensures
        r is Ok ==> accepted(password@, Some(r->Ok_0@)) && "$argon2id$"@.is_prefix_of(r->Ok_0@),
        r is Err ==> password@.len() > 1_000_000_000,
{
}

/// A password is judged by what is stored: nothing goes with nothing, and anything else by its hash.
pub proof fn law_password_is_verified(password: &str, stored: &Option<String>, r: bool)
    requires
        verify_password.ensures((password, stored), r),
    ensures
        stored is None ==> !r,
        stored matches Some(h) ==> (h@.len() == 0 ==> (r <==> password@.len() == 0)),
        stored matches Some(h) ==> (h@.len() > 0 && h@[0] == '$' ==> (r ==> argon2_accepts(
            password@,
            h@,
        ))),
        stored matches Some(h) ==> (is_phc(h@) && argon2_accepts(password@, h@) ==> r),
{
    if stored is Some && stored->0@.len() > 0 && stored->0@[0] == '$' {
        assert(!text::is_hex_digit(stored->0@[0]));
    }
    if stored is Some && stored->0@.len() == 0 && is_phc(stored->0@) {
        let h = stored->0@;
        assert(text::first_index(h, '$') == 0);
        assert(text::pieces(h, '$') == seq![h]);
    }
}

} // verus!
