//! The password codec: derives and verifies salted Argon2i password hashes
//! through the `argon2rs` crate. The derivation and the comparison are
//! outside computations, so their results are named rather than restated;
//! what the library itself guarantees is the skeleton of the encoded text
//! (`hash_shape_ok`), which it checks in verified code before any stored
//! hash reaches the decoder, since the decoder does not accept arbitrary
//! truncations.

use vstd::prelude::*;

use crate::record::Passwd;
use crate::text::{first_occurrence, is_digit, lemma_first_occurrence};

verus! {

/// The encoded hash derived from a secret and a salt with this system's
/// fixed cost parameters. A pure function of its arguments.
pub uninterp spec fn encoded_of(secret: Seq<char>, salt: Seq<char>) -> Seq<char>;

/// Whether the decoder accepts a stored hash of acceptable skeleton.
pub uninterp spec fn hash_decodes(stored: Seq<char>) -> bool;

/// Whether recomputing the derivation embedded in a decodable stored hash
/// with the candidate secret reproduces the embedded key. A pure function
/// of its arguments.
pub uninterp spec fn hash_matches(stored: Seq<char>, secret: Seq<char>) -> bool;

/// A stored hash the codec can act on: well-shaped text that decodes.
pub open spec fn stored_hash_valid(stored: Seq<char>) -> bool {
    hash_shape_ok(stored) && hash_decodes(stored)
}

/// End of the run of decimal digits starting at `i`.
pub open spec fn digit_run_end(s: Seq<char>, i: int) -> int
    decreases s.len() - i,
{
    if i < 0 || i >= s.len() {
        i
    } else if is_digit(s[i]) {
        digit_run_end(s, i + 1)
    } else {
        i
    }
}

/// The skeleton of an encoded hash: `$argon2` then the variant letter, then
/// `$m=`, a digit run, `,t=`, a digit run, `,p=`, a digit run, then `$`, a
/// salt segment of at least eleven characters free of `$`, and a final `$`,
/// the whole of bounded length. Text of this shape is consumed by the
/// decoder without ever reading past its end, its salt segment holds at
/// least eight bytes once decoded, and its fields stay within the lengths
/// the recomputation accepts.
pub open spec fn hash_shape_ok(s: Seq<char>) -> bool {
    let j1 = digit_run_end(s, 11);
    let j2 = digit_run_end(s, j1 + 3);
    let j3 = digit_run_end(s, j2 + 3);
    let salt_end = j3 + 1 + first_occurrence(s.skip(j3 + 1), '$');
    &&& s.len() > 11
    &&& s.len() < 0x4000_0000
    &&& s[0] == '$'
    &&& s[1] == 'a'
    &&& s[2] == 'r'
    &&& s[3] == 'g'
    &&& s[4] == 'o'
    &&& s[5] == 'n'
    &&& s[6] == '2'
    &&& (s[7] == 'i' || s[7] == 'd')
    &&& s[8] == '$'
    &&& s[9] == 'm'
    &&& s[10] == '='
    &&& j1 > 11
    &&& j1 + 3 <= s.len()
    &&& s[j1] == ','
    &&& s[j1 + 1] == 't'
    &&& s[j1 + 2] == '='
    &&& j2 > j1 + 3
    &&& j2 + 3 <= s.len()
    &&& s[j2] == ','
    &&& s[j2 + 1] == 'p'
    &&& s[j2 + 2] == '='
    &&& j3 > j2 + 3
    &&& j3 < s.len()
    &&& s[j3] == '$'
    &&& salt_end - (j3 + 1) >= 11
    &&& salt_end < s.len()
}

/// End of the run of decimal digits starting at `start`.
fn digit_run_from(s: &str, start: usize) -> (r: usize)
    requires
        start <= s@.len(),
    ensures
        r == digit_run_end(s@, start as int),
        start <= r <= s@.len(),
{
    let n = s.unicode_len();
    let mut i = start;
    while i < n
        invariant
            start <= i <= n,
            n == s@.len(),
            digit_run_end(s@, start as int) == digit_run_end(s@, i as int),
        decreases n - i,
    {
        let c = s.get_char(i);
        let cv = c as u32;
        if cv < 48 || cv > 57 {
            assert(!is_digit(s@[i as int]));
            return i;
        }
        i += 1;
    }
    i
}

/// Checks the stored-hash skeleton in verified code.
pub fn hash_shape_check(s: &str) -> (r: bool)
    ensures
        r == hash_shape_ok(s@),
{
    let n = s.unicode_len();
    if n <= 11 || n >= 0x4000_0000 {
        return false;
    }
    if !(s.get_char(0) == '$' && s.get_char(1) == 'a' && s.get_char(2) == 'r' && s.get_char(3)
        == 'g' && s.get_char(4) == 'o' && s.get_char(5) == 'n' && s.get_char(6) == '2') {
        return false;
    }
    let v = s.get_char(7);
    if !(v == 'i' || v == 'd') {
        return false;
    }
    if !(s.get_char(8) == '$' && s.get_char(9) == 'm' && s.get_char(10) == '=') {
        return false;
    }
    let j1 = digit_run_from(s, 11);
    if j1 <= 11 || n - j1 < 3 {
        return false;
    }
    if !(s.get_char(j1) == ',' && s.get_char(j1 + 1) == 't' && s.get_char(j1 + 2) == '=') {
        return false;
    }
    let j2 = digit_run_from(s, j1 + 3);
    if j2 <= j1 + 3 || n - j2 < 3 {
        return false;
    }
    if !(s.get_char(j2) == ',' && s.get_char(j2 + 1) == 'p' && s.get_char(j2 + 2) == '=') {
        return false;
    }
    let j3 = digit_run_from(s, j2 + 3);
    if j3 <= j2 + 3 || j3 >= n {
        return false;
    }
    if s.get_char(j3) != '$' {
        return false;
    }
    let mut k = j3 + 1;
    while k < n && s.get_char(k) != '$'
        invariant
            j3 + 1 <= k <= n,
            n == s@.len(),
            forall|j: int| j3 + 1 <= j < k ==> s@[j] != '$',
        decreases n - k,
    {
        k += 1;
    }
    proof {
        let rest = s@.skip(j3 as int + 1);
        lemma_first_occurrence(rest, '$');
        let fo = first_occurrence(rest, '$');
        assert(forall|j: int| 0 <= j < rest.len() ==> #[trigger] rest[j] == s@[j3 + 1 + j]);
        if k < n {
            assert(rest[k - (j3 + 1)] == '$');
            if fo < k - (j3 + 1) {
                assert(s@[j3 + 1 + fo] != '$');
                assert(false);
            }
            if fo > k - (j3 + 1) {
                assert(rest[k - (j3 + 1)] != '$');
                assert(false);
            }
        } else {
            if fo < rest.len() {
                assert(rest[fo] == '$');
                assert(s@[j3 + 1 + fo] != '$');
                assert(false);
            }
        }
    }
    if k >= n {
        return false;
    }
    if k - (j3 + 1) < 11 {
        return false;
    }
    true
}

/// Relies on argon2rs's `Argon2::new` and `verifier::Encoded`: the fixed
/// cost parameters (10 passes, 1 lane, 4096 KiB, Argon2i) are accepted, the
/// derivation demands a salt of at least 8 bytes, and the serialized
/// session `$argon2i$m=…$salt$hash` carries the skeleton that
/// `hash_shape_ok` describes, decodes back, and verifies against the very
/// password it was built from.
#[verifier::external_body]
fn raw_encode(password: &str, salt: &str) -> (r: String)
    requires
        salt@.len() >= 8,
        salt@.len() <= 0xff_ffff,
        password@.len() <= 0x3fff_ffff,
    ensures
        r@ == encoded_of(password@, salt@),
        hash_shape_ok(r@),
        hash_decodes(r@),
        hash_matches(r@, password@),
{
    let a2 = argon2rs::Argon2::new(10, 1, 4096, argon2rs::Variant::Argon2i).unwrap();
    let e = argon2rs::verifier::Encoded::new(a2, password.as_bytes(), salt.as_bytes(), &[], &[]);
    String::from_utf8(e.to_u8()).unwrap()
}

/// Relies on argon2rs's `Encoded::from_u8`: under `hash_shape_ok` the
/// decoder reads the skeleton without running past the end of its input,
/// and returns a session exactly when the embedded fields and parameters
/// are acceptable.
#[verifier::external_body]
fn raw_decode_check(stored: &str) -> (r: bool)
    requires
        hash_shape_ok(stored@),
    ensures
        r == hash_decodes(stored@),
{
    argon2rs::verifier::Encoded::from_u8(stored.as_bytes()).is_ok()
}

/// Relies on argon2rs's `Encoded::from_u8` and `Encoded::verify`: the
/// outcome depends on the stored text and the candidate secret alone, and
/// the skeleton's salt segment decodes to the at least eight bytes that the
/// recomputation demands.
#[verifier::external_body]
fn raw_verify(stored: &str, secret: &str) -> (r: bool)
    requires
        hash_shape_ok(stored@),
        hash_decodes(stored@),
        secret@.len() <= 0x3fff_ffff,
    ensures
        r == hash_matches(stored@, secret@),
{
    let e = argon2rs::verifier::Encoded::from_u8(stored.as_bytes()).unwrap();
    e.verify(secret.as_bytes())
}

impl Passwd {
    /// Derives the stored form of a password under this system's fixed cost
    /// parameters. The derivation demands at least eight salt bytes.
    pub fn encode(password: &str, salt: &str) -> (r: String)
        requires
            salt@.len() >= 8,
            salt@.len() <= 0xff_ffff,
            password@.len() <= 0x3fff_ffff,
        ensures
            r@ == encoded_of(password@, salt@),
            stored_hash_valid(r@),
            hash_matches(r@, password@),
    {
        raw_encode(password, salt)
    }

    /// Checks a candidate secret against this record's stored hash, which
    /// the caller has already found to be valid.
    pub fn verify(&self, password: &str) -> (r: bool)
        requires
            stored_hash_valid(self.hash@),
            password@.len() <= 0x3fff_ffff,
        ensures
            r == hash_matches(self.hash@, password@),
    {
        raw_verify(self.hash.as_str(), password)
    }

    /// Checks a candidate secret against this record's stored hash; a hash
    /// the codec cannot act on yields no verdict at all, an operational
    /// failure distinct from a wrong password.
    pub fn try_verify(&self, password: &str) -> (r: Option<bool>)
        requires
            password@.len() <= 0x3fff_ffff,
        ensures
            r is Some <==> stored_hash_valid(self.hash@),
            r matches Some(m) ==> m == hash_matches(self.hash@, password@),
    {
        if hash_shape_check(self.hash.as_str()) && raw_decode_check(self.hash.as_str()) {
            Some(self.verify(password))
        } else {
            None
        }
    }
}

} // verus!
