//! SHA-256 digests and their lowercase hexadecimal form, as the manifest
//! writes them, and the check of a downloaded file against its manifest
//! entry.
use vstd::prelude::*;
use sha2::Digest;
use crate::manifest::FileInfo;
use crate::text::{unicode_lowercase, eq_ignoring_case, owned, push_str, push_chars, string_of};


verus! {

broadcast use vstd::string::group_string_axioms;

/// The SHA-256 digest of a byte sequence (32 bytes).
pub uninterp spec fn sha256_digest(data: Seq<u8>) -> Seq<u8>;

/// `sha2::Sha256::digest`. Trusted: the result is the SHA-256 digest of
/// the input, a function of the input alone, named `sha256_digest`; sha2
/// gives SHA-256 a 32-byte output.
#[verifier::external_body]
fn sha256(data: &[u8]) -> (d: Vec<u8>)
    ensures
        d@ == sha256_digest(data@),
        d@.len() == 32,
{
    sha2::Sha256::digest(data).to_vec()
}

/// The lowercase hexadecimal digit for `n < 16`.
pub open spec fn hex_digit(n: int) -> char {
    if n < 10 {
        (n + 48) as char
    } else {
        (n + 87) as char
    }
}

/// Lowercase hexadecimal form of a byte sequence: two digits per byte,
/// high nibble first.
pub open spec fn hex_lower(b: Seq<u8>) -> Seq<char> {
    Seq::new(
        2 * b.len(),
        |i: int| if i % 2 == 0 { hex_digit((b[i / 2] / 16) as int) } else { hex_digit((b[i / 2] % 16) as int) },
    )
}

fn hex_digit_exec(n: u8) -> (c: char)
    requires
        n < 16,
    ensures
        c == hex_digit(n as int),
{
    if n < 10 {
        (n + 48) as char
    } else {
        (n + 87) as char
    }
}

/// Lowercase hexadecimal form of bytes.
pub fn to_hex_lower(b: &[u8]) -> (s: String)
    ensures
        s@ == hex_lower(b@),
{
    let mut v: Vec<char> = Vec::new();
    let mut i: usize = 0;
    while i < b.len()
        invariant
            i <= b.len(),
            v@.len() == 2 * i,
            forall|k: int| 0 <= k < 2 * i ==> #[trigger] v@[k] == hex_lower(b@)[k],
        decreases b.len() - i,
    {
        let x = b[i];
        v.push(hex_digit_exec(x / 16));
        v.push(hex_digit_exec(x % 16));
        proof {
            assert forall|k: int| 0 <= k < 2 * (i + 1) implies #[trigger] v@[k] == hex_lower(b@)[k] by {
                if k >= 2 * i {
                    assert(k / 2 == i);
                }
            }
        }
        i = i + 1;
    }
    assert(v@ =~= hex_lower(b@));
    string_of(v.as_slice())
}

/// The lowercase hexadecimal SHA-256 digest of `data`.
pub fn sha256_hex(data: &[u8]) -> (s: String)
    ensures
        s@ == hex_lower(sha256_digest(data@)),
{
    let d = sha256(data);
    to_hex_lower(d.as_slice())
}

/// The message with which a download whose digest differs from the
/// manifest is refused.
pub open spec fn mismatch_message(path: Seq<char>, expected: Seq<char>, got: Seq<char>) -> Seq<char> {
    "Hash mismatch for file: "@ + path + " (expected: "@ + expected + ", got: "@ + got + ")"@
}

/// Checks a downloaded file against its manifest entry: its SHA-256 digest
/// must equal the manifest's hash, ignoring case. Returns the number of
/// bytes downloaded, or the mismatch message.
pub fn verify_download(file: &FileInfo, data: &[u8]) -> (r: Result<u64, String>)
    ensures
        ({
            let got = hex_lower(sha256_digest(data@));
            match r {
                Ok(n) => unicode_lowercase(got) == unicode_lowercase(file.hash@) && n == data@.len(),
                Err(e) => unicode_lowercase(got) != unicode_lowercase(file.hash@)
                    && e@ == mismatch_message(file.path@, file.hash@, got),
            }
        }),
{
    let got = sha256_hex(data);
    if eq_ignoring_case(got.as_str(), file.hash.as_str()) {
        Ok(data.len() as u64)
    } else {
        let mut e = owned("Hash mismatch for file: ");
        push_str(&mut e, file.path.as_str());
        push_str(&mut e, " (expected: ");
        push_str(&mut e, file.hash.as_str());
        push_str(&mut e, ", got: ");
        push_str(&mut e, got.as_str());
        push_str(&mut e, ")");
        Err(e)
    }
}

/// A SHA-256 computation fed piece by piece, so that a large file never has
/// to be held in memory whole. It holds a `sha2::Sha256` state.
#[verifier::external_body]
pub struct FileHasher {
    state: sha2::Sha256,
}

/// The bytes fed to a hasher so far, in order.
pub uninterp spec fn hasher_fed(h: FileHasher) -> Seq<u8>;

/// `sha2::Sha256::new`. Trusted: a fresh state has been fed nothing.
#[verifier::external_body]
fn sha256_start() -> (h: FileHasher)
    ensures
        hasher_fed(h) == Seq::<u8>::empty(),
{
    FileHasher { state: sha2::Sha256::new() }
}

/// `sha2::Digest::update`. Trusted: the state has then been fed `chunk`
/// after what it had been fed before.
#[verifier::external_body]
fn sha256_feed(h: &mut FileHasher, chunk: &[u8])
    ensures
        hasher_fed(*final(h)) == hasher_fed(*old(h)) + chunk@,
{
    h.state.update(chunk);
}

/// `sha2::Digest::finalize`. Trusted: the result is the SHA-256 digest of
/// all the bytes fed, 32 bytes long.
#[verifier::external_body]
fn sha256_finish(h: FileHasher) -> (d: Vec<u8>)
    ensures
        d@ == sha256_digest(hasher_fed(h)),
        d@.len() == 32,
{
    h.state.finalize().to_vec()
}

impl FileHasher {
    /// The bytes fed so far.
    pub open spec fn fed(&self) -> Seq<u8> {
        hasher_fed(*self)
    }

    /// A hasher that has been fed nothing.
    pub fn new() -> (h: FileHasher)
        ensures
            h.fed() == Seq::<u8>::empty(),
    {
        sha256_start()
    }

    /// Feeds the next piece of the data.
    pub fn update(&mut self, chunk: &[u8])
        ensures
            final(self).fed() == old(self).fed() + chunk@,
    {
        sha256_feed(self, chunk);
    }

    /// The lowercase hexadecimal SHA-256 digest of everything fed: the
    /// same text as `sha256_hex` of the whole data.
    pub fn finish_hex(self) -> (s: String)
        ensures
            s@ == hex_lower(sha256_digest(self.fed())),
            s@.len() == 64,
    {
        let d = sha256_finish(self);
        to_hex_lower(d.as_slice())
    }
}

} // verus!
