//! File digests over the supported checksum algorithms, in lowercase hex.
use vstd::prelude::*;

use crate::error::SyncError;
use crate::package::Checksum;

verus! {

#[verifier::external_type_specification]
#[verifier::external_body]
pub struct ExErrorStack(openssl::error::ErrorStack);

/// The digest that OpenSSL computes of `data` with the algorithm so named.
pub uninterp spec fn digest_of(algorithm: Seq<char>, data: Seq<u8>) -> Seq<u8>;

/// A supported checksum algorithm.
#[derive(Debug, Clone, Copy, PartialEq, Eq)]
pub enum Algorithm {
    Md5,
    Sha1,
    Sha224,
    Sha256,
    Sha384,
    Sha512,
    Ripemd160,
}

/// The name that checksums give each algorithm.
pub open spec fn algorithm_name(a: Algorithm) -> Seq<char> {
    match a {
        Algorithm::Md5 => seq!['m', 'd', '5'],
        Algorithm::Sha1 => seq!['s', 'h', 'a', '1'],
        Algorithm::Sha224 => seq!['s', 'h', 'a', '2', '2', '4'],
        Algorithm::Sha256 => seq!['s', 'h', 'a', '2', '5', '6'],
        Algorithm::Sha384 => seq!['s', 'h', 'a', '3', '8', '4'],
        Algorithm::Sha512 => seq!['s', 'h', 'a', '5', '1', '2'],
        Algorithm::Ripemd160 => seq!['r', 'i', 'p', 'e', 'm', 'd', '1', '6', '0'],
    }
}

/// Whether `name` names a supported algorithm.
pub open spec fn is_supported(name: Seq<char>) -> bool {
    exists|a: Algorithm| algorithm_name(a) == name
}

/// One lowercase hex digit.
pub open spec fn hex_digit(n: u8) -> char {
    seq!['0', '1', '2', '3', '4', '5', '6', '7', '8', '9', 'a', 'b', 'c', 'd', 'e', 'f'][(n
        % 16) as int]
}

/// Lowercase hex of a byte string: two digits per byte, high nibble first.
pub open spec fn hex_of(b: Seq<u8>) -> Seq<char>
    decreases b.len(),
{
    if b.len() == 0 {
        Seq::empty()
    } else {
        seq![hex_digit(b[0] / 16), hex_digit(b[0] % 16)].add(hex_of(b.drop_first()))
    }
}

/// Relies on `openssl::hash::hash`: the digest of `data` under the given
/// algorithm, or OpenSSL's error where the algorithm is unavailable.
#[verifier::external_body]
fn openssl_digest(alg: Algorithm, data: &[u8]) -> (r: Result<Vec<u8>, openssl::error::ErrorStack>)
    ensures
        r matches Ok(d) ==> d@ == digest_of(algorithm_name(alg), data@),
{
    let md = match alg {
        Algorithm::Md5 => openssl::hash::MessageDigest::md5(),
        Algorithm::Sha1 => openssl::hash::MessageDigest::sha1(),
        Algorithm::Sha224 => openssl::hash::MessageDigest::sha224(),
        Algorithm::Sha256 => openssl::hash::MessageDigest::sha256(),
        Algorithm::Sha384 => openssl::hash::MessageDigest::sha384(),
        Algorithm::Sha512 => openssl::hash::MessageDigest::sha512(),
        Algorithm::Ripemd160 => openssl::hash::MessageDigest::ripemd160(),
    };
    openssl::hash::hash(md, data).map(|d| d.to_vec())
}

/// Relies on `hex::encode`: two lowercase hex digits for each byte, in order.
#[verifier::external_body]
fn hex_encode(b: &[u8]) -> (r: String)
    ensures
        r@ == hex_of(b@),
{
    hex::encode(b)
}

impl Algorithm {
    /// The algorithm that a checksum names.
    pub fn from_name(name: &str) -> (r: Result<Algorithm, SyncError>)
        ensures
            match r {
                Ok(a) => algorithm_name(a) == name@,
                Err(e) => !is_supported(name@) && (e matches SyncError::UnknownAlgorithm(n) && n@
                    == name@),
            },
    {
        let candidates = [
            Algorithm::Md5,
            Algorithm::Sha1,
            Algorithm::Sha224,
            Algorithm::Sha256,
            Algorithm::Sha384,
            Algorithm::Sha512,
            Algorithm::Ripemd160,
        ];
        let key = name.to_owned();
        let mut i: usize = 0;
        while i < 7
            invariant
                key@ == name@,
                0 <= i <= 7,
                candidates@ == seq![
                    Algorithm::Md5,
                    Algorithm::Sha1,
                    Algorithm::Sha224,
                    Algorithm::Sha256,
                    Algorithm::Sha384,
                    Algorithm::Sha512,
                    Algorithm::Ripemd160,
                ],
                forall|k: int| 0 <= k < i ==> algorithm_name(#[trigger] candidates@[k]) != name@,
            decreases 7 - i,
        {
            let a = candidates[i];
            if a.name() == key {
                return Ok(a);
            }
            i += 1;
        }
        proof {
            assert forall|a: Algorithm| algorithm_name(a) != name@ by {
                match a {
                    Algorithm::Md5 => assert(candidates@[0] == a),
                    Algorithm::Sha1 => assert(candidates@[1] == a),
                    Algorithm::Sha224 => assert(candidates@[2] == a),
                    Algorithm::Sha256 => assert(candidates@[3] == a),
                    Algorithm::Sha384 => assert(candidates@[4] == a),
                    Algorithm::Sha512 => assert(candidates@[5] == a),
                    Algorithm::Ripemd160 => assert(candidates@[6] == a),
                }
            }
        }
        Err(SyncError::UnknownAlgorithm(key))
    }

    /// The algorithm's name as checksums write it.
    pub fn name(self) -> (r: String)
        ensures
            r@ == algorithm_name(self),
    {
        let s = match self {
            Algorithm::Md5 => "md5",
            Algorithm::Sha1 => "sha1",
            Algorithm::Sha224 => "sha224",
            Algorithm::Sha256 => "sha256",
            Algorithm::Sha384 => "sha384",
            Algorithm::Sha512 => "sha512",
            Algorithm::Ripemd160 => "ripemd160",
        };
        proof {
            reveal_strlit("md5");
            reveal_strlit("sha1");
            reveal_strlit("sha224");
            reveal_strlit("sha256");
            reveal_strlit("sha384");
            reveal_strlit("sha512");
            reveal_strlit("ripemd160");
            assert(s@ =~= algorithm_name(self));
        }
        s.to_owned()
    }
}

/// The lowercase hex digest of `data` under the algorithm named `algorithm`.
pub fn digest_hex(algorithm: &str, data: &[u8]) -> (r: Result<String, SyncError>)
    ensures
        !is_supported(algorithm@) ==> (r matches Err(SyncError::UnknownAlgorithm(n)) && n@
            == algorithm@),
        r matches Ok(h) ==> is_supported(algorithm@) && h@ == hex_of(digest_of(algorithm@, data@)),
        r matches Err(SyncError::UnknownAlgorithm(_)) ==> !is_supported(algorithm@),
        r matches Err(e) ==> e is UnknownAlgorithm || e is DigestFailed,
{
    let alg = match Algorithm::from_name(algorithm) {
        Ok(a) => a,
        Err(e) => return Err(e),
    };
    match openssl_digest(alg, data) {
        Ok(d) => Ok(hex_encode(d.as_slice())),
        Err(_) => Err(SyncError::DigestFailed(algorithm.to_owned())),
    }
}

impl Checksum {
    /// Whether a computed digest, given as bytes, is the declared one.
    pub fn matches_digest(&self, digest: &[u8]) -> (r: bool)
        ensures
            r == (hex_of(digest@) == self.sum@),
    {
        let hex = hex_encode(digest);
        hex == self.sum
    }

    /// Whether `data` has the declared checksum.
    pub fn check(&self, data: &[u8]) -> (r: Result<bool, SyncError>)
        ensures
            !is_supported(self.algorithm@) ==> (r matches Err(SyncError::UnknownAlgorithm(n)) && n@
                == self.algorithm@),
            r matches Ok(b) ==> is_supported(self.algorithm@) && b == (hex_of(
                digest_of(self.algorithm@, data@),
            ) == self.sum@),
            r matches Err(SyncError::UnknownAlgorithm(_)) ==> !is_supported(self.algorithm@),
            r matches Err(e) ==> e is UnknownAlgorithm || e is DigestFailed,
    {
        match digest_hex(self.algorithm.as_str(), data) {
            Ok(h) => Ok(h == self.sum),
            Err(e) => Err(e),
        }
    }
}

} // verus!
