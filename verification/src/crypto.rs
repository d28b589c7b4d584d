//! Hash algorithm names.
use vstd::prelude::*;

use crate::stringutil::{chars_to_string, lower_chars, lower_char_vec, str_eq, str_to_chars};

verus! {

/// The hash algorithm name made lower-case, without the hyphen of the
/// SHA-1 and SHA-2 names.
pub open spec fn spec_normalize_hash_name(name: Seq<char>) -> Seq<char> {
    let n = lower_chars(name);
    if n == "sha-1"@ || n == "sha-224"@ || n == "sha-256"@ || n == "sha-384"@ || n == "sha-512"@ {
        n.remove(3)
    } else {
        n
    }
}

/// Normalizes a hash algorithm name.
///
/// Changes to lowercase. Removes the hyphen from SHA-1 and SHA-2 names.
pub fn normalize_hash_name(name: &str) -> (r: String)
    ensures
        r@ == spec_normalize_hash_name(name@),
{
    let chars = str_to_chars(name);
    let mut lower = lower_char_vec(chars.as_slice());
    let text = chars_to_string(lower.as_slice());
    let t = text.as_str();
    if str_eq(t, "sha-1") || str_eq(t, "sha-224") || str_eq(t, "sha-256") || str_eq(t, "sha-384")
        || str_eq(t, "sha-512") {
        proof {
            reveal_strlit("sha-1");
            reveal_strlit("sha-224");
            reveal_strlit("sha-256");
            reveal_strlit("sha-384");
            reveal_strlit("sha-512");
        }
        lower.remove(3);
    }
    chars_to_string(lower.as_slice())
}

/// Hash algorithms known by name.
#[derive(Debug, Clone, Copy, PartialEq, Eq, Structural)]
pub enum HashAlgorithm {
    /// MD5.
    Md5,
    /// SHA-1.
    Sha1,
    /// SHA-224.
    Sha224,
    /// SHA-256.
    Sha256,
    /// SHA-384.
    Sha384,
    /// SHA-512.
    Sha512,
    /// SHA3-224.
    Sha3With224,
    /// SHA3-256.
    Sha3With256,
    /// SHA3-384.
    Sha3With384,
    /// SHA3-512.
    Sha3With512,
    /// BLAKE2s with a 256-bit digest.
    Blake2s,
    /// BLAKE2b with a 512-bit digest.
    Blake2b,
}

/// The algorithm for a normalized name.
pub open spec fn algorithm_for(n: Seq<char>) -> Option<HashAlgorithm> {
    if n == "md5"@ {
        Some(HashAlgorithm::Md5)
    } else if n == "sha1"@ {
        Some(HashAlgorithm::Sha1)
    } else if n == "sha224"@ {
        Some(HashAlgorithm::Sha224)
    } else if n == "sha256"@ {
        Some(HashAlgorithm::Sha256)
    } else if n == "sha384"@ {
        Some(HashAlgorithm::Sha384)
    } else if n == "sha512"@ {
        Some(HashAlgorithm::Sha512)
    } else if n == "sha3-224"@ {
        Some(HashAlgorithm::Sha3With224)
    } else if n == "sha3-256"@ {
        Some(HashAlgorithm::Sha3With256)
    } else if n == "sha3-384"@ {
        Some(HashAlgorithm::Sha3With384)
    } else if n == "sha3-512"@ {
        Some(HashAlgorithm::Sha3With512)
    } else if n == "blake2s"@ {
        Some(HashAlgorithm::Blake2s)
    } else if n == "blake2b"@ {
        Some(HashAlgorithm::Blake2b)
    } else {
        None
    }
}

/// Returns the hash algorithm for a name, after normalizing it: `md5`,
/// `sha1`, `sha224` to `sha512`, `sha3-224` to `sha3-512`, `blake2s` and
/// `blake2b`.
pub fn hash_algorithm_by_name(name: &str) -> (r: Option<HashAlgorithm>)
    ensures
        r == algorithm_for(spec_normalize_hash_name(name@)),
{
    let normalized = normalize_hash_name(name);
    let n = normalized.as_str();
    if str_eq(n, "md5") {
        Some(HashAlgorithm::Md5)
    } else if str_eq(n, "sha1") {
        Some(HashAlgorithm::Sha1)
    } else if str_eq(n, "sha224") {
        Some(HashAlgorithm::Sha224)
    } else if str_eq(n, "sha256") {
        Some(HashAlgorithm::Sha256)
    } else if str_eq(n, "sha384") {
        Some(HashAlgorithm::Sha384)
    } else if str_eq(n, "sha512") {
        Some(HashAlgorithm::Sha512)
    } else if str_eq(n, "sha3-224") {
        Some(HashAlgorithm::Sha3With224)
    } else if str_eq(n, "sha3-256") {
        Some(HashAlgorithm::Sha3With256)
    } else if str_eq(n, "sha3-384") {
        Some(HashAlgorithm::Sha3With384)
    } else if str_eq(n, "sha3-512") {
        Some(HashAlgorithm::Sha3With512)
    } else if str_eq(n, "blake2s") {
        Some(HashAlgorithm::Blake2s)
    } else if str_eq(n, "blake2b") {
        Some(HashAlgorithm::Blake2b)
    } else {
        None
    }
}


/// Lower-casing twice is lower-casing once.
proof fn lemma_lower_chars_twice(s: Seq<char>)
    ensures
        lower_chars(lower_chars(s)) == lower_chars(s),
{
    assert(lower_chars(lower_chars(s)) =~= lower_chars(s));
}

/// Normalizing a normalized name leaves it unchanged.
pub proof fn law_normalize_hash_name_idempotent(name: Seq<char>)
    ensures
        spec_normalize_hash_name(spec_normalize_hash_name(name)) == spec_normalize_hash_name(name),
{
    reveal_strlit("sha-1");
    reveal_strlit("sha-224");
    reveal_strlit("sha-256");
    reveal_strlit("sha-384");
    reveal_strlit("sha-512");
    let n = lower_chars(name);
    lemma_lower_chars_twice(name);
    let m = spec_normalize_hash_name(name);
    if n == "sha-1"@ || n == "sha-224"@ || n == "sha-256"@ || n == "sha-384"@ || n == "sha-512"@ {
        assert(lower_chars(m) =~= m);
        assert(m.len() == 4 || m.len() == 6);
    } else {
        assert(m == n);
    }
}

} // verus!
