use std::collections::hash_map::DefaultHasher;
use std::hash::Hasher;
use vstd::prelude::*;
use vstd::string::StrSliceExecFns;

use crate::text::dec_text;
use crate::text::decimal_string;

verus! {

/// Which hashing algorithm an `Algo` applies.
#[derive(Debug, Clone, Copy, PartialEq, Eq, Structural)]
pub enum AlgoType {
    Blake3,
    Default,
}

/// A hashing wrapper around one chosen algorithm.
#[derive(Debug, Clone)]
pub struct Algo {
    kind: AlgoType,
}

/// The 64 lowercase hexadecimal characters of the BLAKE3 digest of a
/// string's bytes, a function of the characters alone.
pub uninterp spec fn blake3_hex_of(s: Seq<char>) -> Seq<char>;

/// Relies on `blake3::hash`, a pure function of the input bytes, and on
/// `blake3::Hash`'s `to_hex`, which its `Display` applies: the 32-byte
/// digest rendered as 64 lowercase hexadecimal characters.
#[verifier::external_body]
fn blake3_hex(data: &str) -> (r: String)
    ensures
        r@ == blake3_hex_of(data@),
        r@.len() == 64,
{
    blake3::hash(data.as_bytes()).to_string()
}

/// The standard library's default (SipHash-based) hasher over the
/// string's bytes. Its value is deterministic within one build of the
/// standard library but not promised across builds, so nothing more is
/// stated of it.
fn sip_hash(data: &String) -> u64 {
    let bytes = data.as_str().as_bytes_vec();
    let mut h = DefaultHasher::new();
    h.write(bytes.as_slice());
    h.finish()
}

impl Algo {
    /// The algorithm this instance was constructed with.
    pub closed spec fn spec_kind(self) -> AlgoType {
        self.kind
    }

    pub fn new(kind: AlgoType) -> (a: Algo)
        ensures
            a.spec_kind() == kind,
    {
        Algo { kind }
    }

    pub fn get_name(&self) -> (r: &'static str)
        ensures
            self.spec_kind() is Blake3 ==> r@ == "Blake3"@,
            self.spec_kind() is Default ==> r@ == "Default"@,
    {
        match self.kind {
            AlgoType::Blake3 => "Blake3",
            AlgoType::Default => "Default",
        }
    }

    /// Hashes `data` with the chosen algorithm: the BLAKE3 digest in
    /// hexadecimal, or the default hasher's value in decimal.
    pub fn hash(&self, data: String) -> (r: String)
        ensures
            self.spec_kind() is Blake3 ==> r@ == blake3_hex_of(data@) && r@.len() == 64,
            self.spec_kind() is Default ==> (exists|k: u64| r@ == dec_text(k as nat)),
    {
        match self.kind {
            AlgoType::Blake3 => blake3_hex(data.as_str()),
            AlgoType::Default => {
                let k = sip_hash(&data);
                let r = decimal_string(k);
                proof {
                    assert(r@ == dec_text(k as nat));
                }
                r
            },
        }
    }
}

} // verus!
