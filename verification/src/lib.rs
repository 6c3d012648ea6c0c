//! A verified core for multi-signature Bitcoin wallets: network identifiers,
//! the BIP-380 descriptor checksum, multisig output descriptors, quorum
//! wallet specifications, and the two wallet-configuration text formats.
//! Address derivation itself is delegated to the `bdk` toolkit.
use vstd::prelude::*;

pub mod chars;
pub mod checksum;
pub mod config;
pub mod descriptor;
pub mod errors;
pub mod keys;
pub mod network;
pub mod roundtrip;
pub mod wallet;

verus! {

/// Computes the BIP-380 checksum of a descriptor. Any existing `#checksum`
/// suffix is ignored; characters outside the descriptor alphabet are
/// rejected as `MalformedInput`.
pub fn calc_descriptor_checksum(descriptor: &str) -> (r: Result<String, errors::Error>)
    ensures
        match r {
            Ok(c) => checksum::spec_checksum(checksum::spec_strip(descriptor@)) == Some(c@),
            Err(e) => {
                &&& e is MalformedInput
                &&& checksum::spec_checksum(checksum::spec_strip(descriptor@)) is None
            },
        },
{
    checksum::compute(descriptor)
}

} // verus!
