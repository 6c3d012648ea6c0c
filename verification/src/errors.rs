use vstd::prelude::*;

verus! {

/// The failure kinds that the library's operations report. No operation
/// panics: every rejected input is surfaced as one of these values.
#[derive(Debug)]
pub enum Error {
    /// The checksum engine met a character outside the descriptor alphabet.
    MalformedInput { bad: char },
    /// Descriptor text does not match the supported grammar; `pos` is the
    /// position at which parsing stopped.
    DescriptorSyntax { pos: usize },
    /// A descriptor carries a checksum that does not match the recomputed one.
    ChecksumMismatch,
    /// A quorum threshold outside `[1, key_count]`.
    InvalidQuorum { threshold: u32, keys: usize },
    /// The key at `index` carries a network tag that disagrees with the
    /// wallet's network.
    KeyNetworkMismatch { index: usize },
    /// Address derivation was requested against a network incompatible with
    /// the descriptor's keys.
    NetworkMismatch,
    /// Key derivation or script encoding failed.
    Derivation { message: String },
    /// Wallet-configuration text is not a well-formed document; `pos` is the
    /// position at which parsing stopped.
    ConfigSyntax { pos: usize },
}

} // verus!
