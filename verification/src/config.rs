//! Settings shared by the command line tool and its node-link plugins.
use vstd::prelude::*;

verus! {

/// Number of words in a generated seed phrase.
pub const WORD_COUNT: u8 = 12;

/// HD derivation path of the default key pair.
pub const HD_PATH: &'static str = "m/44'/396'/0'/0/0";

/// Address of a local node.
pub const LOCALNET: &'static str = "http://127.0.0.1/";

} // verus!
