//! Core of an air-gapped Taproot signer: Base64, PSBT parsing and encoding,
//! BIP341 sighash, key derivation, descriptor export, at-rest encryption and
//! the wallet state machine.

pub mod base64;
pub mod psbt;
pub mod psbt_roundtrip;
pub mod hashes;
pub mod crypto;
pub mod storage;
pub mod bech32;
pub mod descriptor;
pub mod derive;
pub mod sighash;
pub mod signing;
pub mod layout;
pub mod keyboard;
pub mod review;
pub mod display;
pub mod pinpad;
pub mod mnemonic;
pub mod machine;
pub mod wallet;
pub mod wallet_laws;
pub mod host;
pub mod qr;
