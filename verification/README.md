# wallet_core

The core of an air-gapped Taproot signer (testnet4), verified with Verus:
Base64, BIP174 PSBT parsing and re-encoding, BIP341 key-path sighash and
BIP340 signing, BIP32/BIP86 derivation, bech32m addresses, BIP380/386
descriptors, PBKDF2-HMAC-SHA256 and ChaCha20-Poly1305 encryption at rest,
and the state machine of the device (screens, PIN with write-ahead failure
counter and permanent lockout).

- `src/` — the library. Every function has a contract; calls into
  `bip32`, `bip39`, `bitcoin_hashes`, `chacha20poly1305`, `k256` and
  `qrcode` go through small trusted functions whose contracts name what the
  crate computes. Cross-call properties are proof functions (`lemma_*`),
  the wallet's in `src/wallet_laws.rs`.
- `tests/` — known-answer vectors and end-to-end flows (setup, restore, restart,
  unlock, lockout, scan, review, sign).
- `app/` — the desktop simulator: SDL window, drawing with
  `embedded-graphics`, a folder standing for the microSD card, a file for
  the flash.

Notes on behaviour:

- Signing recognises inputs across the whole derivation window (receive and
  change, index 0..19), each signed with the key of its own slot.
- Only SIGHASH_DEFAULT is signed: an input's sighash type may be absent or
  `0`; any explicit type, SIGHASH_ALL (`1`) included, is refused with
  `UnsupportedSighash` (the signature always commits to hash type `0x00`).
- The wallet runs on testnet, so output addresses start with `tb1p`; the
  test `output_address_is_the_network_address_of_the_program` checks that.
