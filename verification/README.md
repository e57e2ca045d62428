# desktop2fa

The verified core of a small desktop TOTP authenticator, written in Verus.

- `src/totp_logic.rs` — validating what the account editor submits,
  importing `otpauth://totp/...` URIs, and generating codes (RFC 6238 on
  HMAC-SHA-1/256/512), with their display form and the seconds left.
- `src/accounts.rs` — the account list: stable ordering, the record of a new
  account, edits, deletion with renumbering, and the entries of the main window.
- `src/secure_store.rs` — the secret vault: the map of secrets, the vault key,
  sealing/opening the vault file with AES-256-GCM-SIV, and the steps that
  move secret storage onto the local vault at startup.
- `src/text.rs`, `src/decimal.rs` — trimming, character tests, and decimal
  numerals read and written as Rust's `from_str` and `format!` do.
- `src/app_error.rs`, `src/models.rs` — the error type and the records.
- `src/clock.rs` — readings of the system clock since the Unix epoch.
- `src/trusted.rs` — the contracts Verus assumes for std and the outside
  crates (`url`, `urlencoding`, `data-encoding`, `hmac`/`sha1`/`sha2`,
  `aes-gcm-siv`, `rand`, `arboard`) and for the system clock.
- `app/` — the Tauri application around the library: commands, windows, tray,
  the account store, vault files and the clipboard.
- `tests/` — tests of the library, including the RFC 6238 test vectors.
