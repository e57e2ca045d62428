//! Verified core of a desktop TOTP authenticator: account normalisation,
//! OTP URI import, code generation and the encrypted secret vault's logic.

pub mod accounts;
pub mod app_error;
mod clock;
pub mod decimal;
pub mod models;
pub mod secure_store;
pub mod totp_logic;
pub mod text;
pub mod trusted;
