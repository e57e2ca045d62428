//! The records that the authenticator stores and shows.

use vstd::prelude::*;

use crate::totp_logic::AlgorithmName;

verus! {

/// A stored account, without its secret.
#[derive(Debug, Clone)]
pub struct AccountMetadata {
    pub id: String,
    pub service_name: String,
    pub issuer: Option<String>,
    pub account_label: Option<String>,
    pub digits: u32,
    pub period: u64,
    pub algorithm: AlgorithmName,
    pub icon: Option<String>,
    pub sort_order: u32,
}

/// [`AccountMetadata`] with its texts as character sequences.
pub struct AccountMetadataView {
    pub id: Seq<char>,
    pub service_name: Seq<char>,
    pub issuer: Option<Seq<char>>,
    pub account_label: Option<Seq<char>>,
    pub digits: u32,
    pub period: u64,
    pub algorithm: AlgorithmName,
    pub icon: Option<Seq<char>>,
    pub sort_order: u32,
}

impl View for AccountMetadata {
    type V = AccountMetadataView;

    open spec fn view(&self) -> AccountMetadataView {
        AccountMetadataView {
            id: self.id@,
            service_name: self.service_name@,
            issuer: self.issuer.deep_view(),
            account_label: self.account_label.deep_view(),
            digits: self.digits,
            period: self.period,
            algorithm: self.algorithm,
            icon: self.icon.deep_view(),
            sort_order: self.sort_order,
        }
    }
}

/// What the account editor submits: fields typed in, or an OTP URI.
#[derive(Debug, Clone)]
pub struct AccountPayload {
    pub service_name: String,
    pub issuer: Option<String>,
    pub account_label: Option<String>,
    pub secret: Option<String>,
    pub digits: u32,
    pub period: u64,
    pub algorithm: AlgorithmName,
    pub icon: Option<String>,
    pub otp_uri: Option<String>,
}

/// [`AccountPayload`] with its texts as character sequences.
pub struct AccountPayloadView {
    pub service_name: Seq<char>,
    pub issuer: Option<Seq<char>>,
    pub account_label: Option<Seq<char>>,
    pub secret: Option<Seq<char>>,
    pub digits: u32,
    pub period: u64,
    pub algorithm: AlgorithmName,
    pub icon: Option<Seq<char>>,
    pub otp_uri: Option<Seq<char>>,
}

impl View for AccountPayload {
    type V = AccountPayloadView;

    open spec fn view(&self) -> AccountPayloadView {
        AccountPayloadView {
            service_name: self.service_name@,
            issuer: self.issuer.deep_view(),
            account_label: self.account_label.deep_view(),
            secret: self.secret.deep_view(),
            digits: self.digits,
            period: self.period,
            algorithm: self.algorithm,
            icon: self.icon.deep_view(),
            otp_uri: self.otp_uri.deep_view(),
        }
    }
}

/// A code as the main window shows it.
#[derive(Debug, Clone)]
pub struct CodeView {
    pub id: String,
    pub service_name: String,
    pub account_label: Option<String>,
    pub formatted_code: String,
    pub raw_code: String,
    pub seconds_remaining: u64,
    pub period: u64,
    pub icon: Option<String>,
}

/// [`CodeView`] with its texts as character sequences.
pub struct CodeViewView {
    pub id: Seq<char>,
    pub service_name: Seq<char>,
    pub account_label: Option<Seq<char>>,
    pub formatted_code: Seq<char>,
    pub raw_code: Seq<char>,
    pub seconds_remaining: u64,
    pub period: u64,
    pub icon: Option<Seq<char>>,
}

impl View for CodeView {
    type V = CodeViewView;

    open spec fn view(&self) -> CodeViewView {
        CodeViewView {
            id: self.id@,
            service_name: self.service_name@,
            account_label: self.account_label.deep_view(),
            formatted_code: self.formatted_code@,
            raw_code: self.raw_code@,
            seconds_remaining: self.seconds_remaining,
            period: self.period,
            icon: self.icon.deep_view(),
        }
    }
}

/// Whether the account editor creates an account or edits one.
#[derive(Debug, Clone, Copy, PartialEq, Eq, Structural)]
pub enum AccountEditorMode {
    Create,
    Edit,
}

/// What the account editor window is opened for.
#[derive(Debug, Clone)]
pub struct AccountEditorContext {
    pub mode: AccountEditorMode,
    pub account_id: Option<String>,
}

impl Default for AccountEditorContext {
    /// Creating a new account.
    fn default() -> (r: Self)
        ensures
            r.mode == AccountEditorMode::Create,
            r.account_id is None,
    {
        AccountEditorContext { mode: AccountEditorMode::Create, account_id: None }
    }
}

} // verus!
