//! What can go wrong.
use vstd::prelude::*;

use crate::text::join;

verus! {

/// An error of the library.
#[derive(Debug, PartialEq, Eq)]
pub enum ProfileError {
    Size,
    Scheme,
    Base64,
    Utf8,
    Toml(String),
    TomlEncode(String),
    Value,
    Subscription,
    Network(String),
    Io(String),
    Path,
    Generated(String),
    DuplicateServer,
    Selection,
    PackageApproval,
    BundledModule,
    Random,
    Provisioning,
    ControlResponse,
}

/// What an error is: the model of [`ProfileError`].
pub enum ErrorModel {
    Size,
    Scheme,
    Base64,
    Utf8,
    Toml(Seq<char>),
    TomlEncode(Seq<char>),
    Value,
    Subscription,
    Network(Seq<char>),
    Io(Seq<char>),
    Path,
    Generated(Seq<char>),
    DuplicateServer,
    Selection,
    PackageApproval,
    BundledModule,
    Random,
    Provisioning,
    ControlResponse,
}

impl ErrorModel {
    /// What an error says.
    pub open spec fn message(self) -> Seq<char> {
        match self {
            ErrorModel::Size => "profile size is invalid"@,
            ErrorModel::Scheme => "profile URI scheme is invalid"@,
            ErrorModel::Base64 => "profile base64 is invalid"@,
            ErrorModel::Utf8 => "profile is not UTF-8"@,
            ErrorModel::Toml(detail) => "profile TOML is invalid: "@ + detail,
            ErrorModel::TomlEncode(detail) => "profile TOML cannot be encoded: "@ + detail,
            ErrorModel::Value => "profile value is invalid"@,
            ErrorModel::Subscription => "subscription is invalid"@,
            ErrorModel::Network(detail) => "network request failed: "@ + detail,
            ErrorModel::Io(detail) => "subscription I/O failed: "@ + detail,
            ErrorModel::Path => "client path is invalid"@,
            ErrorModel::Generated(detail) => "generated configuration is invalid: "@ + detail,
            ErrorModel::DuplicateServer => "server_id is already imported"@,
            ErrorModel::Selection => "profile selection is invalid"@,
            ErrorModel::PackageApproval => "native package requires approval"@,
            ErrorModel::BundledModule => "bundled native module is unavailable or invalid"@,
            ErrorModel::Random => "credential generation failed"@,
            ErrorModel::Provisioning => "provisioning input is invalid"@,
            ErrorModel::ControlResponse => "policy control response is invalid"@,
        }
    }
}

impl ProfileError {
    pub open spec fn view(&self) -> ErrorModel {
        match self {
            ProfileError::Size => ErrorModel::Size,
            ProfileError::Scheme => ErrorModel::Scheme,
            ProfileError::Base64 => ErrorModel::Base64,
            ProfileError::Utf8 => ErrorModel::Utf8,
            ProfileError::Toml(detail) => ErrorModel::Toml(detail@),
            ProfileError::TomlEncode(detail) => ErrorModel::TomlEncode(detail@),
            ProfileError::Value => ErrorModel::Value,
            ProfileError::Subscription => ErrorModel::Subscription,
            ProfileError::Network(detail) => ErrorModel::Network(detail@),
            ProfileError::Io(detail) => ErrorModel::Io(detail@),
            ProfileError::Path => ErrorModel::Path,
            ProfileError::Generated(detail) => ErrorModel::Generated(detail@),
            ProfileError::DuplicateServer => ErrorModel::DuplicateServer,
            ProfileError::Selection => ErrorModel::Selection,
            ProfileError::PackageApproval => ErrorModel::PackageApproval,
            ProfileError::BundledModule => ErrorModel::BundledModule,
            ProfileError::Random => ErrorModel::Random,
            ProfileError::Provisioning => ErrorModel::Provisioning,
            ProfileError::ControlResponse => ErrorModel::ControlResponse,
        }
    }

    /// What the error says.
    pub fn message(&self) -> (text: String)
        ensures
            text@ == self@.message(),
    {
        match self {
            ProfileError::Size => "profile size is invalid".to_owned(),
            ProfileError::Scheme => "profile URI scheme is invalid".to_owned(),
            ProfileError::Base64 => "profile base64 is invalid".to_owned(),
            ProfileError::Utf8 => "profile is not UTF-8".to_owned(),
            ProfileError::Toml(detail) => join("profile TOML is invalid: ", detail),
            ProfileError::TomlEncode(detail) => join("profile TOML cannot be encoded: ", detail),
            ProfileError::Value => "profile value is invalid".to_owned(),
            ProfileError::Subscription => "subscription is invalid".to_owned(),
            ProfileError::Network(detail) => join("network request failed: ", detail),
            ProfileError::Io(detail) => join("subscription I/O failed: ", detail),
            ProfileError::Path => "client path is invalid".to_owned(),
            ProfileError::Generated(detail) => join("generated configuration is invalid: ", detail),
            ProfileError::DuplicateServer => "server_id is already imported".to_owned(),
            ProfileError::Selection => "profile selection is invalid".to_owned(),
            ProfileError::PackageApproval => "native package requires approval".to_owned(),
            ProfileError::BundledModule => "bundled native module is unavailable or invalid".to_owned(),
            ProfileError::Random => "credential generation failed".to_owned(),
            ProfileError::Provisioning => "provisioning input is invalid".to_owned(),
            ProfileError::ControlResponse => "policy control response is invalid".to_owned(),
        }
    }
}

}
