//! Profiles as texts: TOML, and URIs that carry the TOML in base64.
use vstd::prelude::*;
use vstd::string::*;
use vstd::utf8::*;

use crate::codec::{base64_bytes, base64_char, base64_text, decode_base64, encode_base64, utf8_text};
use crate::document::{print_document, toml_text};
use crate::error::{ErrorModel, ProfileError};
use crate::format::{
    decode_profile, decode_provision, decoded_profile, decoded_provision, encode_profile, encode_provision,
    lemma_profile_document, lemma_profile_keys, lemma_profile_read_back, lemma_provision_document,
    lemma_provision_read_back, modules_fit, modules_untimed, profile_document, provision_document,
};
use crate::node::{entry_nodes, nodes_of_text, read_document, Node, NodeModel};
use crate::profile::{sized, Profile, ProfileModel, ProvisionModel, ProvisionProfile, MAX_PROFILE_BYTES};
use crate::text::{byte_len, contains_char, join, strip_prefix, to_bytes, utf8_len};
use crate::tree::toml_document;

verus! {

/// The most bytes that a profile may take in base64.
pub const MAX_ENCODED_PROFILE_BYTES: usize = 87_384;

/// How the URI of a profile begins.
pub open spec fn uri_prefix() -> Seq<char> {
    "snolc://profile/"@
}

/// What is said of a document that is no profile.
pub open spec fn not_a_profile() -> Seq<char> {
    "document has missing, unknown or mistyped fields"@
}

/// The profile that a document stands for, or why it stands for none.
pub open spec fn profile_of_document(entries: Seq<(Seq<char>, NodeModel)>) -> Result<ProfileModel, ErrorModel> {
    match decoded_profile(entries) {
        Some(profile) => if profile.valid() {
            Ok(profile)
        } else {
            Err(ErrorModel::Value)
        },
        None => Err(ErrorModel::Toml(not_a_profile())),
    }
}

/// The profile that a TOML text stands for, or why it stands for none.
pub open spec fn profile_of_text(text: Seq<char>) -> Result<ProfileModel, ErrorModel> {
    if text.len() == 0 || utf8_len(text) > MAX_PROFILE_BYTES {
        Err(ErrorModel::Size)
    } else {
        match nodes_of_text(text) {
            Ok(document) => profile_of_document(document),
            Err(message) => Err(ErrorModel::Toml(message)),
        }
    }
}

/// The profile that the bytes in a URI stand for, or why they stand for none.
pub open spec fn profile_of_bytes(bytes: Seq<u8>) -> Result<ProfileModel, ErrorModel> {
    if bytes.len() > MAX_PROFILE_BYTES {
        Err(ErrorModel::Size)
    } else if !valid_utf8(bytes) {
        Err(ErrorModel::Utf8)
    } else {
        profile_of_text(decode_utf8(bytes))
    }
}

/// The base64 text in a URI, or why there is none.
pub open spec fn encoded_part(uri: Seq<char>) -> Result<Seq<char>, ErrorModel> {
    let encoded = uri.skip(uri_prefix().len() as int);
    if !uri_prefix().is_prefix_of(uri) {
        Err(ErrorModel::Scheme)
    } else if encoded.len() == 0 || utf8_len(encoded) > MAX_ENCODED_PROFILE_BYTES || encoded.contains('=')
        || !is_ascii_chars(encoded) {
        Err(ErrorModel::Size)
    } else {
        Ok(encoded)
    }
}

/// The profile that a URI stands for, or why it stands for none.
pub open spec fn profile_of_uri(uri: Seq<char>) -> Result<ProfileModel, ErrorModel> {
    match encoded_part(uri) {
        Ok(encoded) => match base64_bytes(encoded) {
            Some(bytes) => profile_of_bytes(bytes),
            None => Err(ErrorModel::Base64),
        },
        Err(error) => Err(error),
    }
}

/// The URI of a TOML text, or why there is none.
pub open spec fn uri_of_text(text: Seq<char>) -> Result<Seq<char>, ErrorModel> {
    if utf8_len(text) > MAX_PROFILE_BYTES {
        Err(ErrorModel::Size)
    } else {
        Ok(uri_prefix() + base64_text(encode_utf8(text)))
    }
}

/// The URI of a profile, or why there is none.
pub open spec fn uri_of_profile(profile: ProfileModel) -> Result<Seq<char>, ErrorModel> {
    if !profile.valid() {
        Err(ErrorModel::Value)
    } else {
        match toml_text(profile_document(profile)) {
            Ok(text) => uri_of_text(text),
            Err(message) => Err(ErrorModel::TomlEncode(message)),
        }
    }
}

/// The bytes of a text are a profile in just the way that the text is.
proof fn lemma_text_bytes(text: Seq<char>)
    requires
        utf8_len(text) <= MAX_PROFILE_BYTES,
    ensures
        profile_of_bytes(encode_utf8(text)) == profile_of_text(text),
{
    encode_utf8_valid_utf8(text);
    encode_utf8_decode_utf8(text);
}

/// Where a URI is made of a text, reading it reads the text.
proof fn lemma_uri_of_text(text: Seq<char>, encoded: Seq<char>)
    requires
        text.len() > 0,
        utf8_len(text) <= MAX_PROFILE_BYTES,
        encoded.len() == (utf8_len(text) * 4 + 2) / 3,
        forall|i: int| 0 <= i < encoded.len() ==> base64_char(#[trigger] encoded[i]),
        base64_bytes(encoded) == Some(encode_utf8(text)),
    ensures
        profile_of_uri(uri_prefix() + encoded) == profile_of_text(text),
        !(uri_prefix() + encoded).contains('='),
        uri_prefix().is_prefix_of(uri_prefix() + encoded),
{
    let uri = uri_prefix() + encoded;
    lemma_text_bytes(text);
    assert(uri.skip(uri_prefix().len() as int) =~= encoded);
    assert(uri_prefix() =~= uri.take(uri_prefix().len() as int));
    assert(is_ascii_chars(encoded)) by {
        assert forall|i: int| 0 <= i < encoded.len() implies '\0' <= #[trigger] encoded[i] <= '\u{7f}' by {
            assert(base64_char(encoded[i]));
        }
    }
    is_ascii_chars_encode_utf8(encoded);
    assert(!encoded.contains('=')) by {
        if encoded.contains('=') {
            let i = choose|i: int| 0 <= i < encoded.len() && encoded[i] == '=';
            assert(base64_char(encoded[i]));
        }
    }
    encode_utf8_decode_utf8(text);
    if utf8_len(text) == 0 {
        assert(encode_utf8(text) =~= encode_utf8(Seq::<char>::empty()));
        encode_utf8_decode_utf8(Seq::<char>::empty());
    }
    reveal_strlit("snolc://profile/");
    assert(!uri.contains('=')) by {
        if uri.contains('=') {
            let i = choose|i: int| 0 <= i < uri.len() && uri[i] == '=';
            if i < 16 {
                assert(uri_prefix()[i] == '=');
                assert("snolc://profile/"@.len() == 16);
            } else {
                assert(encoded[i - 16] == '=');
                assert(encoded.contains('='));
            }
        }
    }
}

impl Profile {
    /// Reads a profile from a document.
    pub fn from_document(document: &Vec<(String, Node)>) -> (result: Result<Profile, ProfileError>)
        ensures
            match result {
                Ok(profile) => profile_of_document(entry_nodes(document@)) == Ok::<ProfileModel, ErrorModel>(profile@),
                Err(error) => profile_of_document(entry_nodes(document@)) == Err::<ProfileModel, ErrorModel>(error@),
            },
    {
        match decode_profile(document) {
            Some(profile) => match profile.validate() {
                Ok(_) => Ok(profile),
                Err(error) => Err(error),
            },
            None => Err(ProfileError::Toml("document has missing, unknown or mistyped fields".to_owned())),
        }
    }

    /// Reads a profile from a TOML text.
    pub fn parse_toml(input: &str) -> (result: Result<Profile, ProfileError>)
        ensures
            match result {
                Ok(profile) => profile_of_text(input@) == Ok::<ProfileModel, ErrorModel>(profile@),
                Err(error) => profile_of_text(input@) == Err::<ProfileModel, ErrorModel>(error@),
            },
    {
        if input.is_empty() || byte_len(input) > MAX_PROFILE_BYTES {
            return Err(ProfileError::Size);
        }
        match read_document(input) {
            Ok(document) => Profile::from_document(&document),
            Err(message) => Err(ProfileError::Toml(message)),
        }
    }

    /// Reads a profile from the bytes of a TOML text.
    pub fn from_bytes(bytes: &[u8]) -> (result: Result<Profile, ProfileError>)
        ensures
            match result {
                Ok(profile) => profile_of_bytes(bytes@) == Ok::<ProfileModel, ErrorModel>(profile@),
                Err(error) => profile_of_bytes(bytes@) == Err::<ProfileModel, ErrorModel>(error@),
            },
    {
        if bytes.len() > MAX_PROFILE_BYTES {
            return Err(ProfileError::Size);
        }
        match utf8_text(bytes) {
            Some(text) => Profile::parse_toml(text),
            None => Err(ProfileError::Utf8),
        }
    }

    /// Reads a profile from a URI.
    pub fn from_uri(input: &str) -> (result: Result<Profile, ProfileError>)
        ensures
            match result {
                Ok(profile) => profile_of_uri(input@) == Ok::<ProfileModel, ErrorModel>(profile@),
                Err(error) => profile_of_uri(input@) == Err::<ProfileModel, ErrorModel>(error@),
            },
    {
        let encoded: String = match strip_prefix(input, "snolc://profile/") {
            Some(encoded) => encoded,
            None => {
                return Err(ProfileError::Scheme);
            },
        };
        if encoded.as_str().is_empty() || byte_len(&encoded) > MAX_ENCODED_PROFILE_BYTES || contains_char(&encoded, '=')
            || !encoded.as_str().is_ascii() {
            return Err(ProfileError::Size);
        }
        match decode_base64(&encoded) {
            Some(bytes) => Profile::from_bytes(&bytes),
            None => Err(ProfileError::Base64),
        }
    }

    /// The URI of the profile. It is URL-safe, without padding, and where it is
    /// made it gives the profile back.
    pub fn to_uri(&self) -> (result: Result<String, ProfileError>)
        ensures
            match result {
                Ok(uri) => uri_of_profile(self@) == Ok::<Seq<char>, ErrorModel>(uri@),
                Err(error) => uri_of_profile(self@) == Err::<Seq<char>, ErrorModel>(error@),
            },
            result matches Err(error) ==> !(error is TomlEncode),
            result matches Ok(uri) ==> uri_prefix().is_prefix_of(uri@) && !uri@.contains('='),
            result matches Ok(uri) ==> modules_untimed(self@.modules) ==> match profile_of_uri(uri@) {
                Ok(profile) => profile == self@,
                Err(error) => error is Toml,
            },
            result matches Ok(uri) ==> modules_untimed(self@.modules) && modules_fit(self@.modules)
                ==> profile_of_uri(uri@) == Ok::<ProfileModel, ErrorModel>(self@),
    {
        match self.validate() {
            Ok(_) => {},
            Err(error) => {
                return Err(error);
            },
        }
        let entries = encode_profile(self);
        proof {
            lemma_profile_keys(self@);
            lemma_profile_document(self@);
        }
        match print_document(entries) {
            Ok(text) => {
                proof {
                    if modules_untimed(self@.modules) && toml_document(text@) is Ok {
                        lemma_profile_read_back(toml_document(text@)->Ok_0, self@);
                    }
                }
                frame_uri(&text)
            },
            Err(message) => Err(ProfileError::TomlEncode(message)),
        }
    }
}

/// The URI of the TOML text of a profile.
pub fn frame_uri(text: &str) -> (result: Result<String, ProfileError>)
    ensures
        match result {
            Ok(uri) => uri_of_text(text@) == Ok::<Seq<char>, ErrorModel>(uri@),
            Err(error) => uri_of_text(text@) == Err::<Seq<char>, ErrorModel>(error@),
        },
        result matches Ok(uri) ==> text@.len() > 0 ==> {
            &&& uri_prefix().is_prefix_of(uri@)
            &&& !uri@.contains('=')
            &&& profile_of_uri(uri@) == profile_of_text(text@)
        },
{
    let bytes: Vec<u8> = to_bytes(text);
    if bytes.len() > MAX_PROFILE_BYTES {
        return Err(ProfileError::Size);
    }
    let encoded = encode_base64(&bytes);
    proof {
        if text@.len() > 0 {
            lemma_uri_of_text(text@, encoded@);
        }
    }
    Ok(join("snolc://profile/", &encoded))
}

/// The profile without a credential that a document stands for, or why it stands
/// for none: it must be valid with some credential.
pub open spec fn provision_of_document(entries: Seq<(Seq<char>, NodeModel)>) -> Result<ProvisionModel, ErrorModel> {
    match decoded_provision(entries) {
        Some(profile) => if profile.valid() {
            Ok(profile)
        } else {
            Err(ErrorModel::Value)
        },
        None => Err(ErrorModel::Toml(not_a_profile())),
    }
}

/// The profile without a credential that a TOML text stands for, or why it stands
/// for none.
pub open spec fn provision_of_text(text: Seq<char>) -> Result<ProvisionModel, ErrorModel> {
    if text.len() == 0 || utf8_len(text) > MAX_PROFILE_BYTES {
        Err(ErrorModel::Size)
    } else {
        match nodes_of_text(text) {
            Ok(document) => provision_of_document(document),
            Err(message) => Err(ErrorModel::Toml(message)),
        }
    }
}

/// The TOML text of a profile without a credential, or why there is none.
pub open spec fn text_of_provision(profile: ProvisionModel) -> Result<Seq<char>, ErrorModel> {
    match toml_text(provision_document(profile)) {
        Ok(text) => Ok(text),
        Err(message) => Err(ErrorModel::TomlEncode(message)),
    }
}

impl ProvisionProfile {
    /// Checks that the profile is valid with some credential.
    pub fn validate(&self) -> (result: Result<(), ProfileError>)
        ensures
            result is Ok <==> self@.valid(),
            result matches Err(error) ==> error is Value,
    {
        proof {
            lemma_check_credential();
        }
        match self.copy().with_credential("provisioning-check") {
            Ok(_) => Ok(()),
            Err(error) => Err(error),
        }
    }

    /// Reads a profile without a credential from a document.
    pub fn from_document(document: &Vec<(String, Node)>) -> (result: Result<ProvisionProfile, ProfileError>)
        ensures
            match result {
                Ok(profile) => provision_of_document(entry_nodes(document@)) == Ok::<ProvisionModel, ErrorModel>(
                    profile@,
                ),
                Err(error) => provision_of_document(entry_nodes(document@)) == Err::<ProvisionModel, ErrorModel>(
                    error@,
                ),
            },
    {
        match decode_provision(document) {
            Some(profile) => match profile.validate() {
                Ok(_) => Ok(profile),
                Err(error) => Err(error),
            },
            None => Err(ProfileError::Toml("document has missing, unknown or mistyped fields".to_owned())),
        }
    }

    /// Reads a profile without a credential from a TOML text.
    pub fn parse_toml(input: &str) -> (result: Result<ProvisionProfile, ProfileError>)
        ensures
            match result {
                Ok(profile) => provision_of_text(input@) == Ok::<ProvisionModel, ErrorModel>(profile@),
                Err(error) => provision_of_text(input@) == Err::<ProvisionModel, ErrorModel>(error@),
            },
    {
        if input.is_empty() || byte_len(input) > MAX_PROFILE_BYTES {
            return Err(ProfileError::Size);
        }
        match read_document(input) {
            Ok(document) => ProvisionProfile::from_document(&document),
            Err(message) => Err(ProfileError::Toml(message)),
        }
    }

    /// The TOML text of the profile. Where it is not too long, it gives the profile
    /// back.
    pub fn to_toml(&self) -> (result: Result<String, ProfileError>)
        ensures
            result is Ok,
            match result {
                Ok(text) => text_of_provision(self@) == Ok::<Seq<char>, ErrorModel>(text@),
                Err(error) => text_of_provision(self@) == Err::<Seq<char>, ErrorModel>(error@),
            },
            result matches Ok(text) ==> self@.valid() && utf8_len(text@) <= MAX_PROFILE_BYTES && modules_untimed(
                self@.modules,
            ) ==> match provision_of_text(text@) {
                Ok(profile) => profile == self@,
                Err(error) => error is Toml,
            },
            result matches Ok(text) ==> self@.valid() && utf8_len(text@) <= MAX_PROFILE_BYTES && modules_untimed(
                self@.modules,
            ) && modules_fit(self@.modules) ==> provision_of_text(text@) == Ok::<ProvisionModel, ErrorModel>(self@),
    {
        let entries = encode_provision(self);
        proof {
            assert(self@.with(Seq::empty()).metadata() == self@);
            lemma_profile_keys(self@.with(Seq::empty()));
            lemma_provision_document(self@);
        }
        match print_document(entries) {
            Ok(text) => {
                proof {
                    if modules_untimed(self@.modules) && toml_document(text@) is Ok {
                        lemma_provision_read_back(toml_document(text@)->Ok_0, self@);
                    }
                }
                Ok(text)
            },
            Err(message) => Err(ProfileError::TomlEncode(message)),
        }
    }
}

/// A short credential is sized as credentials are.
pub proof fn lemma_check_credential()
    ensures
        sized("provisioning-check"@, 1024),
{
    reveal_strlit("provisioning-check");
    assert(is_ascii_chars("provisioning-check"@));
    is_ascii_chars_encode_utf8("provisioning-check"@);
}

}
