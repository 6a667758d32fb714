//! Profiles and credentials.
use vstd::prelude::*;

use crate::document::{fits, lemma_shallow_fits, lemma_table_nested, nested_within, untimed, values_untimed};
use crate::format::{modules_fit, modules_untimed, MAX_OPTION_TABLES};
use crate::laws::digits::lemma_digits_differ;
use crate::profile::{ModuleModel, ProfileModel, ProvisionModel};
use crate::provisioning::{lemma_hex_credential, AccessProvisioning};
use crate::text::{hex_digit, hex_text};
use crate::uri::{profile_of_bytes, profile_of_text, profile_of_uri, text_of_provision};
use crate::value::ValueModel;

verus! {

/// Each profile that is read is valid.
pub proof fn law_read_profiles_are_valid(uri: Seq<char>, bytes: Seq<u8>, text: Seq<char>)
    ensures
        profile_of_text(text) matches Ok(profile) ==> profile.valid(),
        profile_of_bytes(bytes) matches Ok(profile) ==> profile.valid(),
        profile_of_uri(uri) matches Ok(profile) ==> profile.valid(),
{
}

/// What is kept of a profile without its credential says nothing of the
/// credential.
pub proof fn law_metadata_hides_credential(profile: ProfileModel, credential: Seq<char>)
    ensures
        (ProfileModel { credential, ..profile }).metadata() == profile.metadata(),
        text_of_provision((ProfileModel { credential, ..profile }).metadata()) == text_of_provision(
            profile.metadata(),
        ),
{
}

/// What is kept of a profile without its credential makes the profile again with
/// the credential.
pub proof fn law_metadata_and_credential_make_the_profile(profile: ProfileModel)
    ensures
        profile.metadata().with(profile.credential) == profile,
        profile.valid() ==> profile.metadata().valid(),
{
}

/// What is kept of a profile without its credential is each other field of it, and a
/// credential that is added to it changes none of them.
pub proof fn law_metadata_is_each_other_field(profile: ProfileModel, kept: ProvisionModel, credential: Seq<char>)
    ensures
        profile.metadata().wire_version == profile.wire_version,
        profile.metadata().server_id == profile.server_id,
        profile.metadata().endpoint == profile.endpoint,
        profile.metadata().modules == profile.modules,
        profile.metadata().server_pin == profile.server_pin,
        kept.with(credential).credential == credential,
        kept.with(credential).metadata() == kept,
        kept.with(credential).server_id == kept.server_id,
        kept.with(credential).endpoint == kept.endpoint,
        kept.with(credential).modules == kept.modules,
        kept.with(credential).server_pin == kept.server_pin,
        kept.with(credential).wire_version == kept.wire_version,
{
}

/// A profile that a credential is registered for is valid with the credential.
pub proof fn law_provisioned_profiles_are_valid(
    provisioning: AccessProvisioning,
    profile: ProvisionModel,
    user_id: Seq<char>,
    client_id: Seq<char>,
    seq: u64,
)
    requires
        profile.valid(),
        provisioning.registers(profile, user_id, client_id, seq),
    ensures
        provisioning.profile().with(hex_text(provisioning.secret())).valid(),
{
    lemma_hex_credential(provisioning.secret());
}

/// The two digits of a byte.
proof fn lemma_hex_digits(bytes: Seq<u8>, i: int)
    requires
        0 <= i < bytes.len(),
    ensures
        hex_text(bytes)[2 * i] == hex_digit(bytes[i] as int / 16),
        hex_text(bytes)[2 * i + 1] == hex_digit(bytes[i] as int % 16),
{
    let even = 2 * i;
    let odd = 2 * i + 1;
    assert(even / 2 == i && even % 2 == 0 && odd / 2 == i && odd % 2 == 1);
    assert(0 <= even < 2 * bytes.len() && odd < 2 * bytes.len());
}

/// Bytes are told apart by their hexadecimal digits.
pub proof fn law_hex_tells_bytes_apart(left: Seq<u8>, right: Seq<u8>)
    requires
        hex_text(left) == hex_text(right),
    ensures
        left == right,
{
    assert(hex_text(left).len() == 2 * left.len());
    assert(hex_text(right).len() == 2 * right.len());
    assert forall|i: int| 0 <= i < left.len() implies left[i] == right[i] by {
        lemma_hex_digits(left, i);
        lemma_hex_digits(right, i);
        lemma_digits_differ(left[i] as int / 16, right[i] as int / 16);
        lemma_digits_differ(left[i] as int % 16, right[i] as int % 16);
    }
    assert(left =~= right);
}

/// Whether a value is neither an array nor a table, nor a float or a date-time.
pub open spec fn is_plain(value: ValueModel) -> bool {
    value is Text || value is Integer || value is Boolean
}

/// Options that are texts, integers and flags meet what reading a profile back asks for,
/// whatever their keys: they are not nested deeper than what is read, and none of them is
/// taken for a date-time.
pub proof fn law_plain_options_can_be_read_back(modules: Seq<ModuleModel>)
    requires
        forall|i: int, j: int|
            0 <= i < modules.len() && 0 <= j < modules[i].options.len() ==> is_plain(
                (#[trigger] modules[i].options[j]).1,
            ),
    ensures
        modules_untimed(modules),
        modules_fit(modules),
{
    assert forall|i: int| 0 <= i < modules.len() implies values_untimed((#[trigger] modules[i]).options, false) && fits(
        ValueModel::Table(modules[i].options),
        MAX_OPTION_TABLES as nat,
    ) by {
        let options = modules[i].options;
        assert forall|j: int| 0 <= j < options.len() implies nested_within((#[trigger] options[j]).1, 0) && untimed(
            options[j].1,
            false,
        ) by {
            assert(is_plain(modules[i].options[j].1));
        }
        lemma_table_nested(options, 0);
        lemma_shallow_fits(ValueModel::Table(options), 1, MAX_OPTION_TABLES as nat);
    }
}

}
