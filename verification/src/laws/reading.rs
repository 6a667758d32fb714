//! What is read of URIs, documents and responses.
use vstd::prelude::*;
use vstd::string::*;
use vstd::utf8::*;

use crate::codec::{base64_bytes, base64_text, sha256};
use crate::control::toml_fields_text;
use crate::document::toml_text;
use crate::error::ErrorModel;
use crate::format::{
    class_of_node, decoded_profile, decoded_provision, lemma_profile_keys, module_document, module_of_node,
    modules_document, modules_of_items, profile_document, provision_document,
};
use crate::node::{field, nodes_of_text, NodeModel, ShapeModel};
use crate::profile::{is_name, ModuleClass, ModuleModel, ProfileModel, ProvisionModel};
use crate::provisioning::{
    can_provision, request_fields, revision_of_fields, revision_of_response, AccessProvisioning,
};
use crate::subscription::{
    lemma_profiles_of_uris, listed_uris, profiles_of_uris, subscription_of_bytes, subscription_of_document,
};
use crate::text::hex_text;
use crate::tree::{toml_document, unsigned_of, TreeModel};
use crate::uri::{
    profile_of_bytes, profile_of_document, profile_of_text, profile_of_uri, provision_of_document, provision_of_text,
    text_of_provision, uri_of_profile,
};
use crate::value::{get, lemma_get_at, ValueModel};

verus! {

/// A URI carries the bytes of a profile in base64 behind `snolc://profile/`: what has
/// another scheme, or carries nothing, too much, padding or what is not ASCII, or no
/// base64, is refused for that.
pub proof fn law_uris_carry_bytes(uri: Seq<char>, encoded: Seq<char>)
    ensures
        !"snolc://profile/"@.is_prefix_of(uri) ==> profile_of_uri(uri) == Err::<ProfileModel, ErrorModel>(
            ErrorModel::Scheme,
        ),
        uri == "snolc://profile/"@ + encoded ==> profile_of_uri(uri) == if encoded.len() == 0 || encode_utf8(
            encoded,
        ).len() > 87_384 || encoded.contains('=') || !is_ascii_chars(encoded) {
            Err::<ProfileModel, ErrorModel>(ErrorModel::Size)
        } else {
            match base64_bytes(encoded) {
                Some(bytes) => profile_of_bytes(bytes),
                None => Err(ErrorModel::Base64),
            }
        },
{
    if uri == "snolc://profile/"@ + encoded {
        assert(uri.skip("snolc://profile/"@.len() as int) =~= encoded);
        assert("snolc://profile/"@ =~= uri.take("snolc://profile/"@.len() as int));
    }
}

/// Bytes are read as the text that they stand for in UTF-8, and a text as the
/// document that it is; what is empty, or longer than 65536 bytes, is refused for its
/// size.
pub proof fn law_profiles_are_read_within_limits(bytes: Seq<u8>, text: Seq<char>)
    ensures
        bytes.len() > 65_536 ==> profile_of_bytes(bytes) == Err::<ProfileModel, ErrorModel>(ErrorModel::Size),
        bytes.len() <= 65_536 && !valid_utf8(bytes) ==> profile_of_bytes(bytes) == Err::<ProfileModel, ErrorModel>(
            ErrorModel::Utf8,
        ),
        bytes.len() <= 65_536 && valid_utf8(bytes) ==> profile_of_bytes(bytes) == profile_of_text(decode_utf8(bytes)),
        text.len() == 0 || encode_utf8(text).len() > 65_536 ==> profile_of_text(text) == Err::<ProfileModel, ErrorModel>(
            ErrorModel::Size,
        ),
        text.len() > 0 && encode_utf8(text).len() <= 65_536 ==> match toml_document(text) {
            Ok(_) => profile_of_text(text) == profile_of_document(nodes_of_text(text)->Ok_0),
            Err(message) => profile_of_text(text) == Err::<ProfileModel, ErrorModel>(ErrorModel::Toml(message)),
        },
{
}

/// A profile has a URI where it is valid and its text is not too long: the text of
/// its document, in UTF-8 and base64, behind `snolc://profile/`.
pub proof fn law_uris_are_made_of_the_document(profile: ProfileModel, uri: Seq<char>)
    ensures
        uri_of_profile(profile) == Ok::<Seq<char>, ErrorModel>(uri) ==> profile.valid() && exists|text: Seq<char>|
            toml_text(profile_document(profile)) == Ok::<Seq<char>, Seq<char>>(text) && #[trigger] encode_utf8(text).len()
                <= 65_536 && uri == "snolc://profile/"@ + base64_text(encode_utf8(text)),
        !profile.valid() ==> uri_of_profile(profile) == Err::<Seq<char>, ErrorModel>(ErrorModel::Value),
        forall|text: Seq<char>|
            profile.valid() && toml_text(profile_document(profile)) == Ok::<Seq<char>, Seq<char>>(text)
                && #[trigger] encode_utf8(text).len() > 65_536 ==> uri_of_profile(profile) == Err::<
                Seq<char>,
                ErrorModel,
            >(ErrorModel::Size),
{
    if let Ok(text) = toml_text(profile_document(profile)) {
        assert(encode_utf8(text).len() >= 0);
    }
}

/// The name that a class has in a document.
pub open spec fn named(class: ModuleClass, name: Seq<char>) -> bool {
    match class {
        ModuleClass::Adapter => name == "adapter"@,
        ModuleClass::Protection => name == "protection"@,
        ModuleClass::Carrier => name == "carrier"@,
        ModuleClass::Policy => name == "policy"@,
    }
}

/// Whether a value is a table that says what a module is.
pub open spec fn table_of_module(value: ValueModel, module: ModuleModel) -> bool {
    value matches ValueModel::Table(entries) && {
        &&& entries.len() == 4
        &&& get(entries, "instance"@) == Some(ValueModel::Text(module.instance))
        &&& get(entries, "package"@) == Some(ValueModel::Text(module.package))
        &&& get(entries, "class"@) matches Some(ValueModel::Text(name)) && named(module.class, name)
        &&& get(entries, "options"@) == Some(ValueModel::Table(module.options))
    }
}

proof fn lemma_table_of_module(module: ModuleModel)
    ensures
        table_of_module(module_document(module), module),
{
    reveal_strlit("instance");
    reveal_strlit("package");
    reveal_strlit("class");
    reveal_strlit("options");
    assert("instance"@.len() == 8 && "package"@.len() == 7 && "package"@[0] == 'p' && "class"@.len() == 5);
    assert("options"@.len() == 7 && "options"@[0] == 'o');
    let entries = module_document(module)->Table_0;
    lemma_get_at(entries, 0);
    lemma_get_at(entries, 1);
    lemma_get_at(entries, 2);
    lemma_get_at(entries, 3);
}

/// The document of a profile says each of its fields, and its modules in their
/// order; without the credential it says all but that.
pub proof fn law_documents_say_each_field(profile: ProfileModel)
    ensures
        ({
            let document = profile_document(profile);
            &&& document.len() == 6
            &&& get(document, "wire_version"@) == Some(ValueModel::Integer(profile.wire_version as i64))
            &&& get(document, "server_id"@) == Some(ValueModel::Text(profile.server_id))
            &&& get(document, "endpoint"@) == Some(ValueModel::Text(profile.endpoint))
            &&& get(document, "server_pin"@) == Some(ValueModel::Text(profile.server_pin))
            &&& get(document, "credential"@) == Some(ValueModel::Text(profile.credential))
            &&& get(document, "modules"@) matches Some(ValueModel::Array(items)) && items.len()
                == profile.modules.len() && forall|i: int|
                0 <= i < items.len() ==> table_of_module(#[trigger] items[i], profile.modules[i])
            &&& provision_document(profile.metadata()) == document.drop_last()
            &&& document.last().0 == "credential"@
        }),
{
    let document = profile_document(profile);
    lemma_profile_keys(profile);
    lemma_get_at(document, 0);
    lemma_get_at(document, 1);
    lemma_get_at(document, 2);
    lemma_get_at(document, 3);
    lemma_get_at(document, 4);
    lemma_get_at(document, 5);
    let items = modules_document(profile.modules)->Array_0;
    assert forall|i: int| 0 <= i < items.len() implies table_of_module(#[trigger] items[i], profile.modules[i]) by {
        lemma_table_of_module(profile.modules[i]);
    }
    assert(provision_document(profile.metadata()) =~= document.drop_last());
}

/// What is kept of a profile without its credential is the text of its document: that
/// of the profile without the credential.
pub proof fn law_kept_texts_are_of_the_document(profile: ProfileModel, text: Seq<char>)
    ensures
        text_of_provision(profile.metadata()) == Ok::<Seq<char>, ErrorModel>(text) <==> toml_text(
            profile_document(profile).drop_last(),
        ) == Ok::<Seq<char>, Seq<char>>(text),
{
    law_documents_say_each_field(profile);
}

/// Whether a text stands under a key.
pub open spec fn says_text(entries: Seq<(Seq<char>, NodeModel)>, key: Seq<char>, text: Seq<char>) -> bool {
    field(entries, key) matches Some(node) && node.shape == ShapeModel::Text(text)
}

/// Whether a value says a class: by its name, or by a table whose one key is the name
/// and which has an empty table or array under it.
pub open spec fn says_class(node: NodeModel, class: ModuleClass) -> bool {
    match node.shape {
        ShapeModel::Text(name) => named(class, name),
        ShapeModel::Table(entries) => entries.len() == 1 && named(class, entries[0].0) && match entries[0].1.shape {
            ShapeModel::Array(items) => items.len() == 0,
            ShapeModel::Table(inner) => inner.len() == 0,
            _ => false,
        },
        _ => false,
    }
}

/// Whether a value says a module: a table of its four fields and no other, or an array
/// that begins with them.
pub open spec fn says_module(node: NodeModel, module: ModuleModel) -> bool {
    match node.shape {
        ShapeModel::Table(entries) => {
            &&& forall|i: int|
                0 <= i < entries.len() ==> {
                    ||| (#[trigger] entries[i]).0 == "instance"@
                    ||| entries[i].0 == "package"@
                    ||| entries[i].0 == "class"@
                    ||| entries[i].0 == "options"@
                }
            &&& says_text(entries, "instance"@, module.instance)
            &&& says_text(entries, "package"@, module.package)
            &&& field(entries, "class"@) matches Some(class) && says_class(class, module.class)
            &&& field(entries, "options"@) matches Some(options) && options.options == Some(module.options)
        },
        ShapeModel::Array(items) => {
            &&& items.len() >= 4
            &&& items[0].shape == ShapeModel::Text(module.instance)
            &&& items[1].shape == ShapeModel::Text(module.package)
            &&& says_class(items[2], module.class)
            &&& items[3].options == Some(module.options)
        },
        _ => false,
    }
}

/// Whether a document says a profile: its six fields and no other.
pub open spec fn says_profile(entries: Seq<(Seq<char>, NodeModel)>, profile: ProfileModel) -> bool {
    &&& forall|i: int|
        0 <= i < entries.len() ==> {
            ||| (#[trigger] entries[i]).0 == "wire_version"@
            ||| entries[i].0 == "server_id"@
            ||| entries[i].0 == "endpoint"@
            ||| entries[i].0 == "modules"@
            ||| entries[i].0 == "server_pin"@
            ||| entries[i].0 == "credential"@
        }
    &&& field(entries, "wire_version"@) matches Some(version) && (version.shape matches ShapeModel::Number(number)
        && number == profile.wire_version)
    &&& says_text(entries, "server_id"@, profile.server_id)
    &&& says_text(entries, "endpoint"@, profile.endpoint)
    &&& says_text(entries, "server_pin"@, profile.server_pin)
    &&& says_text(entries, "credential"@, profile.credential)
    &&& field(entries, "modules"@) matches Some(modules) && (modules.shape matches ShapeModel::Array(items)
        && items.len() == profile.modules.len() && forall|i: int|
        0 <= i < items.len() ==> says_module(#[trigger] items[i], profile.modules[i]))
}

proof fn lemma_says_class(node: NodeModel, class: ModuleClass)
    ensures
        says_class(node, class) <==> class_of_node(node) == Some(class),
{
    reveal_strlit("adapter");
    reveal_strlit("protection");
    reveal_strlit("carrier");
    reveal_strlit("policy");
    assert("adapter"@.len() == 7 && "adapter"@[0] == 'a' && "protection"@.len() == 10);
    assert("carrier"@.len() == 7 && "carrier"@[0] == 'c' && "policy"@.len() == 6);
}

proof fn lemma_says_module(node: NodeModel, module: ModuleModel)
    ensures
        says_module(node, module) <==> module_of_node(node) == Some(module),
{
    match node.shape {
        ShapeModel::Table(entries) => {
            if let Some(class) = field(entries, "class"@) {
                lemma_says_class(class, module.class);
            }
        },
        ShapeModel::Array(items) => {
            if items.len() >= 4 {
                lemma_says_class(items[2], module.class);
            }
        },
        _ => {},
    }
}

/// A document is read as the profile that it says, where that is valid: as no other,
/// and not at all where it says none.
pub proof fn law_documents_are_read_as_they_say(entries: Seq<(Seq<char>, NodeModel)>, profile: ProfileModel)
    ensures
        profile_of_document(entries) == Ok::<ProfileModel, ErrorModel>(profile) <==> says_profile(entries, profile)
            && profile.valid(),
        says_profile(entries, profile) && !profile.valid() ==> profile_of_document(entries) == Err::<
            ProfileModel,
            ErrorModel,
        >(ErrorModel::Value),
{
    if let Some(modules) = field(entries, "modules"@) {
        if let ShapeModel::Array(items) = modules.shape {
            assert forall|i: int| 0 <= i < items.len() && i < profile.modules.len() implies (says_module(
                #[trigger] items[i],
                profile.modules[i],
            ) <==> module_of_node(items[i]) == Some(profile.modules[i])) by {
                lemma_says_module(items[i], profile.modules[i]);
            }
            if says_profile(entries, profile) {
                assert forall|i: int| 0 <= i < items.len() implies module_of_node(#[trigger] items[i]) is Some by {
                    assert(says_module(items[i], profile.modules[i]));
                }
                assert(modules_of_items(items)->0 =~= profile.modules) by {
                    assert forall|i: int| 0 <= i < items.len() implies modules_of_items(items)->0[i]
                        == profile.modules[i] by {
                        assert(says_module(items[i], profile.modules[i]));
                    }
                }
            }
            if decoded_profile(entries) == Some(profile) {
                assert(modules_of_items(items) == Some(profile.modules));
                assert forall|i: int| 0 <= i < items.len() implies says_module(
                    #[trigger] items[i],
                    profile.modules[i],
                ) by {
                    assert(module_of_node(items[i]) is Some);
                    assert(profile.modules[i] == module_of_node(items[i])->0);
                }
            }
        }
    }
    if says_profile(entries, profile) {
        assert(decoded_profile(entries) == Some(profile));
    }
    if decoded_profile(entries) == Some(profile) {
        assert(says_profile(entries, profile));
    }
}

/// Whether a document says a profile without its credential: its five fields and no
/// other.
pub open spec fn says_provision(entries: Seq<(Seq<char>, NodeModel)>, profile: ProvisionModel) -> bool {
    &&& forall|i: int|
        0 <= i < entries.len() ==> {
            ||| (#[trigger] entries[i]).0 == "wire_version"@
            ||| entries[i].0 == "server_id"@
            ||| entries[i].0 == "endpoint"@
            ||| entries[i].0 == "modules"@
            ||| entries[i].0 == "server_pin"@
        }
    &&& field(entries, "wire_version"@) matches Some(version) && (version.shape matches ShapeModel::Number(number)
        && number == profile.wire_version)
    &&& says_text(entries, "server_id"@, profile.server_id)
    &&& says_text(entries, "endpoint"@, profile.endpoint)
    &&& says_text(entries, "server_pin"@, profile.server_pin)
    &&& field(entries, "modules"@) matches Some(modules) && (modules.shape matches ShapeModel::Array(items)
        && items.len() == profile.modules.len() && forall|i: int|
        0 <= i < items.len() ==> says_module(#[trigger] items[i], profile.modules[i]))
}

/// A document is read as the profile without a credential that it says, where that is
/// valid: as no other, and not at all where it says none. A text is read within the
/// same limits as that of a profile.
pub proof fn law_documents_without_a_credential_are_read_as_they_say(
    entries: Seq<(Seq<char>, NodeModel)>,
    profile: ProvisionModel,
    text: Seq<char>,
)
    ensures
        provision_of_document(entries) == Ok::<ProvisionModel, ErrorModel>(profile) <==> says_provision(
            entries,
            profile,
        ) && profile.valid(),
        says_provision(entries, profile) && !profile.valid() ==> provision_of_document(entries) == Err::<
            ProvisionModel,
            ErrorModel,
        >(ErrorModel::Value),
        text.len() == 0 || encode_utf8(text).len() > 65_536 ==> provision_of_text(text) == Err::<
            ProvisionModel,
            ErrorModel,
        >(ErrorModel::Size),
        text.len() > 0 && encode_utf8(text).len() <= 65_536 ==> match nodes_of_text(text) {
            Ok(document) => provision_of_text(text) == provision_of_document(document),
            Err(message) => provision_of_text(text) == Err::<ProvisionModel, ErrorModel>(ErrorModel::Toml(message)),
        },
{
    if let Some(modules) = field(entries, "modules"@) {
        if let ShapeModel::Array(items) = modules.shape {
            if says_provision(entries, profile) {
                assert forall|i: int| 0 <= i < items.len() implies module_of_node(#[trigger] items[i]) == Some(
                    profile.modules[i],
                ) by {
                    lemma_says_module(items[i], profile.modules[i]);
                }
                assert(modules_of_items(items)->0 =~= profile.modules);
            }
            if decoded_provision(entries) == Some(profile) {
                assert(modules_of_items(items) == Some(profile.modules));
                assert forall|i: int| 0 <= i < items.len() implies says_module(
                    #[trigger] items[i],
                    profile.modules[i],
                ) by {
                    assert(module_of_node(items[i]) is Some);
                    assert(profile.modules[i] == module_of_node(items[i])->0);
                    lemma_says_module(items[i], profile.modules[i]);
                }
            }
        }
    }
    if says_provision(entries, profile) {
        assert(decoded_provision(entries) == Some(profile));
    }
    if decoded_provision(entries) == Some(profile) {
        assert(says_provision(entries, profile));
    }
}

/// Whether a document lists URIs, and nothing else.
pub open spec fn lists(entries: Seq<(Seq<char>, NodeModel)>, uris: Seq<Seq<char>>) -> bool {
    &&& forall|i: int| 0 <= i < entries.len() ==> (#[trigger] entries[i]).0 == "profiles"@
    &&& field(entries, "profiles"@) matches Some(list) && (list.shape matches ShapeModel::Array(items) && items.len()
        == uris.len() && forall|i: int|
        0 <= i < items.len() ==> (#[trigger] items[i]).shape == ShapeModel::Text(uris[i]))
}

/// A subscription has the profile of each URI that its document lists, in their
/// order: from one to sixty-four. Where it lists another number of them it is refused,
/// and where one of them is, it is refused as the first of those is.
pub proof fn law_subscriptions_have_the_listed_profiles(entries: Seq<(Seq<char>, NodeModel)>, uris: Seq<Seq<char>>)
    requires
        lists(entries, uris),
    ensures
        uris.len() == 0 || uris.len() > 64 ==> subscription_of_document(entries) == Err::<
            Seq<ProfileModel>,
            ErrorModel,
        >(ErrorModel::Subscription),
        1 <= uris.len() <= 64 ==> match subscription_of_document(entries) {
            Ok(profiles) => profiles.len() == uris.len() && forall|i: int|
                0 <= i < uris.len() ==> profile_of_uri(#[trigger] uris[i]) == Ok::<ProfileModel, ErrorModel>(
                    profiles[i],
                ),
            Err(error) => exists|k: int|
                0 <= k < uris.len() && profile_of_uri(#[trigger] uris[k]) == Err::<ProfileModel, ErrorModel>(error)
                    && forall|i: int| 0 <= i < k ==> profile_of_uri(#[trigger] uris[i]) is Ok,
        },
{
    let items = field(entries, "profiles"@)->0.shape->Array_0;
    assert(listed_uris(entries)->0 =~= uris);
    lemma_first_refused(uris);
    lemma_profiles_of_uris(uris);
    if let Ok(profiles) = profiles_of_uris(uris) {
        assert forall|i: int| 0 <= i < uris.len() implies profile_of_uri(#[trigger] uris[i]) == Ok::<
            ProfileModel,
            ErrorModel,
        >(profiles[i]) by {
            assert(profiles[i].valid());
        }
    }
}

proof fn lemma_first_refused(uris: Seq<Seq<char>>)
    ensures
        profiles_of_uris(uris) matches Err(error) ==> exists|k: int|
            0 <= k < uris.len() && profile_of_uri(#[trigger] uris[k]) == Err::<ProfileModel, ErrorModel>(error)
                && forall|i: int| 0 <= i < k ==> profile_of_uri(#[trigger] uris[i]) is Ok,
    decreases uris.len(),
{
    if uris.len() > 0 {
        let rest = uris.drop_last();
        let last = uris.len() - 1;
        lemma_first_refused(rest);
        lemma_profiles_of_uris(rest);
        if let Err(error) = profiles_of_uris(uris) {
            match profiles_of_uris(rest) {
                Err(first) => {
                    let k = choose|k: int|
                        0 <= k < rest.len() && profile_of_uri(#[trigger] rest[k]) == Err::<ProfileModel, ErrorModel>(
                            first,
                        ) && forall|i: int| 0 <= i < k ==> profile_of_uri(#[trigger] rest[i]) is Ok;
                    assert(uris[k] == rest[k]);
                    assert forall|i: int| 0 <= i < k implies profile_of_uri(#[trigger] uris[i]) is Ok by {
                        assert(profile_of_uri(rest[i]) is Ok);
                    }
                },
                Ok(profiles) => {
                    assert(uris[last] == uris.last());
                    assert forall|i: int| 0 <= i < last implies profile_of_uri(#[trigger] uris[i]) is Ok by {
                        assert(profiles[i].valid());
                    }
                },
            }
        }
    }
}

/// A document that lists no URIs is no subscription; and bytes are one within their
/// limit, where they are the text of such a document.
pub proof fn law_subscriptions_are_read_within_limits(entries: Seq<(Seq<char>, NodeModel)>, bytes: Seq<u8>)
    ensures
        (forall|uris: Seq<Seq<char>>| !lists(entries, uris)) ==> subscription_of_document(entries) matches Err(
            ErrorModel::Toml(_),
        ),
        bytes.len() == 0 || bytes.len() > 1_048_576 ==> subscription_of_bytes(bytes) == Err::<
            Seq<ProfileModel>,
            ErrorModel,
        >(ErrorModel::Size),
        0 < bytes.len() <= 1_048_576 && !valid_utf8(bytes) ==> subscription_of_bytes(bytes) == Err::<
            Seq<ProfileModel>,
            ErrorModel,
        >(ErrorModel::Utf8),
        0 < bytes.len() <= 1_048_576 && valid_utf8(bytes) ==> match nodes_of_text(decode_utf8(bytes)) {
            Ok(document) => subscription_of_bytes(bytes) == subscription_of_document(document),
            Err(message) => subscription_of_bytes(bytes) == Err::<Seq<ProfileModel>, ErrorModel>(
                ErrorModel::Toml(message),
            ),
        },
{
    if let Some(uris) = listed_uris(entries) {
        let items = field(entries, "profiles"@)->0.shape->Array_0;
        assert forall|i: int| 0 <= i < items.len() implies (#[trigger] items[i]).shape == ShapeModel::Text(uris[i]) by {}
        assert(lists(entries, uris));
    }
}

/// Whether a response says that the credential of a user was added, at a revision.
pub open spec fn says_added(fields: Seq<(Seq<char>, NodeModel)>, user_id: Seq<char>, revision: u64) -> bool {
    &&& forall|i: int|
        0 <= i < fields.len() ==> {
            ||| (#[trigger] fields[i]).0 == "status"@
            ||| fields[i].0 == "revision"@
            ||| fields[i].0 == "user_id"@
        }
    &&& says_text(fields, "status"@, "ok"@)
    &&& says_text(fields, "user_id"@, user_id)
    &&& field(fields, "revision"@) matches Some(node) && node.shape == ShapeModel::Number(revision)
    &&& revision != 0
}

/// A response counts where it says that the credential of the user was added, with a
/// revision, and says nothing else; and where it is not empty nor longer than 16384
/// bytes, and is the text of such a document.
pub proof fn law_responses_are_for_the_user(
    fields: Seq<(Seq<char>, NodeModel)>,
    response: Seq<u8>,
    user_id: Seq<char>,
    revision: u64,
)
    ensures
        revision_of_fields(fields, user_id) == Some(revision) <==> says_added(fields, user_id, revision),
        revision_of_response(response, user_id) == Some(revision) <==> 0 < response.len() <= 16_384 && valid_utf8(
            response,
        ) && nodes_of_text(decode_utf8(response)) is Ok && says_added(
            nodes_of_text(decode_utf8(response))->Ok_0,
            user_id,
            revision,
        ),
{
    lemma_added(fields, user_id, revision);
    if nodes_of_text(decode_utf8(response)) is Ok {
        lemma_added(nodes_of_text(decode_utf8(response))->Ok_0, user_id, revision);
    }
}

proof fn lemma_added(fields: Seq<(Seq<char>, NodeModel)>, user_id: Seq<char>, revision: u64)
    ensures
        revision_of_fields(fields, user_id) == Some(revision) <==> says_added(fields, user_id, revision),
{
}

/// A credential is asked for with a user of thirty-two small hexadecimal digits, a
/// client that has a name and a number that is not zero.
pub proof fn law_requests_are_for_users_and_clients(user_id: Seq<char>, client_id: Seq<char>, seq: u64)
    ensures
        can_provision(user_id, client_id, seq) <==> user_id.len() == 32 && (forall|i: int|
            0 <= i < user_id.len() ==> 48 <= (#[trigger] user_id[i]) as int <= 57 || 97 <= user_id[i] as int <= 102)
            && is_name(client_id) && seq > 0,
{
}

/// The request that registers a credential is a document of five fields: what is asked
/// for, of which client, with which number, for which user, and the digest of the
/// secret. It is for the user and the profile that it was made for.
pub proof fn law_requests_carry_the_digest(
    provisioning: AccessProvisioning,
    profile: ProvisionModel,
    user_id: Seq<char>,
    client_id: Seq<char>,
    seq: u64,
)
    requires
        provisioning.registers(profile, user_id, client_id, seq),
    ensures
        provisioning.profile() == profile,
        provisioning.user() == user_id,
        provisioning.secret().len() == 32,
        exists|text: Seq<char>| #[trigger]
            encode_utf8(text) == provisioning.request_bytes() && toml_document(text) is Ok && request_says(
                toml_document(text)->Ok_0,
                client_id,
                seq,
                user_id,
                hex_text(sha256(provisioning.secret())),
            ),
{
    let fields = request_fields(client_id, seq, user_id, sha256(provisioning.secret()));
    let text = toml_fields_text(fields)->Ok_0;
    assert(encode_utf8(text) == provisioning.request_bytes());
    let trees = toml_document(text)->Ok_0;
    assert(trees.len() == 5);
    assert(fields[0].0 == trees[0].0 && fields[1].0 == trees[1].0 && fields[2].0 == trees[2].0);
    assert(fields[3].0 == trees[3].0 && fields[4].0 == trees[4].0);
}

/// The profile that is handed out has the secret whose digest was registered for its
/// credential, in hexadecimal digits; the rest is that of the profile that it was
/// registered for.
pub proof fn law_registered_secrets_are_handed_out(
    provisioning: AccessProvisioning,
    profile: ProvisionModel,
    user_id: Seq<char>,
    client_id: Seq<char>,
    seq: u64,
)
    requires
        provisioning.registers(profile, user_id, client_id, seq),
    ensures
        provisioning.handed_out().credential == hex_text(provisioning.secret()),
        provisioning.handed_out().credential.len() == 64,
        provisioning.handed_out().server_id == profile.server_id,
        provisioning.handed_out().endpoint == profile.endpoint,
        provisioning.handed_out().server_pin == profile.server_pin,
        provisioning.handed_out().modules == profile.modules,
        provisioning.handed_out().wire_version == profile.wire_version,
{
}

/// Whether the trees of a document are those of a request.
pub open spec fn request_says(
    trees: Seq<(Seq<char>, TreeModel)>,
    client_id: Seq<char>,
    seq: u64,
    user_id: Seq<char>,
    digest: Seq<char>,
) -> bool {
    &&& trees.len() == 5
    &&& trees[0] == ("method"@, TreeModel::Text("credential.add"@))
    &&& trees[1] == ("client_id"@, TreeModel::Text(client_id))
    &&& trees[2].0 == "seq"@
    &&& trees[2].1 matches TreeModel::Integer(digits, radix) && unsigned_of(digits, radix as nat) == Some(seq)
    &&& trees[3] == ("user_id"@, TreeModel::Text(user_id))
    &&& trees[4] == ("credential_sha256"@, TreeModel::Text(digest))
}

}
