//! The options of modules on a client.
use vstd::prelude::*;

use crate::client::{
    addition_of, client_options, credential_entries, package_identity, pin_path, policy_options, state_directory,
    Addition,
};
use crate::laws::places::lemma_fixed_names;
use crate::options::{privileged, privileged_entry, privileged_key};
use crate::order::before;
use crate::paths::{absolute, child, lemma_child_within, lemma_within_itself, within};
use crate::profile::{class_count, valid_module, ModuleClass, ModuleModel, ProfileModel};
use crate::session::{is_tunnel, started_profile, with_descriptor};
use crate::text::lowercase;
use crate::value::{canonical, canonical_entries, get, lemma_get_put, put, ValueModel};

verus! {

/// What stands in a table after an option was put into it is that option, or
/// stood there before.
proof fn lemma_put_entries(options: Seq<(Seq<char>, ValueModel)>, key: Seq<char>, value: ValueModel)
    ensures
        forall|i: int|
            0 <= i < put(options, key, value).len() ==> (#[trigger] put(options, key, value)[i] == (key, value)
                || exists|j: int| 0 <= j < options.len() && options[j] == put(options, key, value)[i]),
    decreases options.len(),
{
    let result = put(options, key, value);
    assert forall|i: int| 0 <= i < result.len() implies (#[trigger] result[i] == (key, value) || exists|j: int|
        0 <= j < options.len() && options[j] == result[i]) by {
        if options.len() == 0 {
        } else if before(key, options[0].0) {
            if i > 0 {
                assert(options[i - 1] == result[i]);
            }
        } else if options[0].0 == key {
            if i > 0 {
                assert(options[i] == result[i]);
            }
        } else {
            let rest = options.drop_first();
            let tail = put(rest, key, value);
            lemma_put_entries(rest, key, value);
            if i == 0 {
                assert(options[0] == result[0]);
            } else {
                assert(result[i] == tail[i - 1]);
                if tail[i - 1] != (key, value) {
                    let j = choose|j: int| 0 <= j < rest.len() && rest[j] == tail[i - 1];
                    assert(options[j + 1] == result[i]);
                }
            }
        }
    }
}

/// An option that is put into a table makes it privileged only where its own key
/// is.
proof fn lemma_put_keeps_unprivileged(options: Seq<(Seq<char>, ValueModel)>, key: Seq<char>, value: ValueModel)
    requires
        !privileged(ValueModel::Table(options)),
        !privileged_key(key),
        value is Text || value is Integer,
    ensures
        !privileged(ValueModel::Table(put(options, key, value))),
{
    let result = put(options, key, value);
    lemma_put_entries(options, key, value);
    if privileged(ValueModel::Table(result)) {
        let i = choose|i: int| 0 <= i < result.len() && privileged_entry(#[trigger] result[i]);
        assert(privileged_entry(result[i]));
        if result[i] != (key, value) {
            let j = choose|j: int| 0 <= j < options.len() && options[j] == result[i];
            assert(privileged_entry(options[j]));
            let whole = ValueModel::Table(options);
            assert(whole->Table_0 == options);
            assert(privileged(whole));
        } else {
            assert(!privileged_entry((key, value)));
        }
    }
}

/// Some characters of a privileged key, by its length.
proof fn lemma_privileged_shape(key: Seq<char>)
    ensures
        privileged_key(key) ==> {
            let name = lowercase(key);
            let length = key.len() as int;
            ||| length == 3 && name[0] == 'l'
            ||| length == 4 && (name[0] == 'p' || name[0] == 'f')
            ||| length == 5 && name[0] == 's'
            ||| length == 6 && name[0] == 's' && name[5] == 't'
            ||| length == 7 && name[0] == 'c'
            ||| length == 8 && name[0] == 'p'
            ||| length == 9 && name[0] == 'd'
            ||| length >= 5 && name[length - 5] == '_'
            ||| length >= 10 && name[length - 10] == '_' && name[length - 1] == 'y'
        },
{
    reveal_strlit("path");
    reveal_strlit("file");
    reveal_strlit("directory");
    reveal_strlit("socket");
    reveal_strlit("command");
    reveal_strlit("script");
    reveal_strlit("packages");
    reveal_strlit("state");
    reveal_strlit("log");
    reveal_strlit("_path");
    reveal_strlit("_file");
    reveal_strlit("_directory");
    let name = lowercase(key);
    let length = key.len() as int;
    assert(name.len() == length);
    if "_path"@.is_suffix_of(name) {
        assert(name.subrange(length - 5, length)[0] == "_path"@[0]);
    }
    if "_file"@.is_suffix_of(name) {
        assert(name.subrange(length - 5, length)[0] == "_file"@[0]);
    }
    if "_directory"@.is_suffix_of(name) {
        assert(name.subrange(length - 10, length)[0] == "_directory"@[0]);
        assert(name.subrange(length - 10, length)[9] == "_directory"@[9]);
    }
}

/// The options that a tunnel adapter is given are not privileged.
proof fn lemma_tunnel_keys()
    ensures
        !privileged_key("mode"@),
        !privileged_key("fd"@),
        !privileged_key("mtu"@),
        !privileged_key("packet_queue_bytes"@),
{
    reveal_strlit("mode");
    reveal_strlit("fd");
    reveal_strlit("mtu");
    reveal_strlit("packet_queue_bytes");
    lemma_privileged_shape("mode"@);
    lemma_privileged_shape("fd"@);
    lemma_privileged_shape("mtu"@);
    lemma_privileged_shape("packet_queue_bytes"@);
}

/// A tunnel adapter that is given a file descriptor stays a valid module.
proof fn lemma_descriptor_keeps_valid(module: ModuleModel, fd: i32)
    requires
        valid_module(module),
    ensures
        valid_module(with_descriptor(module, fd)),
        with_descriptor(module, fd).class == module.class,
        with_descriptor(module, fd).instance == module.instance,
{
    if is_tunnel(module) {
        lemma_tunnel_keys();
        let first = put(module.options, "mode"@, ValueModel::Text("android-fd"@));
        lemma_put_keeps_unprivileged(module.options, "mode"@, ValueModel::Text("android-fd"@));
        let second = put(first, "fd"@, ValueModel::Integer(fd as i64));
        lemma_put_keeps_unprivileged(first, "fd"@, ValueModel::Integer(fd as i64));
        let third = put(second, "mtu"@, ValueModel::Integer(1_280));
        lemma_put_keeps_unprivileged(second, "mtu"@, ValueModel::Integer(1_280));
        lemma_put_keeps_unprivileged(third, "packet_queue_bytes"@, ValueModel::Integer(262_144));
    }
}

/// Modules of the same classes count the same.
proof fn lemma_same_classes(left: Seq<ModuleModel>, right: Seq<ModuleModel>, class: ModuleClass)
    requires
        left.len() == right.len(),
        forall|i: int| 0 <= i < left.len() ==> (#[trigger] left[i]).class == right[i].class,
    ensures
        class_count(left, class) == class_count(right, class),
    decreases left.len(),
{
    if left.len() > 0 {
        assert(left[left.len() - 1].class == right[left.len() - 1].class);
        assert forall|i: int| 0 <= i < left.drop_last().len() implies (#[trigger] left.drop_last()[i]).class
            == right.drop_last()[i].class by {
            assert(left[i].class == right[i].class);
        }
        lemma_same_classes(left.drop_last(), right.drop_last(), class);
    }
}

/// The profile that the engine is started with is valid where the profile that was
/// selected is: neither the credential of the platform nor the file descriptor of
/// its tunnel can make it one that is refused later.
pub proof fn law_started_profiles_are_valid(
    android: bool,
    vpn_fd: Option<i32>,
    profile: ProfileModel,
    credential: Option<Seq<char>>,
)
    requires
        profile.valid(),
    ensures
        started_profile(android, vpn_fd, profile, credential) matches Ok(started) ==> started.valid(),
{
    if let Ok(started) = started_profile(android, vpn_fd, profile, credential) {
        if let Some(fd) = vpn_fd {
            let modules = profile.modules;
            let given = started.modules;
            assert(given =~= modules.map_values(|module: ModuleModel| with_descriptor(module, fd)));
            assert forall|i: int| 0 <= i < given.len() implies valid_module(#[trigger] given[i]) && given[i].class
                == modules[i].class && given[i].instance == modules[i].instance by {
                assert(valid_module(modules[i]));
                lemma_descriptor_keeps_valid(modules[i], fd);
            }
            assert forall|i: int, j: int| 0 <= i < j < given.len() implies (#[trigger] given[i]).instance != (
            #[trigger] given[j]).instance by {
                assert(modules[i].instance != modules[j].instance);
            }
            lemma_same_classes(given, modules, ModuleClass::Adapter);
            lemma_same_classes(given, modules, ModuleClass::Protection);
            lemma_same_classes(given, modules, ModuleClass::Carrier);
            lemma_same_classes(given, modules, ModuleClass::Policy);
        }
    }
}

/// Each tunnel adapter of the profile that the engine is started with is given the
/// file descriptor of the platform.
pub proof fn law_tunnels_get_the_descriptor(
    android: bool,
    fd: i32,
    profile: ProfileModel,
    credential: Option<Seq<char>>,
    index: int,
)
    requires
        0 <= index < profile.modules.len(),
        is_tunnel(profile.modules[index]),
    ensures
        started_profile(android, Some(fd), profile, credential) matches Ok(started) ==> {
            let options = started.modules[index].options;
            &&& get(options, "mode"@) == Some(ValueModel::Text("android-fd"@))
            &&& get(options, "fd"@) == Some(ValueModel::Integer(fd as i64))
        },
{
    if let Ok(started) = started_profile(android, Some(fd), profile, credential) {
        reveal_strlit("mode");
        reveal_strlit("fd");
        reveal_strlit("mtu");
        reveal_strlit("packet_queue_bytes");
        assert("mode"@.len() == 4 && "fd"@.len() == 2 && "mtu"@.len() == 3 && "packet_queue_bytes"@.len() == 18);
        let options = profile.modules[index].options;
        let mode = ValueModel::Text("android-fd"@);
        let descriptor = ValueModel::Integer(fd as i64);
        let first = put(options, "mode"@, mode);
        lemma_get_put(options, "mode"@, mode, "mode"@);
        let second = put(first, "fd"@, descriptor);
        lemma_get_put(first, "fd"@, descriptor, "mode"@);
        let third = put(second, "mtu"@, ValueModel::Integer(1_280));
        lemma_get_put(second, "mtu"@, ValueModel::Integer(1_280), "mode"@);
        lemma_get_put(second, "mtu"@, ValueModel::Integer(1_280), "fd"@);
        lemma_get_put(third, "packet_queue_bytes"@, ValueModel::Integer(262_144), "mode"@);
        lemma_get_put(third, "packet_queue_bytes"@, ValueModel::Integer(262_144), "fd"@);
        assert(started.modules[index] == with_descriptor(profile.modules[index], fd));
    }
}

/// The entries of a table put in order are those of the table, put in order.
proof fn lemma_canonical_members(entries: Seq<(Seq<char>, ValueModel)>)
    ensures
        forall|j: int|
            0 <= j < canonical_entries(entries).len() ==> exists|i: int|
                0 <= i < entries.len() && #[trigger] canonical_entries(entries)[j] == (
                    (#[trigger] entries[i]).0,
                    canonical(entries[i].1),
                ),
    decreases entries.len(),
{
    if entries.len() > 0 {
        let rest = entries.drop_last();
        let last = entries.len() - 1;
        lemma_canonical_members(rest);
        let known = canonical_entries(rest);
        let table = canonical_entries(entries);
        lemma_put_entries(known, entries[last].0, canonical(entries[last].1));
        assert forall|j: int| 0 <= j < table.len() implies exists|i: int|
            0 <= i < entries.len() && #[trigger] table[j] == ((#[trigger] entries[i]).0, canonical(entries[i].1)) by {
            if table[j] == (entries[last].0, canonical(entries[last].1)) {
            } else {
                let k = choose|k: int| 0 <= k < known.len() && known[k] == table[j];
                let i = choose|i: int|
                    0 <= i < rest.len() && known[k] == ((#[trigger] rest[i]).0, canonical(rest[i].1));
                assert(entries[i] == rest[i]);
            }
        }
    }
}

/// The keys of what a client adds to the options of its modules are not privileged,
/// but for those of files.
proof fn lemma_client_keys()
    ensures
        !privileged_key("client"@),
        !privileged_key("credential"@),
        !privileged_key("source"@),
        !privileged_key("value"@),
        !privileged_key("server_id"@),
        !privileged_key("credential_transport"@),
        !privileged_key("storage"@),
        !privileged_key("mode"@),
        !privileged_key("endpoint_ip"@),
{
    reveal_strlit("client");
    reveal_strlit("credential");
    reveal_strlit("source");
    reveal_strlit("value");
    reveal_strlit("server_id");
    reveal_strlit("credential_transport");
    reveal_strlit("storage");
    reveal_strlit("mode");
    reveal_strlit("endpoint_ip");
    lemma_privileged_shape("client"@);
    lemma_privileged_shape("credential"@);
    lemma_privileged_shape("source"@);
    lemma_privileged_shape("value"@);
    lemma_privileged_shape("server_id"@);
    lemma_privileged_shape("credential_transport"@);
    lemma_privileged_shape("storage"@);
    lemma_privileged_shape("mode"@);
    lemma_privileged_shape("endpoint_ip"@);
}

/// What tells a policy the credential is not privileged.
proof fn lemma_credential_entries(credential: Seq<char>)
    ensures
        !privileged_entry(("client"@, ValueModel::Table(credential_entries(credential)))),
{
    let inner = seq![("source"@, ValueModel::Text("toml"@)), ("value"@, ValueModel::Text(credential))];
    let outer = seq![("credential"@, ValueModel::Table(inner))];
    lemma_client_keys();
    lemma_canonical_members(inner);
    lemma_canonical_members(outer);
    let table = canonical_entries(inner);
    let whole = ValueModel::Table(table);
    assert(whole->Table_0 == table);
    assert(!privileged(whole)) by {
        if privileged(whole) {
            let j = choose|j: int| 0 <= j < table.len() && privileged_entry(#[trigger] table[j]);
            let i = choose|i: int| 0 <= i < inner.len() && table[j] == ((#[trigger] inner[i]).0, canonical(inner[i].1));
            assert(i == 0 || i == 1);
            assert(!privileged_entry(table[j]));
        }
    }
    let list = credential_entries(credential);
    let client = ValueModel::Table(list);
    assert(client->Table_0 == list);
    assert(!privileged(client)) by {
        if privileged(client) {
            let j = choose|j: int| 0 <= j < list.len() && privileged_entry(#[trigger] list[j]);
            let i = choose|i: int| 0 <= i < outer.len() && list[j] == ((#[trigger] outer[i]).0, canonical(outer[i].1));
            assert(i == 0);
            assert(list[j] == ("credential"@, whole));
            assert(!privileged_entry(list[j]));
        }
    }
}

/// Whether each privileged entry of the options of a module on a client is one that
/// the client put there: the file of the key of the server, or the file of the
/// policy in its storage, each under the root.
pub open spec fn local_paths_only(options: Seq<(Seq<char>, ValueModel)>, root: Seq<char>) -> bool {
    forall|i: int|
        0 <= i < options.len() && privileged_entry(#[trigger] options[i]) ==> {
            ||| options[i] == ("server_public_key_file"@, ValueModel::Text(pin_path(root)))
            ||| options[i].0 == "storage"@ && options[i].1 is Table && storage_path_only(options[i].1->Table_0, root)
        }
}

/// Whether each privileged entry of a storage is the file of the policy.
pub open spec fn storage_path_only(storage: Seq<(Seq<char>, ValueModel)>, root: Seq<char>) -> bool {
    forall|j: int|
        0 <= j < storage.len() && privileged_entry(#[trigger] storage[j]) ==> storage[j] == (
            "path"@,
            ValueModel::Text(child(state_directory(root), "policy-client.redb"@)),
        )
}

/// What is put into options of which each privileged entry is the client's own keeps
/// them so, where it is not privileged or is the client's own.
proof fn lemma_put_keeps_local(
    options: Seq<(Seq<char>, ValueModel)>,
    root: Seq<char>,
    key: Seq<char>,
    value: ValueModel,
)
    requires
        local_paths_only(options, root),
        local_paths_only(seq![(key, value)], root),
    ensures
        local_paths_only(put(options, key, value), root),
{
    let result = put(options, key, value);
    lemma_put_entries(options, key, value);
    assert forall|i: int| 0 <= i < result.len() && privileged_entry(#[trigger] result[i]) implies {
        ||| result[i] == ("server_public_key_file"@, ValueModel::Text(pin_path(root)))
        ||| result[i].0 == "storage"@ && result[i].1 is Table && storage_path_only(result[i].1->Table_0, root)
    } by {
        if result[i] == (key, value) {
            assert(seq![(key, value)][0] == result[i]);
        } else {
            let j = choose|j: int| 0 <= j < options.len() && options[j] == result[i];
            assert(privileged_entry(options[j]));
        }
    }
}

/// An entry that is not privileged is one that any options may have.
proof fn lemma_plain_entry_is_local(key: Seq<char>, value: ValueModel, root: Seq<char>)
    requires
        !privileged_entry((key, value)),
    ensures
        local_paths_only(seq![(key, value)], root),
{
}

/// Options that are not privileged have no privileged entry.
proof fn lemma_unprivileged_entries(options: Seq<(Seq<char>, ValueModel)>)
    requires
        !privileged(ValueModel::Table(options)),
    ensures
        forall|i: int| 0 <= i < options.len() ==> !privileged_entry(#[trigger] options[i]),
{
    let whole = ValueModel::Table(options);
    assert(whole->Table_0 == options);
    assert forall|i: int| 0 <= i < options.len() implies !privileged_entry(#[trigger] options[i]) by {
        if privileged_entry(options[i]) {
            assert(privileged(whole));
        }
    }
}

/// What stands under a key of a table stands in it.
proof fn lemma_get_member(entries: Seq<(Seq<char>, ValueModel)>, key: Seq<char>)
    ensures
        get(entries, key) matches Some(value) ==> exists|i: int|
            0 <= i < entries.len() && #[trigger] entries[i] == (key, value),
    decreases entries.len(),
{
    if entries.len() > 0 {
        if entries[0].0 == key {
            assert(entries[0] == (key, entries[0].1));
        } else {
            let rest = entries.drop_first();
            lemma_get_member(rest, key);
            if let Some(value) = get(rest, key) {
                let i = choose|i: int| 0 <= i < rest.len() && #[trigger] rest[i] == (key, value);
                assert(entries[i + 1] == (key, value));
            }
        }
    }
}

/// The privileged options of a policy on a client are the client's own.
proof fn lemma_policy_paths(profile: ProfileModel, root: Seq<char>, options: Seq<(Seq<char>, ValueModel)>)
    requires
        !privileged(ValueModel::Table(options)),
    ensures
        policy_options(profile, root, options) matches Ok(result) ==> local_paths_only(result, root),
{
    lemma_client_keys();
    lemma_unprivileged_entries(options);
    let server = ValueModel::Text(profile.server_id);
    let transport = ValueModel::Text("protected"@);
    let first = put(options, "server_id"@, server);
    lemma_plain_entry_is_local("server_id"@, server, root);
    lemma_put_keeps_local(options, root, "server_id"@, server);
    lemma_put_keeps_unprivileged(options, "server_id"@, server);
    let named = put(first, "credential_transport"@, transport);
    lemma_plain_entry_is_local("credential_transport"@, transport, root);
    lemma_put_keeps_local(first, root, "credential_transport"@, transport);
    lemma_put_keeps_unprivileged(first, "credential_transport"@, transport);
    lemma_unprivileged_entries(named);
    lemma_get_member(named, "storage"@);
    let storage = match get(named, "storage"@) {
        Some(storage) => storage,
        None => ValueModel::Table(Seq::empty()),
    };
    if let ValueModel::Table(entries) = storage {
        let path = ValueModel::Text(child(state_directory(root), "policy-client.redb"@));
        let placed = put(entries, "path"@, path);
        assert(forall|j: int| 0 <= j < entries.len() ==> !privileged_entry(#[trigger] entries[j])) by {
            if get(named, "storage"@) is Some {
                let i = choose|i: int| 0 <= i < named.len() && #[trigger] named[i] == ("storage"@, storage);
                assert(!privileged_entry(named[i]));
                assert(!privileged(storage));
                lemma_unprivileged_entries(entries);
            }
        }
        lemma_put_entries(entries, "path"@, path);
        assert(storage_path_only(placed, root)) by {
            assert forall|j: int| 0 <= j < placed.len() && privileged_entry(#[trigger] placed[j]) implies placed[j] == (
                "path"@,
                path,
            ) by {
                if placed[j] != ("path"@, path) {
                    let k = choose|k: int| 0 <= k < entries.len() && entries[k] == placed[j];
                    assert(!privileged_entry(entries[k]));
                }
            }
        }
        let stored = ValueModel::Table(placed);
        let client = ValueModel::Table(credential_entries(profile.credential));
        lemma_put_keeps_local(named, root, "storage"@, stored);
        lemma_credential_entries(profile.credential);
        lemma_plain_entry_is_local("client"@, client, root);
        lemma_put_keeps_local(put(named, "storage"@, stored), root, "client"@, client);
    }
}

/// No profile chooses a path on the client: the privileged options of its modules
/// there are those that the client itself decides, and they lie under its root.
pub proof fn law_local_paths_are_the_clients_own(profile: ProfileModel, root: Seq<char>, module: ModuleModel)
    requires
        valid_module(module),
    ensures
        client_options(profile, root, module) matches Ok(options) ==> local_paths_only(options, root),
        absolute(root) ==> within(pin_path(root), root) && within(
            child(state_directory(root), "policy-client.redb"@),
            root,
        ),
{
    lemma_client_keys();
    lemma_unprivileged_entries(module.options);
    assert(local_paths_only(module.options, root));
    if absolute(root) {
        lemma_fixed_names();
        reveal_strlit("state");
        reveal_strlit("policy-client.redb");
        lemma_within_itself(root);
        lemma_child_within(root, "secrets"@, root);
        lemma_child_within(child(root, "secrets"@), "server-noise-key.hex"@, root);
        lemma_child_within(root, "state"@, root);
        lemma_child_within(state_directory(root), "policy-client.redb"@, root);
    }
    match addition_of(module.class, package_identity(module.package)) {
        Addition::Nothing => {},
        Addition::Noise => {
            let mode = ValueModel::Text("client"@);
            lemma_plain_entry_is_local("mode"@, mode, root);
            lemma_put_keeps_local(module.options, root, "mode"@, mode);
            lemma_put_keeps_local(
                put(module.options, "mode"@, mode),
                root,
                "server_public_key_file"@,
                ValueModel::Text(pin_path(root)),
            );
        },
        Addition::Connect => {
            let mode = ValueModel::Text("connect"@);
            let endpoint = ValueModel::Text(profile.endpoint);
            lemma_plain_entry_is_local("mode"@, mode, root);
            lemma_plain_entry_is_local("endpoint_ip"@, endpoint, root);
            lemma_put_keeps_local(module.options, root, "mode"@, mode);
            lemma_put_keeps_local(put(module.options, "mode"@, mode), root, "endpoint_ip"@, endpoint);
        },
        Addition::Policy => {
            lemma_policy_paths(profile, root, module.options);
        },
    }
}

}
