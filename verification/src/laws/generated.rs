//! What the files of a client say.
use vstd::prelude::*;
use vstd::utf8::*;

use crate::client::{
    client_draft, client_options, credential_entries, files_before, fits_client, generated_modules, module_entries,
    module_file, package_identity, pin_path, policy_options, state_directory, with_module, CheckModel, ClientModel,
    FileModel,
};
use crate::document::toml_text;
use crate::error::ErrorModel;
use crate::laws::tables::{
    law_canonical_tables_keep_their_values, law_sorted_entries_have_no_other_key,
    law_sorted_entries_keep_their_values,
};
use crate::paths::child;
use crate::profile::{is_package, package_part, valid_module, ModuleClass, ModuleModel, ProfileModel};
use crate::text::{lemma_split_at_first, lemma_split_at_last, split_at_first, split_at_last};
use crate::value::{canonical, canonical_entries, get, lemma_get_put, put, ValueModel};

verus! {

/// Whether a package is a version of what a text names, which ends in `@`.
pub open spec fn version_of(package: Seq<char>, name: Seq<char>) -> bool {
    exists|version: Seq<char>| package == #[trigger] (name + version)
}

/// Where the file of a module lies.
pub open spec fn place_of_module(root: Seq<char>, module: ModuleModel) -> Seq<char> {
    child(child(child(root, "config"@), "modules"@), module.instance + ".toml"@)
}

/// Whether a text says of a module what it is, and which options it has: it is the
/// text of a table with five keys.
pub open spec fn module_text(
    text: Seq<char>,
    table: Seq<(Seq<char>, ValueModel)>,
    module: ModuleModel,
    options: Seq<(Seq<char>, ValueModel)>,
) -> bool {
    &&& toml_text(table) == Ok::<Seq<char>, Seq<char>>(text)
    &&& get(table, "wire_version"@) == Some(ValueModel::Integer(1))
    &&& get(table, "instance"@) == Some(ValueModel::Text(module.instance))
    &&& get(table, "package"@) == Some(ValueModel::Text(module.package))
    &&& get(table, "role"@) == Some(ValueModel::Text("client"@))
    &&& get(table, "options"@) == Some(ValueModel::Table(options))
    &&& forall|key: Seq<char>|
        key != "wire_version"@ && key != "instance"@ && key != "package"@ && key != "role"@ && key != "options"@
            ==> #[trigger] get(table, key) is None
}

/// Whether a client has a file for a module, in its place, which says what the module
/// is and which options it has; it is secret where the module is a policy.
pub open spec fn file_tells(
    client: ClientModel,
    root: Seq<char>,
    module: ModuleModel,
    options: Seq<(Seq<char>, ValueModel)>,
) -> bool {
    exists|k: int, text: Seq<char>, table: Seq<(Seq<char>, ValueModel)>|
        #![trigger client.files[k], module_text(text, table, module, options)]
        0 <= k < client.files.len() && client.files[k] == (FileModel {
            path: place_of_module(root, module),
            contents: encode_utf8(text),
            secret: module.class == ModuleClass::Policy,
        }) && module_text(text, table, module, options)
}

proof fn lemma_module_entries(module: ModuleModel, options: Seq<(Seq<char>, ValueModel)>, text: Seq<char>)
    requires
        toml_text(module_entries(module, options)) == Ok::<Seq<char>, Seq<char>>(text),
    ensures
        module_text(text, module_entries(module, options), module, options),
{
    reveal_strlit("wire_version");
    reveal_strlit("instance");
    reveal_strlit("package");
    reveal_strlit("role");
    reveal_strlit("options");
    assert("wire_version"@.len() == 12 && "instance"@.len() == 8 && "role"@.len() == 4);
    assert("package"@.len() == 7 && "package"@[0] == 'p');
    assert("options"@.len() == 7 && "options"@[0] == 'o');
    let entries = seq![
        ("wire_version"@, ValueModel::Integer(1)),
        ("instance"@, ValueModel::Text(module.instance)),
        ("package"@, ValueModel::Text(module.package)),
        ("role"@, ValueModel::Text("client"@)),
        ("options"@, ValueModel::Table(options)),
    ];
    law_sorted_entries_keep_their_values(entries, 0);
    law_sorted_entries_keep_their_values(entries, 1);
    law_sorted_entries_keep_their_values(entries, 2);
    law_sorted_entries_keep_their_values(entries, 3);
    law_sorted_entries_keep_their_values(entries, 4);
    assert forall|key: Seq<char>|
        key != "wire_version"@ && key != "instance"@ && key != "package"@ && key != "role"@ && key != "options"@
        implies #[trigger] get(module_entries(module, options), key) is None by {
        law_sorted_entries_have_no_other_key(entries, key);
    }
}

/// Whether the file of a module, and what the engine is asked of it, are there.
spec fn generated_for(
    profile: ProfileModel,
    root: Seq<char>,
    files: Seq<FileModel>,
    check: CheckModel,
    module: ModuleModel,
) -> bool {
    &&& client_options(profile, root, module) matches Ok(options) && toml_text(module_entries(module, options)) == Ok::<
        Seq<char>,
        Seq<char>,
    >(check.text)
    &&& check.path == module_file(root, module.instance)
    &&& !check.main
    &&& files.contains(
        FileModel { path: check.path, contents: encode_utf8(check.text), secret: module.class == ModuleClass::Policy },
    )
    &&& forall|k: int|
        0 <= k < files_before(profile, root, module).len() ==> files.contains(
            #[trigger] files_before(profile, root, module)[k],
        )
}

/// What is generated for modules is there for each of them.
proof fn lemma_generated(profile: ProfileModel, root: Seq<char>, modules: Seq<ModuleModel>)
    requires
        generated_modules(profile, root, modules).error is None,
    ensures
        generated_modules(profile, root, modules).checks.len() == modules.len(),
        forall|i: int|
            0 <= i < modules.len() ==> generated_for(
                profile,
                root,
                generated_modules(profile, root, modules).files,
                generated_modules(profile, root, modules).checks[i],
                #[trigger] modules[i],
            ),
    decreases modules.len(),
{
    if modules.len() > 0 {
        let rest = modules.drop_last();
        let before = generated_modules(profile, root, rest);
        let after = generated_modules(profile, root, modules);
        let last = modules.last();
        assert(before.error is None);
        assert(after == with_module(before, profile, root, last));
        lemma_generated(profile, root, rest);
        let extra = files_before(profile, root, last);
        assert forall|file: FileModel| before.files.contains(file) implies #[trigger] after.files.contains(file) by {
            let k = choose|k: int| 0 <= k < before.files.len() && before.files[k] == file;
            assert(after.files[k] == file);
        }
        assert forall|i: int| 0 <= i < modules.len() implies generated_for(
            profile,
            root,
            after.files,
            after.checks[i],
            #[trigger] modules[i],
        ) by {
            if i < rest.len() {
                assert(rest[i] == modules[i]);
                assert(after.checks[i] == before.checks[i]);
                assert(generated_for(profile, root, before.files, before.checks[i], rest[i]));
            } else {
                assert(after.files[after.files.len() - 1] == after.files.last());
                assert forall|k: int| 0 <= k < extra.len() implies after.files.contains(#[trigger] extra[k]) by {
                    assert(after.files[before.files.len() + k] == extra[k]);
                }
            }
        }
    }
}

/// Each module of a profile has a file in its client, which says what the module is
/// and which options it has there.
proof fn lemma_file_tells(profile: ProfileModel, root: Seq<char>, index: int)
    requires
        client_draft(profile, root).outcome is Ok,
        0 <= index < profile.modules.len(),
    ensures
        client_options(profile, root, profile.modules[index]) is Ok,
        file_tells(
            client_draft(profile, root).outcome->Ok_0,
            root,
            profile.modules[index],
            client_options(profile, root, profile.modules[index])->Ok_0,
        ),
        forall|k: int|
            0 <= k < files_before(profile, root, profile.modules[index]).len() ==> client_draft(
                profile,
                root,
            ).outcome->Ok_0.files.contains(#[trigger] files_before(profile, root, profile.modules[index])[k]),
{
    let client = client_draft(profile, root).outcome->Ok_0;
    let module = profile.modules[index];
    let modules = generated_modules(profile, root, profile.modules);
    lemma_generated(profile, root, profile.modules);
    let check = modules.checks[index];
    assert(generated_for(profile, root, modules.files, check, module));
    let options = client_options(profile, root, module)->Ok_0;
    lemma_module_entries(module, options, check.text);
    let file = FileModel {
        path: check.path,
        contents: encode_utf8(check.text),
        secret: module.class == ModuleClass::Policy,
    };
    let k = choose|k: int| 0 <= k < client.files.len() && client.files[k] == file;
    assert(client.files[k] == file);
    assert(module_text(check.text, module_entries(module, options), module, options));
}

/// The identity of a package is what stands before the version, which follows the
/// only `@`.
proof fn lemma_identity(package: Seq<char>, identity: Seq<char>, version: Seq<char>)
    requires
        is_package(package),
        package == identity + seq!['@'] + version,
    ensures
        package_identity(package) == identity,
{
    lemma_split_at_last(package, '@');
    let (front, back) = split_at_last(package, '@')->0;
    lemma_split_at_first(front, '/');
    let (owner, name) = split_at_first(front, '/')->0;
    assert(package_part(owner) && package_part(name));
    assert forall|i: int| 0 <= i < front.len() implies front[i] != '@' by {
        if i < owner.len() {
            assert(front[i] == owner[i]);
        } else if i > owner.len() {
            assert(front[i] == name[i - owner.len() - 1]);
        }
    }
    assert(package[identity.len() as int] == '@');
    assert(package[front.len() as int] == '@');
    if identity.len() < front.len() {
        assert(front[identity.len() as int] == '@');
    }
    if identity.len() > front.len() {
        assert(back[identity.len() - front.len() - 1] == '@');
    }
    assert(front =~= identity) by {
        assert forall|i: int| 0 <= i < front.len() implies front[i] == identity[i] by {
            assert(package[i] == front[i]);
            assert(package[i] == identity[i]);
        }
    }
}

/// A package is a version of what a text names where that text, without its `@`, is
/// its identity.
proof fn lemma_version(package: Seq<char>, name: Seq<char>, identity: Seq<char>)
    requires
        is_package(package),
        name == identity + seq!['@'],
    ensures
        version_of(package, name) <==> package_identity(package) == identity,
{
    if version_of(package, name) {
        let version = choose|version: Seq<char>| package == #[trigger] (name + version);
        assert(package =~= identity + seq!['@'] + version);
        lemma_identity(package, identity, version);
    }
    if package_identity(package) == identity {
        lemma_split_at_last(package, '@');
        let (front, back) = split_at_last(package, '@')->0;
        assert(package =~= name + back);
    }
}

/// The names of the packages that a client has something to add for.
proof fn lemma_names()
    ensures
        "owenewans/protection-noise@"@ == "owenewans/protection-noise"@ + seq!['@'],
        "owenewans/carrier-tcp@"@ == "owenewans/carrier-tcp"@ + seq!['@'],
        "owenewans/carrier-ssh@"@ == "owenewans/carrier-ssh"@ + seq!['@'],
        "owenewans/policy-local@"@ == "owenewans/policy-local"@ + seq!['@'],
{
    reveal_strlit("owenewans/protection-noise@");
    reveal_strlit("owenewans/protection-noise");
    reveal_strlit("owenewans/carrier-tcp@");
    reveal_strlit("owenewans/carrier-tcp");
    reveal_strlit("owenewans/carrier-ssh@");
    reveal_strlit("owenewans/carrier-ssh");
    reveal_strlit("owenewans/policy-local@");
    reveal_strlit("owenewans/policy-local");
    assert("owenewans/protection-noise@"@ =~= "owenewans/protection-noise"@ + seq!['@']);
    assert("owenewans/carrier-tcp@"@ =~= "owenewans/carrier-tcp"@ + seq!['@']);
    assert("owenewans/carrier-ssh@"@ =~= "owenewans/carrier-ssh"@ + seq!['@']);
    assert("owenewans/policy-local@"@ =~= "owenewans/policy-local"@ + seq!['@']);
}

/// The module of a client is valid, and so is its package.
proof fn lemma_valid_package(profile: ProfileModel, root: Seq<char>, index: int)
    requires
        client_draft(profile, root).outcome is Ok,
        0 <= index < profile.modules.len(),
    ensures
        is_package(profile.modules[index].package),
{
    assert(valid_module(profile.modules[index]));
}

/// A carrier over TCP or SSH, at any version, is told to connect to the endpoint of
/// the profile: its file says so. Its other options are those of the profile.
pub proof fn law_carriers_connect_to_the_endpoint(profile: ProfileModel, root: Seq<char>, index: int)
    requires
        client_draft(profile, root).outcome is Ok,
        0 <= index < profile.modules.len(),
        profile.modules[index].class == ModuleClass::Carrier,
        version_of(profile.modules[index].package, "owenewans/carrier-tcp@"@) || version_of(
            profile.modules[index].package,
            "owenewans/carrier-ssh@"@,
        ),
    ensures
        exists|options: Seq<(Seq<char>, ValueModel)>|
            {
                &&& #[trigger] file_tells(
                    client_draft(profile, root).outcome->Ok_0,
                    root,
                    profile.modules[index],
                    options,
                )
                &&& get(options, "mode"@) == Some(ValueModel::Text("connect"@))
                &&& get(options, "endpoint_ip"@) == Some(ValueModel::Text(profile.endpoint))
                &&& forall|key: Seq<char>|
                    key != "mode"@ && key != "endpoint_ip"@ ==> #[trigger] get(options, key) == get(
                        profile.modules[index].options,
                        key,
                    )
            },
{
    let module = profile.modules[index];
    lemma_valid_package(profile, root, index);
    lemma_file_tells(profile, root, index);
    lemma_names();
    lemma_version(module.package, "owenewans/carrier-tcp@"@, "owenewans/carrier-tcp"@);
    lemma_version(module.package, "owenewans/carrier-ssh@"@, "owenewans/carrier-ssh"@);
    let mode = ValueModel::Text("connect"@);
    let endpoint = ValueModel::Text(profile.endpoint);
    let first = put(module.options, "mode"@, mode);
    let options = put(first, "endpoint_ip"@, endpoint);
    assert(client_options(profile, root, module) == Ok::<Seq<(Seq<char>, ValueModel)>, ErrorModel>(options));
    reveal_strlit("mode");
    reveal_strlit("endpoint_ip");
    assert("mode"@.len() == 4 && "endpoint_ip"@.len() == 11);
    lemma_get_put(module.options, "mode"@, mode, "mode"@);
    lemma_get_put(first, "endpoint_ip"@, endpoint, "mode"@);
    assert forall|key: Seq<char>| key != "mode"@ && key != "endpoint_ip"@ implies #[trigger] get(options, key) == get(
        module.options,
        key,
    ) by {
        lemma_get_put(module.options, "mode"@, mode, key);
        lemma_get_put(first, "endpoint_ip"@, endpoint, key);
    }
}

/// A protection by Noise, at any version, is told to be the client, and where the key
/// of the server is: in a secret file of the client that holds the pin of the
/// profile and a line feed. Its other options are those of the profile.
pub proof fn law_noise_knows_the_pin(profile: ProfileModel, root: Seq<char>, index: int)
    requires
        client_draft(profile, root).outcome is Ok,
        0 <= index < profile.modules.len(),
        profile.modules[index].class == ModuleClass::Protection,
        version_of(profile.modules[index].package, "owenewans/protection-noise@"@),
    ensures
        client_draft(profile, root).outcome->Ok_0.files.contains(
            FileModel {
                path: child(child(root, "secrets"@), "server-noise-key.hex"@),
                contents: encode_utf8(profile.server_pin + "\n"@),
                secret: true,
            },
        ),
        exists|options: Seq<(Seq<char>, ValueModel)>|
            {
                &&& #[trigger] file_tells(
                    client_draft(profile, root).outcome->Ok_0,
                    root,
                    profile.modules[index],
                    options,
                )
                &&& get(options, "mode"@) == Some(ValueModel::Text("client"@))
                &&& get(options, "server_public_key_file"@) == Some(
                    ValueModel::Text(child(child(root, "secrets"@), "server-noise-key.hex"@)),
                )
                &&& forall|key: Seq<char>|
                    key != "mode"@ && key != "server_public_key_file"@ ==> #[trigger] get(options, key) == get(
                        profile.modules[index].options,
                        key,
                    )
            },
{
    let module = profile.modules[index];
    lemma_valid_package(profile, root, index);
    lemma_file_tells(profile, root, index);
    lemma_names();
    lemma_version(module.package, "owenewans/protection-noise@"@, "owenewans/protection-noise"@);
    let mode = ValueModel::Text("client"@);
    let path = ValueModel::Text(pin_path(root));
    let first = put(module.options, "mode"@, mode);
    let options = put(first, "server_public_key_file"@, path);
    assert(client_options(profile, root, module) == Ok::<Seq<(Seq<char>, ValueModel)>, ErrorModel>(options));
    reveal_strlit("mode");
    reveal_strlit("server_public_key_file");
    assert("mode"@.len() == 4 && "server_public_key_file"@.len() == 22);
    lemma_get_put(module.options, "mode"@, mode, "mode"@);
    lemma_get_put(first, "server_public_key_file"@, path, "mode"@);
    assert forall|key: Seq<char>| key != "mode"@ && key != "server_public_key_file"@ implies #[trigger] get(
        options,
        key,
    ) == get(module.options, key) by {
        lemma_get_put(module.options, "mode"@, mode, key);
        lemma_get_put(first, "server_public_key_file"@, path, key);
    }
    assert(files_before(profile, root, module)[0] == (FileModel {
        path: child(child(root, "secrets"@), "server-noise-key.hex"@),
        contents: encode_utf8(profile.server_pin + "\n"@),
        secret: true,
    }));
}

/// Whether a table tells a policy the credential of a client.
pub open spec fn tells_credential(client: ValueModel, credential: Seq<char>) -> bool {
    &&& client matches ValueModel::Table(outer) && get(outer, "credential"@) matches Some(ValueModel::Table(inner)) && {
        &&& get(inner, "source"@) == Some(ValueModel::Text("toml"@))
        &&& get(inner, "value"@) == Some(ValueModel::Text(credential))
    }
}

proof fn lemma_tells_credential(credential: Seq<char>)
    ensures
        tells_credential(ValueModel::Table(credential_entries(credential)), credential),
{
    reveal_strlit("source");
    reveal_strlit("value");
    assert("source"@.len() == 6 && "value"@.len() == 5);
    let inner = seq![("source"@, ValueModel::Text("toml"@)), ("value"@, ValueModel::Text(credential))];
    let outer = seq![("credential"@, ValueModel::Table(inner))];
    law_canonical_tables_keep_their_values(inner, 0);
    law_canonical_tables_keep_their_values(inner, 1);
    law_canonical_tables_keep_their_values(outer, 0);
    let whole = ValueModel::Table(inner);
    assert(whole->Table_0 == inner);
    assert(canonical(whole) == ValueModel::Table(canonical_entries(inner)));
}

/// A local policy, at any version, is told which server it is for, that the
/// credential is protected on its way, the credential itself, and where it keeps its
/// data: under the root. What else its storage has, and its other options, are those
/// of the profile.
pub proof fn law_policies_know_the_credential(profile: ProfileModel, root: Seq<char>, index: int)
    requires
        client_draft(profile, root).outcome is Ok,
        0 <= index < profile.modules.len(),
        profile.modules[index].class == ModuleClass::Policy,
        version_of(profile.modules[index].package, "owenewans/policy-local@"@),
    ensures
        exists|options: Seq<(Seq<char>, ValueModel)>|
            {
                &&& #[trigger] file_tells(
                    client_draft(profile, root).outcome->Ok_0,
                    root,
                    profile.modules[index],
                    options,
                )
                &&& get(options, "server_id"@) == Some(ValueModel::Text(profile.server_id))
                &&& get(options, "credential_transport"@) == Some(ValueModel::Text("protected"@))
                &&& get(options, "client"@) matches Some(client) && tells_credential(client, profile.credential)
                &&& get(options, "storage"@) matches Some(ValueModel::Table(storage)) && {
                    &&& get(storage, "path"@) == Some(
                        ValueModel::Text(child(child(root, "state"@), "policy-client.redb"@)),
                    )
                    &&& forall|key: Seq<char>|
                        key != "path"@ ==> #[trigger] get(storage, key) == match get(
                            profile.modules[index].options,
                            "storage"@,
                        ) {
                            Some(ValueModel::Table(given)) => get(given, key),
                            _ => None,
                        }
                }
                &&& forall|key: Seq<char>|
                    key != "server_id"@ && key != "credential_transport"@ && key != "client"@ && key != "storage"@
                        ==> #[trigger] get(options, key) == get(profile.modules[index].options, key)
            },
{
    let module = profile.modules[index];
    lemma_valid_package(profile, root, index);
    lemma_file_tells(profile, root, index);
    lemma_names();
    lemma_version(module.package, "owenewans/policy-local@"@, "owenewans/policy-local"@);
    assert(client_options(profile, root, module) == policy_options(profile, root, module.options));
    reveal_strlit("server_id");
    reveal_strlit("credential_transport");
    reveal_strlit("storage");
    reveal_strlit("client");
    assert("server_id"@.len() == 9 && "credential_transport"@.len() == 20 && "storage"@.len() == 7 && "client"@.len()
        == 6);
    let server = ValueModel::Text(profile.server_id);
    let transport = ValueModel::Text("protected"@);
    let first = put(module.options, "server_id"@, server);
    let named = put(first, "credential_transport"@, transport);
    lemma_get_put(module.options, "server_id"@, server, "storage"@);
    lemma_get_put(first, "credential_transport"@, transport, "storage"@);
    lemma_get_put(first, "credential_transport"@, transport, "server_id"@);
    assert(get(named, "storage"@) == get(module.options, "storage"@));
    let given = match get(module.options, "storage"@) {
        Some(ValueModel::Table(given)) => given,
        _ => Seq::empty(),
    };
    let path = ValueModel::Text(child(state_directory(root), "policy-client.redb"@));
    let storage = put(given, "path"@, path);
    let stored = put(named, "storage"@, ValueModel::Table(storage));
    let client = ValueModel::Table(credential_entries(profile.credential));
    let options = put(stored, "client"@, client);
    lemma_tells_credential(profile.credential);
    lemma_get_put(named, "storage"@, ValueModel::Table(storage), "server_id"@);
    lemma_get_put(named, "storage"@, ValueModel::Table(storage), "credential_transport"@);
    lemma_get_put(stored, "client"@, client, "server_id"@);
    lemma_get_put(stored, "client"@, client, "credential_transport"@);
    lemma_get_put(stored, "client"@, client, "storage"@);
    lemma_get_put(given, "path"@, path, "path"@);
    assert forall|key: Seq<char>| key != "path"@ implies #[trigger] get(storage, key) == get(given, key) by {
        lemma_get_put(given, "path"@, path, key);
    }
    assert forall|key: Seq<char>|
        key != "server_id"@ && key != "credential_transport"@ && key != "client"@ && key != "storage"@
        implies #[trigger] get(options, key) == get(module.options, key) by {
        lemma_get_put(module.options, "server_id"@, server, key);
        lemma_get_put(first, "credential_transport"@, transport, key);
        lemma_get_put(named, "storage"@, ValueModel::Table(storage), key);
        lemma_get_put(stored, "client"@, client, key);
    }
    assert(client_options(profile, root, module) == Ok::<Seq<(Seq<char>, ValueModel)>, ErrorModel>(options));
}

/// A module that the client has nothing to add for has in its file the options of the
/// profile, as they are: each adapter, and each module of a package that is none of
/// the known ones of its class.
pub proof fn law_other_options_are_kept(profile: ProfileModel, root: Seq<char>, index: int)
    requires
        client_draft(profile, root).outcome is Ok,
        0 <= index < profile.modules.len(),
        match profile.modules[index].class {
            ModuleClass::Adapter => true,
            ModuleClass::Protection => !version_of(profile.modules[index].package, "owenewans/protection-noise@"@),
            ModuleClass::Carrier => !version_of(profile.modules[index].package, "owenewans/carrier-tcp@"@)
                && !version_of(profile.modules[index].package, "owenewans/carrier-ssh@"@),
            ModuleClass::Policy => !version_of(profile.modules[index].package, "owenewans/policy-local@"@),
        },
    ensures
        file_tells(
            client_draft(profile, root).outcome->Ok_0,
            root,
            profile.modules[index],
            profile.modules[index].options,
        ),
{
    let module = profile.modules[index];
    lemma_valid_package(profile, root, index);
    lemma_file_tells(profile, root, index);
    lemma_names();
    lemma_version(module.package, "owenewans/protection-noise@"@, "owenewans/protection-noise"@);
    lemma_version(module.package, "owenewans/carrier-tcp@"@, "owenewans/carrier-tcp"@);
    lemma_version(module.package, "owenewans/carrier-ssh@"@, "owenewans/carrier-ssh"@);
    lemma_version(module.package, "owenewans/policy-local@"@, "owenewans/policy-local"@);
}

/// A client can have the modules of a valid profile unless one of them is a local
/// policy, at any version, that has something else than a table for its storage.
pub proof fn law_only_storage_can_be_refused(profile: ProfileModel, root: Seq<char>)
    requires
        profile.valid(),
    ensures
        fits_client(profile, root) <==> forall|i: int|
            0 <= i < profile.modules.len() && (#[trigger] profile.modules[i]).class == ModuleClass::Policy && version_of(
                profile.modules[i].package,
                "owenewans/policy-local@"@,
            ) ==> match get(profile.modules[i].options, "storage"@) {
                Some(storage) => storage is Table,
                None => true,
            },
{
    assert forall|i: int| 0 <= i < profile.modules.len() implies (client_options(
        profile,
        root,
        #[trigger] profile.modules[i],
    ) is Ok <==> (profile.modules[i].class == ModuleClass::Policy && version_of(
        profile.modules[i].package,
        "owenewans/policy-local@"@,
    ) ==> match get(profile.modules[i].options, "storage"@) {
        Some(storage) => storage is Table,
        None => true,
    })) by {
        let module = profile.modules[i];
        assert(valid_module(module));
        lemma_names();
        lemma_version(module.package, "owenewans/policy-local@"@, "owenewans/policy-local"@);
        reveal_strlit("server_id");
        reveal_strlit("credential_transport");
        reveal_strlit("storage");
        assert("server_id"@.len() == 9 && "credential_transport"@.len() == 20 && "storage"@.len() == 7);
        let server = ValueModel::Text(profile.server_id);
        let first = put(module.options, "server_id"@, server);
        lemma_get_put(module.options, "server_id"@, server, "storage"@);
        lemma_get_put(first, "credential_transport"@, ValueModel::Text("protected"@), "storage"@);
    }
}

/// The files of a client come in the order of its modules: those of some modules before
/// those of the modules that follow, and so does what the engine is asked of them.
pub proof fn law_files_come_in_the_order_of_the_modules(
    profile: ProfileModel,
    root: Seq<char>,
    front: Seq<ModuleModel>,
    back: Seq<ModuleModel>,
)
    requires
        generated_modules(profile, root, front + back).error is None,
    ensures
        generated_modules(profile, root, front).error is None,
        generated_modules(profile, root, back).error is None,
        generated_modules(profile, root, front + back).files == generated_modules(profile, root, front).files
            + generated_modules(profile, root, back).files,
        generated_modules(profile, root, front + back).checks == generated_modules(profile, root, front).checks
            + generated_modules(profile, root, back).checks,
    decreases back.len(),
{
    if back.len() == 0 {
        assert(front + back =~= front);
        let none = generated_modules(profile, root, back);
        let all = generated_modules(profile, root, front);
        assert(all.files + none.files =~= all.files);
        assert(all.checks + none.checks =~= all.checks);
    } else {
        let rest = back.drop_last();
        assert((front + back).drop_last() =~= front + rest);
        assert((front + back).last() == back.last());
        law_files_come_in_the_order_of_the_modules(profile, root, front, rest);
        let first = generated_modules(profile, root, front);
        let second = generated_modules(profile, root, back);
        let whole = generated_modules(profile, root, front + back);
        assert(whole.files =~= first.files + second.files);
        assert(whole.checks =~= first.checks + second.checks);
    }
}

}
