//! Where the files of a client lie.
use vstd::prelude::*;

use crate::client::{
    client_draft, client_options, config_directory, files_before, generated_modules, main_path, module_file,
    pin_path, FileModel,
};
use crate::deploy::stays_within;
use crate::paths::{
    absolute, child, components, lemma_child_components, lemma_child_within, lemma_within_itself, within,
};
use crate::profile::{
    class_count, distinct_instances, is_name, name_char, valid_module, ModuleClass, ModuleModel, ProfileModel,
};

verus! {

/// A name has no slash.
proof fn lemma_name_has_no_slash(name: Seq<char>)
    requires
        is_name(name),
    ensures
        !name.contains('/'),
{
    if name.contains('/') {
        let i = choose|i: int| 0 <= i < name.len() && name[i] == '/';
        assert(name_char(name[i]));
    }
}

/// The fixed names of a client have no slash.
pub proof fn lemma_fixed_names()
    ensures
        !"config"@.contains('/'),
        !"modules"@.contains('/'),
        !"secrets"@.contains('/'),
        !"snolc.toml"@.contains('/'),
        !"server-noise-key.hex"@.contains('/'),
        !".toml"@.contains('/'),
{
    reveal_strlit("config");
    reveal_strlit("modules");
    reveal_strlit("secrets");
    reveal_strlit("snolc.toml");
    reveal_strlit("server-noise-key.hex");
    reveal_strlit(".toml");
}

/// The name of the file of a module has no slash.
proof fn lemma_module_file_name(instance: Seq<char>)
    requires
        is_name(instance),
    ensures
        !(instance + ".toml"@).contains('/'),
{
    let name = instance + ".toml"@;
    lemma_name_has_no_slash(instance);
    lemma_fixed_names();
    if name.contains('/') {
        let i = choose|i: int| 0 <= i < name.len() && name[i] == '/';
        if i < instance.len() {
            assert(instance[i] == '/');
        } else {
            assert(".toml"@[i - instance.len()] == '/');
        }
    }
}

/// The files that are generated for modules lie under the root.
proof fn lemma_modules_within(profile: ProfileModel, root: Seq<char>, modules: Seq<ModuleModel>)
    requires
        absolute(root),
        forall|i: int| 0 <= i < modules.len() ==> is_name((#[trigger] modules[i]).instance),
    ensures
        forall|i: int|
            0 <= i < generated_modules(profile, root, modules).files.len() ==> within(
                (#[trigger] generated_modules(profile, root, modules).files[i]).path,
                root,
            ),
    decreases modules.len(),
{
    if modules.len() > 0 {
        let rest = modules.drop_last();
        let module = modules.last();
        lemma_modules_within(profile, root, rest);
        let before = generated_modules(profile, root, rest);
        let after = generated_modules(profile, root, modules);
        lemma_fixed_names();
        lemma_within_itself(root);
        lemma_child_within(root, "config"@, root);
        lemma_child_within(config_directory(root), "modules"@, root);
        assert(is_name(modules[modules.len() - 1].instance));
        lemma_module_file_name(module.instance);
        lemma_child_within(child(config_directory(root), "modules"@), module.instance + ".toml"@, root);
        lemma_child_within(root, "secrets"@, root);
        lemma_child_within(child(root, "secrets"@), "server-noise-key.hex"@, root);
        assert forall|i: int| 0 <= i < after.files.len() implies within((#[trigger] after.files[i]).path, root) by {
            if i < before.files.len() {
                assert(after.files[i] == before.files[i]);
            }
        }
    }
}

/// A configuration that is generated lies under its root, so that it can be
/// written there.
pub proof fn law_generated_files_stay_under_the_root(profile: ProfileModel, root: Seq<char>)
    ensures
        client_draft(profile, root).outcome matches Ok(client) ==> stays_within(
            client.main_path,
            client.files,
            root,
        ),
{
    if client_draft(profile, root).outcome is Ok {
        assert forall|i: int| 0 <= i < profile.modules.len() implies is_name(
            (#[trigger] profile.modules[i]).instance,
        ) by {
            assert(valid_module(profile.modules[i]));
        }
        lemma_modules_within(profile, root, profile.modules);
        lemma_fixed_names();
        lemma_within_itself(root);
        lemma_child_within(root, "config"@, root);
        lemma_child_within(config_directory(root), "snolc.toml"@, root);
    }
}

/// Where the files of a client lie, by their components.
proof fn lemma_client_components(root: Seq<char>, instance: Seq<char>)
    requires
        absolute(root),
        is_name(instance),
    ensures
        components(main_path(root)) == components(root) + seq!["config"@, "snolc.toml"@],
        components(pin_path(root)) == components(root) + seq!["secrets"@, "server-noise-key.hex"@],
        components(module_file(root, instance)) == components(root) + seq![
            "config"@,
            "modules"@,
            instance + ".toml"@,
        ],
{
    lemma_fixed_names();
    lemma_module_file_name(instance);
    reveal_strlit("config");
    reveal_strlit("modules");
    reveal_strlit("secrets");
    reveal_strlit("snolc.toml");
    reveal_strlit("server-noise-key.hex");
    reveal_strlit(".toml");
    let file = instance + ".toml"@;
    assert(file.len() > 1);
    lemma_child_components(root, "config"@);
    lemma_child_components(config_directory(root), "snolc.toml"@);
    lemma_child_components(config_directory(root), "modules"@);
    lemma_child_components(child(config_directory(root), "modules"@), file);
    lemma_child_components(root, "secrets"@);
    lemma_child_components(child(root, "secrets"@), "server-noise-key.hex"@);
    assert(components(main_path(root)) =~= components(root) + seq!["config"@, "snolc.toml"@]);
    assert(components(pin_path(root)) =~= components(root) + seq!["secrets"@, "server-noise-key.hex"@]);
    assert(components(module_file(root, instance)) =~= components(root) + seq!["config"@, "modules"@, file]);
}

/// The files of a client lie apart from each other.
proof fn lemma_client_paths_differ(root: Seq<char>, left: Seq<char>, right: Seq<char>)
    requires
        absolute(root),
        is_name(left),
        is_name(right),
    ensures
        main_path(root) != pin_path(root),
        main_path(root) != module_file(root, left),
        pin_path(root) != module_file(root, left),
        left != right ==> module_file(root, left) != module_file(root, right),
{
    lemma_client_components(root, left);
    lemma_client_components(root, right);
    reveal_strlit("config");
    reveal_strlit("secrets");
    let depth = components(root).len() as int;
    assert("config"@.len() != "secrets"@.len());
    assert(components(main_path(root))[depth] == "config"@);
    assert(components(pin_path(root))[depth] == "secrets"@);
    assert(components(main_path(root)).len() == depth + 2);
    assert(components(pin_path(root)).len() == depth + 2);
    assert(components(module_file(root, left)).len() == depth + 3);
    if left != right && module_file(root, left) == module_file(root, right) {
        let left_name = left + ".toml"@;
        let right_name = right + ".toml"@;
        assert(components(module_file(root, left))[depth + 2] == left_name);
        assert(components(module_file(root, right))[depth + 2] == right_name);
        assert(left =~= left_name.take(left_name.len() - ".toml"@.len()));
        assert(right =~= right_name.take(right_name.len() - ".toml"@.len()));
    }
}

/// Whether no path stands twice.
pub open spec fn distinct_paths(files: Seq<FileModel>) -> bool {
    forall|i: int, j: int| 0 <= i < j < files.len() ==> (#[trigger] files[i]).path != (#[trigger] files[j]).path
}

/// Whether each path is that of the key of the server, where there is one, or that
/// of a module.
spec fn known_paths(files: Seq<FileModel>, root: Seq<char>, modules: Seq<ModuleModel>) -> bool {
    forall|i: int|
        0 <= i < files.len() ==> {
            ||| (#[trigger] files[i]).path == pin_path(root) && class_count(modules, ModuleClass::Protection) > 0
            ||| exists|k: int|
                0 <= k < modules.len() && files[i].path == module_file(root, (#[trigger] modules[k]).instance)
        }
}

proof fn lemma_modules_paths_differ(profile: ProfileModel, root: Seq<char>, modules: Seq<ModuleModel>)
    requires
        absolute(root),
        forall|i: int| 0 <= i < modules.len() ==> is_name((#[trigger] modules[i]).instance),
        distinct_instances(modules),
        class_count(modules, ModuleClass::Protection) <= 1,
    ensures
        distinct_paths(generated_modules(profile, root, modules).files),
        known_paths(generated_modules(profile, root, modules).files, root, modules),
    decreases modules.len(),
{
    if modules.len() > 0 {
        let rest = modules.drop_last();
        let last = modules.len() - 1;
        let module = modules[last];
        assert forall|i: int| 0 <= i < rest.len() implies is_name((#[trigger] rest[i]).instance) by {
            assert(is_name(modules[i].instance));
        }
        assert(distinct_instances(rest)) by {
            assert forall|i: int, j: int| 0 <= i < j < rest.len() implies (#[trigger] rest[i]).instance != (
            #[trigger] rest[j]).instance by {
                assert(modules[i].instance != modules[j].instance);
            }
        }
        lemma_modules_paths_differ(profile, root, rest);
        let before = generated_modules(profile, root, rest);
        let after = generated_modules(profile, root, modules);
        assert(known_paths(before.files, root, modules)) by {
            assert forall|i: int| 0 <= i < before.files.len() implies {
                ||| (#[trigger] before.files[i]).path == pin_path(root) && class_count(
                    modules,
                    ModuleClass::Protection,
                ) > 0
                ||| exists|k: int|
                    0 <= k < modules.len() && before.files[i].path == module_file(
                        root,
                        (#[trigger] modules[k]).instance,
                    )
            } by {
                if before.files[i].path != pin_path(root) {
                    let k = choose|k: int|
                        0 <= k < rest.len() && before.files[i].path == module_file(
                            root,
                            (#[trigger] rest[k]).instance,
                        );
                    assert(modules[k] == rest[k]);
                }
            }
        }
        if before.error is None && client_options(profile, root, module) is Ok && after.error is None {
            let extra = files_before(profile, root, module);
            let count = before.files.len() as int;
            assert(after.files.len() == count + extra.len() + 1);
            assert forall|i: int| 0 <= i < count implies before.files[i].path != module_file(root, module.instance)
                && (extra.len() > 0 ==> (#[trigger] before.files[i]).path != pin_path(root)) by {
                assert(is_name(modules[last].instance));
                lemma_client_paths_differ(root, module.instance, module.instance);
                if before.files[i].path != pin_path(root) {
                    let k = choose|k: int|
                        0 <= k < rest.len() && before.files[i].path == module_file(
                            root,
                            (#[trigger] rest[k]).instance,
                        );
                    assert(modules[k].instance != modules[last].instance);
                    assert(is_name(modules[k].instance));
                    lemma_client_paths_differ(root, modules[k].instance, module.instance);
                } else if class_count(rest, ModuleClass::Protection) == 0 {
                    let k = choose|k: int|
                        0 <= k < rest.len() && before.files[i].path == module_file(
                            root,
                            (#[trigger] rest[k]).instance,
                        );
                    assert(is_name(rest[k].instance));
                    lemma_client_paths_differ(root, rest[k].instance, rest[k].instance);
                }
            }
            assert(is_name(modules[last].instance));
            lemma_client_paths_differ(root, module.instance, module.instance);
            assert forall|i: int, j: int| 0 <= i < j < after.files.len() implies (#[trigger] after.files[i]).path != (
            #[trigger] after.files[j]).path by {
                if j < count {
                    assert(after.files[i] == before.files[i] && after.files[j] == before.files[j]);
                } else if i < count {
                    assert(after.files[i] == before.files[i]);
                }
            }
            assert forall|i: int| 0 <= i < after.files.len() implies {
                ||| (#[trigger] after.files[i]).path == pin_path(root) && class_count(
                    modules,
                    ModuleClass::Protection,
                ) > 0
                ||| exists|k: int|
                    0 <= k < modules.len() && after.files[i].path == module_file(
                        root,
                        (#[trigger] modules[k]).instance,
                    )
            } by {
                if i < count {
                    assert(after.files[i] == before.files[i]);
                } else if i < count + extra.len() {
                    assert(after.files[i].path == pin_path(root));
                } else {
                    assert(after.files[i].path == module_file(root, modules[last].instance));
                }
            }
        }
    }
}

/// Each file of a configuration that is generated has a path of its own, so that
/// none is written over another.
pub proof fn law_generated_files_have_their_own_paths(profile: ProfileModel, root: Seq<char>)
    ensures
        client_draft(profile, root).outcome matches Ok(client) ==> distinct_paths(client.files) && forall|i: int|
            0 <= i < client.files.len() ==> (#[trigger] client.files[i]).path != client.main_path,
{
    if client_draft(profile, root).outcome is Ok {
        let modules = profile.modules;
        assert forall|i: int| 0 <= i < modules.len() implies is_name((#[trigger] modules[i]).instance) by {
            assert(valid_module(modules[i]));
        }
        lemma_modules_paths_differ(profile, root, modules);
        let files = generated_modules(profile, root, modules).files;
        assert forall|i: int| 0 <= i < files.len() implies (#[trigger] files[i]).path != main_path(root) by {
            if files[i].path != pin_path(root) {
                let k = choose|k: int|
                    0 <= k < modules.len() && files[i].path == module_file(root, (#[trigger] modules[k]).instance);
                assert(is_name(modules[k].instance));
                lemma_client_paths_differ(root, modules[k].instance, modules[k].instance);
            } else {
                assert(is_name(modules[0].instance));
                lemma_client_paths_differ(root, modules[0].instance, modules[0].instance);
            }
        }
    }
}

}
