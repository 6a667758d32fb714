//! What is installed of the modules that come with the application, and where.
use vstd::prelude::*;

use crate::codec::sha256;
use crate::document::toml_text;
use crate::error::ErrorModel;
use crate::install::{
    bundled_modules, bundled_of_package, file_hash, library_of, lock_entries, lock_path_of, store_of, target_of,
    ActionModel, BundledModel, InstallModel, StageModel,
};
use crate::laws::profiles::law_hex_tells_bytes_apart;
use crate::laws::tables::{law_canonical_tables_have_no_other_key, law_canonical_tables_keep_their_values};
use crate::paths::{child, component, components, lemma_child_components};
use crate::profile::{is_package, package_part, package_parts, package_version, ModuleModel, ProfileModel};
use crate::text::{
    lemma_split_at_first, lemma_split_at_first_is, lemma_split_at_last, split_at_first, split_at_last,
};
use crate::value::{canonical, canonical_entries, canonical_items, get, ValueModel};

verus! {

/// Whether a table is the lock of a module whose library lies in a store.
pub open spec fn lock_tells(
    lock: Seq<(Seq<char>, ValueModel)>,
    module: BundledModel,
    target: Seq<char>,
    hash: Seq<char>,
    library: Seq<char>,
    store: Seq<char>,
) -> bool {
    &&& get(lock, "wire_version"@) == Some(ValueModel::Integer(1))
    &&& get(lock, "package"@) == Some(ValueModel::Text(module.package))
    &&& get(lock, "target"@) == Some(ValueModel::Text(target))
    &&& get(lock, "content_sha256"@) == Some(ValueModel::Text(hash))
    &&& get(lock, "library"@) == Some(ValueModel::Text(library))
    &&& get(lock, "store"@) == Some(ValueModel::Text(store))
    &&& library == child(store, module.library)
    &&& get(lock, "dependencies"@) matches Some(ValueModel::Array(dependencies)) && dependencies.len() == 0
    &&& forall|key: Seq<char>|
        key != "wire_version"@ && key != "package"@ && key != "target"@ && key != "content_sha256"@ && key
            != "library"@ && key != "store"@ && key != "dependencies"@ ==> #[trigger] get(lock, key) is None
}

proof fn lemma_lock_tells(module: BundledModel, target: Seq<char>, hash: Seq<char>, store: Seq<char>)
    ensures
        lock_tells(
            canonical_entries(lock_entries(module, target, hash, store)),
            module,
            target,
            hash,
            child(store, module.library),
            store,
        ),
{
    reveal_strlit("wire_version");
    reveal_strlit("package");
    reveal_strlit("target");
    reveal_strlit("content_sha256");
    reveal_strlit("library");
    reveal_strlit("store");
    reveal_strlit("dependencies");
    assert("wire_version"@.len() == 12 && "wire_version"@[0] == 'w');
    assert("dependencies"@.len() == 12 && "dependencies"@[0] == 'd');
    assert("package"@.len() == 7 && "package"@[0] == 'p');
    assert("library"@.len() == 7 && "library"@[0] == 'l');
    assert("target"@.len() == 6 && "content_sha256"@.len() == 14 && "store"@.len() == 5);
    let entries = lock_entries(module, target, hash, store);
    law_canonical_tables_keep_their_values(entries, 0);
    law_canonical_tables_keep_their_values(entries, 1);
    law_canonical_tables_keep_their_values(entries, 2);
    law_canonical_tables_keep_their_values(entries, 3);
    law_canonical_tables_keep_their_values(entries, 4);
    law_canonical_tables_keep_their_values(entries, 5);
    law_canonical_tables_keep_their_values(entries, 6);
    let none = ValueModel::Array(Seq::empty());
    assert(none->Array_0 == Seq::<ValueModel>::empty());
    assert(canonical_items(none->Array_0) == Seq::<ValueModel>::empty());
    assert(canonical(none) == none);
    let lock = canonical_entries(entries);
    assert forall|key: Seq<char>|
        key != "wire_version"@ && key != "package"@ && key != "target"@ && key != "content_sha256"@ && key
            != "library"@ && key != "store"@ && key != "dependencies"@ implies #[trigger] get(lock, key) is None by {
        law_canonical_tables_have_no_other_key(entries, key);
    }
}

/// Whether what an installation does next is to write, for its user alone, the lock
/// of a module whose library is a file.
pub open spec fn locks_library(
    action: Option<ActionModel>,
    module: BundledModel,
    target: Seq<char>,
    hash: Seq<char>,
    library: Seq<char>,
) -> bool {
    match action {
        Some(ActionModel::WriteLock { contents, mode, .. }) => mode == 0o600 && exists|
            lock: Seq<(Seq<char>, ValueModel)>,
            store: Seq<char>,
        |
            #[trigger] lock_tells(lock, module, target, hash, library, store) && toml_text(lock) == Ok::<
                Seq<char>,
                Seq<char>,
            >(contents),
        Some(_) => false,
        None => true,
    }
}

/// The lock that is written once a library was copied says of the module which
/// library it has, and which store: the library is the file that was copied, and the
/// store is the directory that it lies in. It was copied from the library that came
/// with the application, and can only be read.
pub proof fn law_locks_name_the_copied_library(installation: InstallModel, hash: Seq<char>)
    requires
        0 <= installation.index < installation.modules.len(),
        installation.stage == StageModel::Copy(hash),
    ensures
        ({
            let module = installation.modules[installation.index];
            installation.action() matches Some(ActionModel::CopyLibrary { source, library, mode }) && source
                == module.source && mode == 0o400 && locks_library(
                installation.after_write().action(),
                module,
                installation.target,
                hash,
                library,
            )
        }),
{
    let module = installation.modules[installation.index];
    let store = store_of(installation.root, module, installation.target, hash);
    lemma_lock_tells(module, installation.target, hash, store);
}

/// The lock that is written where a library was in its place already says of the
/// module the same: the library is the file that was read there.
pub proof fn law_locks_name_the_library_that_was_there(installation: InstallModel, hash: Seq<char>, contents: Seq<u8>)
    requires
        0 <= installation.index < installation.modules.len(),
        installation.stage == StageModel::Library(hash),
        file_hash(contents) == hash,
    ensures
        installation.after_read(Some(contents)) is Ok,
        installation.action() matches Some(ActionModel::ReadLibrary(library)) && locks_library(
            installation.after_read(Some(contents))->Ok_0.action(),
            installation.modules[installation.index],
            installation.target,
            hash,
            library,
        ),
{
    let module = installation.modules[installation.index];
    let store = store_of(installation.root, module, installation.target, hash);
    lemma_lock_tells(module, installation.target, hash, store);
}

/// Whether a text is the name of one file or directory.
pub open spec fn is_plain_name(name: Seq<char>) -> bool {
    name.len() > 0 && !name.contains('/') && name != seq!['.']
}

proof fn lemma_plain_child(directory: Seq<char>, name: Seq<char>)
    requires
        is_plain_name(name),
    ensures
        components(child(directory, name)) == components(directory).push(name),
{
    lemma_child_components(directory, name);
    assert(components(directory) + component(name) =~= components(directory).push(name));
}

proof fn lemma_fixed_directories()
    ensures
        is_plain_name("packages"@),
        is_plain_name("store"@),
        is_plain_name("bundled"@),
        is_plain_name("locks"@),
{
    reveal_strlit("packages");
    reveal_strlit("store");
    reveal_strlit("bundled");
    reveal_strlit("locks");
    assert("packages"@.len() == 8 && "store"@.len() == 5 && "bundled"@.len() == 7 && "locks"@.len() == 5);
}

proof fn lemma_library_components(root: Seq<char>, module: BundledModel, target: Seq<char>, hash: Seq<char>)
    requires
        is_plain_name(module.owner),
        is_plain_name(module.name),
        is_plain_name(module.version),
        is_plain_name(module.library),
        is_plain_name(target),
        is_plain_name(hash),
    ensures
        components(child(store_of(root, module, target, hash), module.library)) == components(root) + seq![
            "packages"@,
            "store"@,
            "bundled"@,
            module.owner,
            module.name,
            module.version,
            target,
            hash,
            module.library,
        ],
{
    lemma_fixed_directories();
    let packages = child(root, "packages"@);
    lemma_plain_child(root, "packages"@);
    let stores = child(packages, "store"@);
    lemma_plain_child(packages, "store"@);
    let bundled = child(stores, "bundled"@);
    lemma_plain_child(stores, "bundled"@);
    let owner = child(bundled, module.owner);
    lemma_plain_child(bundled, module.owner);
    let name = child(owner, module.name);
    lemma_plain_child(owner, module.name);
    let version = child(name, module.version);
    lemma_plain_child(name, module.version);
    let place = child(version, target);
    lemma_plain_child(version, target);
    let store = child(place, hash);
    lemma_plain_child(place, hash);
    lemma_plain_child(store, module.library);
    assert(store == store_of(root, module, target, hash));
    let front = components(root);
    assert(components(child(store, module.library)) == front.push("packages"@).push("store"@).push("bundled"@).push(
        module.owner,
    ).push(module.name).push(module.version).push(target).push(hash).push(module.library));
    assert(components(child(store, module.library)) =~= front + seq![
        "packages"@,
        "store"@,
        "bundled"@,
        module.owner,
        module.name,
        module.version,
        target,
        hash,
        module.library,
    ]);
}

proof fn lemma_lock_components(root: Seq<char>, module: BundledModel)
    requires
        is_plain_name(module.owner),
        is_plain_name(module.name),
        is_plain_name(module.version),
    ensures
        components(lock_path_of(root, module)) == components(root) + seq![
            "packages"@,
            "locks"@,
            module.owner,
            module.name,
            module.version + ".toml"@,
        ],
{
    lemma_fixed_directories();
    reveal_strlit(".toml");
    let packages = child(root, "packages"@);
    lemma_plain_child(root, "packages"@);
    let locks = child(packages, "locks"@);
    lemma_plain_child(packages, "locks"@);
    let owner = child(locks, module.owner);
    lemma_plain_child(locks, module.owner);
    let name = child(owner, module.name);
    lemma_plain_child(owner, module.name);
    let file = module.version + ".toml"@;
    assert(is_plain_name(file)) by {
        assert(".toml"@.len() == 5);
        assert(file.len() > 1);
        if file.contains('/') {
            let i = choose|i: int| 0 <= i < file.len() && file[i] == '/';
            if i < module.version.len() {
                assert(module.version[i] == '/');
            } else {
                assert(".toml"@[i - module.version.len()] == '/');
            }
        }
    }
    lemma_plain_child(name, file);
    assert(components(child(name, file)) =~= components(root) + seq![
        "packages"@,
        "locks"@,
        module.owner,
        module.name,
        file,
    ]);
}

/// A library is kept under the packages of the root by whose it is, its name, its
/// version, the target and the digest of its contents, so that libraries with
/// different contents never take each other's place; its lock lies by whose it is,
/// its name and its version.
pub proof fn law_libraries_lie_by_their_digest(installation: InstallModel, module: BundledModel, hash: Seq<char>)
    requires
        0 <= installation.index < installation.modules.len(),
        module == installation.modules[installation.index],
        is_plain_name(module.owner),
        is_plain_name(module.name),
        is_plain_name(module.version),
        is_plain_name(module.library),
        is_plain_name(installation.target),
        is_plain_name(hash),
    ensures
        (InstallModel { stage: StageModel::Copy(hash), ..installation }).action() matches Some(
            ActionModel::CopyLibrary { library, .. },
        ) && components(library) == components(installation.root) + seq![
            "packages"@,
            "store"@,
            "bundled"@,
            module.owner,
            module.name,
            module.version,
            installation.target,
            hash,
            module.library,
        ],
        (InstallModel { stage: StageModel::Lock(hash), ..installation }).action() matches Some(action) ==> (
        action matches ActionModel::WriteLock { path, .. } && components(path) == components(installation.root) + seq![
            "packages"@,
            "locks"@,
            module.owner,
            module.name,
            module.version + ".toml"@,
        ]),
{
    lemma_library_components(installation.root, module, installation.target, hash);
    lemma_lock_components(installation.root, module);
}

/// The modules that come with the application, by the names of their packages.
pub open spec fn comes_along(name: Seq<char>) -> bool {
    ||| name == "adapter-tun"@
    ||| name == "adapter-socks5"@
    ||| name == "adapter-http-connect"@
    ||| name == "adapter-direct"@
    ||| name == "protection-dummy"@
    ||| name == "protection-noise"@
    ||| name == "carrier-tcp"@
    ||| name == "carrier-ssh"@
    ||| name == "policy-dummy"@
    ||| name == "policy-local"@
}

/// A name with its hyphens made underscores.
pub open spec fn underscored(name: Seq<char>) -> Seq<char> {
    name.map_values(
        |c: char|
            if c == '-' {
                '_'
            } else {
                c
            },
    )
}

/// The library of a module that comes with the application is named after its
/// package: with underscores for hyphens, between `libsnolc_` and `.so`. No other
/// module comes along.
pub proof fn law_libraries_are_named_after_their_packages(name: Seq<char>)
    ensures
        library_of(name) is Some <==> comes_along(name),
        library_of(name) matches Some(library) ==> library == "libsnolc_"@ + underscored(name) + ".so"@,
{
    reveal_strlit("libsnolc_");
    reveal_strlit(".so");
    reveal_strlit("adapter-tun");
    reveal_strlit("adapter-socks5");
    reveal_strlit("adapter-http-connect");
    reveal_strlit("adapter-direct");
    reveal_strlit("protection-dummy");
    reveal_strlit("protection-noise");
    reveal_strlit("carrier-tcp");
    reveal_strlit("carrier-ssh");
    reveal_strlit("policy-dummy");
    reveal_strlit("policy-local");
    reveal_strlit("libsnolc_adapter_tun.so");
    reveal_strlit("libsnolc_adapter_socks5.so");
    reveal_strlit("libsnolc_adapter_http_connect.so");
    reveal_strlit("libsnolc_adapter_direct.so");
    reveal_strlit("libsnolc_protection_dummy.so");
    reveal_strlit("libsnolc_protection_noise.so");
    reveal_strlit("libsnolc_carrier_tcp.so");
    reveal_strlit("libsnolc_carrier_ssh.so");
    reveal_strlit("libsnolc_policy_dummy.so");
    reveal_strlit("libsnolc_policy_local.so");
    if let Some(library) = library_of(name) {
        assert(library =~= "libsnolc_"@ + underscored(name) + ".so"@);
    }
}

/// A target is named after the architecture that it is for.
pub proof fn law_targets_are_named_after_architectures(architecture: Seq<char>)
    ensures
        architecture == "aarch64"@ ==> target_of(architecture) == "aarch64-linux-android"@,
        architecture == "arm"@ ==> target_of(architecture) == "armv7-linux-androideabi"@,
        architecture != "aarch64"@ && architecture != "arm"@ ==> target_of(architecture) == "android-test"@,
{
    reveal_strlit("aarch64");
    reveal_strlit("arm");
    assert("aarch64"@.len() == 7 && "arm"@.len() == 3);
}

/// Whether a module that comes with the application is told by its package: its
/// parts, and the library in the directory of the libraries.
pub open spec fn told_by_package(module: BundledModel, native: Seq<char>) -> bool {
    &&& module.package == "owenewans"@ + seq!['/'] + module.name + seq!['@'] + module.version
    &&& module.owner == "owenewans"@
    &&& comes_along(module.name)
    &&& module.library == "libsnolc_"@ + underscored(module.name) + ".so"@
    &&& module.source == child(native, module.library)
}

proof fn lemma_told_by_package(package: Seq<char>, native: Seq<char>)
    ensures
        bundled_of_package(package, native) matches Some(module) ==> module.package == package && told_by_package(
            module,
            native,
        ),
{
    if let Some(module) = bundled_of_package(package, native) {
        lemma_split_at_last(package, '@');
        let (identity, version) = split_at_last(package, '@')->0;
        lemma_split_at_first(identity, '/');
        let (owner, name) = split_at_first(identity, '/')->0;
        assert(package =~= owner + seq!['/'] + name + seq!['@'] + version);
        law_libraries_are_named_after_their_packages(name);
    }
}

proof fn lemma_parts(owner: Seq<char>, name: Seq<char>, version: Seq<char>)
    requires
        is_package(owner + seq!['/'] + name + seq!['@'] + version),
        !owner.contains('/'),
        !name.contains('@'),
        !owner.contains('@'),
    ensures
        package_parts(owner + seq!['/'] + name + seq!['@'] + version) == Some((owner, name, version)),
{
    let package = owner + seq!['/'] + name + seq!['@'] + version;
    lemma_split_at_last(package, '@');
    let (identity, back) = split_at_last(package, '@')->0;
    lemma_split_at_first(identity, '/');
    let (first, second) = split_at_first(identity, '/')->0;
    assert(package_part(first) && package_part(second) && package_version(back));
    let given = owner + seq!['/'] + name;
    assert(package =~= given + seq!['@'] + version);
    assert(package[given.len() as int] == '@');
    assert(package[identity.len() as int] == '@');
    if given.len() < identity.len() {
        let at = given.len() as int;
        assert(identity[at] == '@');
        if at < first.len() {
            assert(first[at] == '@');
        } else if at > first.len() {
            assert(second[at - first.len() - 1] == '@');
        }
    }
    if given.len() > identity.len() {
        assert(back[given.len() - identity.len() - 1] == '@');
    }
    assert(identity =~= given) by {
        assert forall|i: int| 0 <= i < given.len() implies identity[i] == given[i] by {
            assert(package[i] == given[i]);
            assert(package[i] == identity[i]);
        }
    }
    assert(back =~= version) by {
        assert forall|i: int| 0 <= i < version.len() implies back[i] == version[i] by {
            assert(package[given.len() + 1 + i] == version[i]);
        }
    }
    lemma_split_at_first_is(owner, '/', name);
    assert(owner + seq!['/'] + name == given);
}

/// Each module that is installed is told by its package, which a module of the
/// profile has.
pub proof fn law_installed_modules_are_told_by_their_packages(modules: Seq<ModuleModel>, native: Seq<char>)
    ensures
        forall|k: int|
            0 <= k < bundled_modules(modules, native).len() ==> told_by_package(
                #[trigger] bundled_modules(modules, native)[k],
                native,
            ) && exists|i: int|
                0 <= i < modules.len() && (#[trigger] modules[i]).package == bundled_modules(modules, native)[k].package,
    decreases modules.len(),
{
    if modules.len() > 0 {
        let rest = modules.drop_last();
        let last = modules.len() - 1;
        law_installed_modules_are_told_by_their_packages(rest, native);
        let before = bundled_modules(rest, native);
        let after = bundled_modules(modules, native);
        lemma_told_by_package(modules.last().package, native);
        assert forall|k: int| 0 <= k < after.len() implies told_by_package(#[trigger] after[k], native) && exists|i: int|
            0 <= i < modules.len() && (#[trigger] modules[i]).package == after[k].package by {
            if k < before.len() {
                assert(after[k] == before[k]);
                let i = choose|i: int| 0 <= i < rest.len() && (#[trigger] rest[i]).package == before[k].package;
                assert(modules[i].package == after[k].package);
            } else {
                assert(modules[last].package == after[k].package);
            }
        }
    }
}

/// Each package of a profile that comes with the application is installed.
pub proof fn law_known_packages_are_installed(
    modules: Seq<ModuleModel>,
    native: Seq<char>,
    index: int,
    name: Seq<char>,
    version: Seq<char>,
)
    requires
        0 <= index < modules.len(),
        is_package(modules[index].package),
        modules[index].package == "owenewans"@ + seq!['/'] + name + seq!['@'] + version,
        comes_along(name),
    ensures
        exists|k: int|
            0 <= k < bundled_modules(modules, native).len() && (#[trigger] bundled_modules(modules, native)[k]).package
                == modules[index].package && bundled_modules(modules, native)[k].name == name && bundled_modules(
                modules,
                native,
            )[k].version == version,
    decreases modules.len(),
{
    let package = modules[index].package;
    assert(package_parts(package) == Some(("owenewans"@, name, version))) by {
        reveal_strlit("owenewans");
        lemma_no_sign(name);
        lemma_parts("owenewans"@, name, version);
    }
    law_libraries_are_named_after_their_packages(name);
    let rest = modules.drop_last();
    let before = bundled_modules(rest, native);
    let after = bundled_modules(modules, native);
    if exists|i: int| 0 <= i < rest.len() && (#[trigger] rest[i]).package == package {
        let i = choose|i: int| 0 <= i < rest.len() && (#[trigger] rest[i]).package == package;
        law_known_packages_are_installed(rest, native, i, name, version);
        let k = choose|k: int|
            0 <= k < before.len() && (#[trigger] before[k]).package == package && before[k].name == name
                && before[k].version == version;
        assert(after[k] == before[k]);
    } else {
        if index < rest.len() {
            assert(rest[index].package == package);
        }
        assert(after[before.len() as int].package == package);
    }
}

/// The names of the modules that come along have no `@`.
proof fn lemma_no_sign(name: Seq<char>)
    requires
        comes_along(name),
    ensures
        !name.contains('@'),
{
    reveal_strlit("adapter-tun");
    reveal_strlit("adapter-socks5");
    reveal_strlit("adapter-http-connect");
    reveal_strlit("adapter-direct");
    reveal_strlit("protection-dummy");
    reveal_strlit("protection-noise");
    reveal_strlit("carrier-tcp");
    reveal_strlit("carrier-ssh");
    reveal_strlit("policy-dummy");
    reveal_strlit("policy-local");
}

/// A library is told by the digest of its contents in hexadecimal digits: libraries
/// with different digests are told apart.
pub proof fn law_libraries_are_told_by_their_digest(left: Seq<u8>, right: Seq<u8>)
    ensures
        file_hash(left) == file_hash(right) <==> sha256(left) == sha256(right),
        file_hash(left).len() == 2 * sha256(left).len(),
{
    if file_hash(left) == file_hash(right) {
        law_hex_tells_bytes_apart(sha256(left), sha256(right));
    }
}

/// An installation begins with the first module, under the root and for the target
/// that it is told, and installs what the profile has of what comes along.
pub proof fn law_installations_begin_at_the_first_module(
    root: Seq<char>,
    target: Seq<char>,
    profile: ProfileModel,
    native: Seq<char>,
)
    ensures
        ({
            let installation = InstallModel::begun(root, target, profile, native);
            &&& installation.root == root
            &&& installation.target == target
            &&& installation.index == 0
            &&& installation.stage is Directory
            &&& forall|k: int|
                0 <= k < installation.modules.len() ==> told_by_package(#[trigger] installation.modules[k], native)
        }),
{
    law_installed_modules_are_told_by_their_packages(profile.modules, native);
}

/// An installation begins with the directory of the packages, for its user alone,
/// and goes on with one module after the other, from the library that came along to
/// its lock. It ends once each is installed, and it ends with an error where a library
/// did not come along, or another one is in its place.
pub proof fn law_installations_go_from_module_to_module(installation: InstallModel, contents: Option<Seq<u8>>)
    requires
        0 <= installation.index,
    ensures
        installation.stage is Directory ==> installation.action() == Some(
            ActionModel::MakeDirectory { path: child(installation.root, "packages"@), mode: 0o700 },
        ) && installation.after_write() == (InstallModel { stage: StageModel::Source, ..installation }),
        !(installation.stage is Directory) ==> (installation.action() == Some(ActionModel::Finished)
            <==> installation.index >= installation.modules.len()),
        installation.stage is Source && installation.index < installation.modules.len() ==> installation.action() == Some(
            ActionModel::ReadSource(installation.modules[installation.index].source),
        ),
        installation.stage is Lock && installation.index < installation.modules.len() ==> installation.after_write() == (
        InstallModel { index: installation.index + 1, stage: StageModel::Source, ..installation }),
        installation.stage is Source ==> match contents {
            Some(contents) => installation.after_read(Some(contents)) == Ok::<InstallModel, ErrorModel>(
                InstallModel { stage: StageModel::Library(file_hash(contents)), ..installation },
            ),
            None => installation.after_read(None) == Err::<InstallModel, ErrorModel>(ErrorModel::BundledModule),
        },
        installation.stage matches StageModel::Library(hash) ==> match contents {
            Some(contents) => installation.after_read(Some(contents)) == if file_hash(contents) == hash {
                Ok::<InstallModel, ErrorModel>(InstallModel { stage: StageModel::Lock(hash), ..installation })
            } else {
                Err(ErrorModel::BundledModule)
            },
            None => installation.after_read(None) == Ok::<InstallModel, ErrorModel>(
                InstallModel { stage: StageModel::Copy(hash), ..installation },
            ),
        },
{
}

}
