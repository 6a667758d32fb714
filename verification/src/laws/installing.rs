//! Installing the modules that come with the application.
use vstd::prelude::*;
use vstd::utf8::*;

use crate::codec::sha256;
use crate::document::toml_text;
use crate::error::ErrorModel;
use crate::install::{
    bundled_modules, bundled_of_package, file_hash, library_of, lock_entries, lock_path_of, package_among,
    packages_under, store_of, target_of, ActionModel, BundledModel, InstallModel, StageModel,
};
use crate::paths::{absolute, child, lemma_child_within, lemma_within_itself, within};
use crate::profile::{is_package, package_char, package_parts, valid_module, ModuleModel, ProfileModel};
use crate::text::{
    hex_digit, lemma_split_at_first, lemma_split_at_first_is, lemma_split_at_last, split_at_last,
};
use crate::value::canonical_entries;

verus! {

/// The lock of a module is written only once its library is in the store under the
/// digest of the library that came with the application: it was copied there, or
/// what was there has that digest.
pub proof fn law_locks_follow_matching_libraries(
    installation: InstallModel,
    contents: Option<Seq<u8>>,
    hash: Seq<char>,
)
    ensures
        installation.after_read(contents) matches Ok(after) ==> after.stage == StageModel::Lock(hash)
            ==> installation.stage == StageModel::Library(hash) && (contents matches Some(contents)
            && file_hash(contents) == hash),
        installation.after_read(contents) matches Ok(after) ==> after.stage == StageModel::Copy(hash)
            ==> installation.stage == StageModel::Library(hash) && contents is None,
        installation.after_read(contents) matches Ok(after) ==> after.stage == StageModel::Library(hash)
            ==> installation.stage == StageModel::Source && (contents matches Some(contents) && file_hash(contents)
            == hash),
        installation.after_write().stage == StageModel::Lock(hash) && installation.after_write() != installation
            ==> installation.stage == StageModel::Copy(hash),
{
}

/// Each package is installed at most once.
pub proof fn law_packages_are_installed_once(modules: Seq<ModuleModel>, native: Seq<char>)
    ensures
        forall|i: int, j: int|
            0 <= i < j < bundled_modules(modules, native).len() ==> (#[trigger] bundled_modules(
                modules,
                native,
            )[i]).package != (#[trigger] bundled_modules(modules, native)[j]).package,
        forall|i: int|
            0 <= i < bundled_modules(modules, native).len() ==> package_among(
                modules,
                (#[trigger] bundled_modules(modules, native)[i]).package,
            ),
    decreases modules.len(),
{
    if modules.len() > 0 {
        let rest = modules.drop_last();
        let last = modules.len() - 1;
        law_packages_are_installed_once(rest, native);
        let before = bundled_modules(rest, native);
        let after = bundled_modules(modules, native);
        assert forall|i: int| 0 <= i < after.len() implies package_among(modules, (#[trigger] after[i]).package) by {
            if i < before.len() {
                assert(after[i] == before[i]);
                let k = choose|k: int| 0 <= k < rest.len() && (#[trigger] rest[k]).package == before[i].package;
                assert(modules[k].package == after[i].package);
            } else {
                assert(modules[last].package == after[i].package);
            }
        }
        assert forall|i: int, j: int| 0 <= i < j < after.len() implies (#[trigger] after[i]).package != (
        #[trigger] after[j]).package by {
            assert(after[i] == before[i]);
            if j < before.len() {
                assert(after[j] == before[j]);
            } else {
                assert(package_among(rest, before[i].package));
            }
        }
    }
}

/// A module that comes with the application is stored, and locked, in the
/// directory of the packages.
proof fn lemma_module_stays_among_packages(
    root: Seq<char>,
    module: BundledModel,
    target: Seq<char>,
    hash: Seq<char>,
)
    requires
        absolute(root),
        !module.owner.contains('/'),
        !module.name.contains('/'),
        !module.version.contains('/'),
        !module.library.contains('/'),
        !target.contains('/'),
        !hash.contains('/'),
    ensures
        within(child(store_of(root, module, target, hash), module.library), packages_under(root)),
        within(lock_path_of(root, module), packages_under(root)),
{
    let packages = packages_under(root);
    reveal_strlit("packages");
    reveal_strlit("store");
    reveal_strlit("bundled");
    reveal_strlit("locks");
    reveal_strlit(".toml");
    lemma_within_itself(root);
    lemma_child_within(root, "packages"@, root);
    lemma_within_itself(packages);
    let store = child(packages, "store"@);
    lemma_child_within(packages, "store"@, packages);
    let bundled = child(store, "bundled"@);
    lemma_child_within(store, "bundled"@, packages);
    let owner = child(bundled, module.owner);
    lemma_child_within(bundled, module.owner, packages);
    let name = child(owner, module.name);
    lemma_child_within(owner, module.name, packages);
    let version = child(name, module.version);
    lemma_child_within(name, module.version, packages);
    let place = child(version, target);
    lemma_child_within(version, target, packages);
    lemma_child_within(place, hash, packages);
    lemma_child_within(child(place, hash), module.library, packages);
    let locks = child(packages, "locks"@);
    lemma_child_within(packages, "locks"@, packages);
    lemma_child_within(locks, module.owner, packages);
    lemma_child_within(child(locks, module.owner), module.name, packages);
    let file = module.version + ".toml"@;
    assert(!file.contains('/')) by {
        if file.contains('/') {
            let i = choose|i: int| 0 <= i < file.len() && file[i] == '/';
            if i < module.version.len() {
                assert(module.version[i] == '/');
            } else {
                assert(".toml"@[i - module.version.len()] == '/');
            }
        }
    }
    lemma_child_within(child(child(locks, module.owner), module.name), file, packages);
}

/// The parts of a package have no slash.
proof fn lemma_package_parts(package: Seq<char>)
    requires
        is_package(package),
    ensures
        package_parts(package) matches Some((owner, name, version)) && !owner.contains('/') && !name.contains('/')
            && !version.contains('/'),
{
    let (owner, name, version) = package_parts(package)->0;
    if owner.contains('/') {
        let i = choose|i: int| 0 <= i < owner.len() && owner[i] == '/';
        assert(package_char(owner[i]));
    }
    if name.contains('/') {
        let i = choose|i: int| 0 <= i < name.len() && name[i] == '/';
        assert(package_char(name[i]));
    }
    if version.contains('/') {
        let i = choose|i: int| 0 <= i < version.len() && version[i] == '/';
        assert(package_char(version[i]) || version[i] == '+');
    }
}

/// A library that comes with the application, and a target, have no slash in their
/// names.
proof fn lemma_library_names(name: Seq<char>, architecture: Seq<char>)
    ensures
        library_of(name) matches Some(library) ==> !library.contains('/'),
        !target_of(architecture).contains('/'),
{
    reveal_strlit("libsnolc_adapter_tun.so");
    reveal_strlit("libsnolc_adapter_socks5.so");
    reveal_strlit("libsnolc_adapter_http_connect.so");
    reveal_strlit("libsnolc_adapter_direct.so");
    reveal_strlit("libsnolc_protection_dummy.so");
    reveal_strlit("libsnolc_protection_noise.so");
    reveal_strlit("libsnolc_carrier_tcp.so");
    reveal_strlit("libsnolc_carrier_ssh.so");
    reveal_strlit("libsnolc_policy_dummy.so");
    reveal_strlit("libsnolc_policy_local.so");
    reveal_strlit("aarch64-linux-android");
    reveal_strlit("armv7-linux-androideabi");
    reveal_strlit("android-test");
}

/// A digest in hexadecimal digits has no slash.
proof fn lemma_hash_has_no_slash(contents: Seq<u8>)
    ensures
        !file_hash(contents).contains('/'),
{
    let hash = file_hash(contents);
    let bytes = sha256(contents);
    if hash.contains('/') {
        let i = choose|i: int| 0 <= i < hash.len() && hash[i] == '/';
        let byte = bytes[i / 2] as int;
        let digit = if i % 2 == 0 {
            byte / 16
        } else {
            byte % 16
        };
        assert(0 <= digit < 16);
        assert(hash[i] == hex_digit(digit));
        assert(hex_digit(digit) as int == if digit < 10 { 48 + digit } else { 87 + digit });
    }
}

/// Each module that is installed is that of a package of the profile.
proof fn lemma_bundled_members(modules: Seq<ModuleModel>, native: Seq<char>)
    ensures
        forall|i: int|
            0 <= i < bundled_modules(modules, native).len() ==> exists|k: int|
                0 <= k < modules.len() && bundled_of_package((#[trigger] modules[k]).package, native) == Some(
                    #[trigger] bundled_modules(modules, native)[i],
                ),
    decreases modules.len(),
{
    if modules.len() > 0 {
        let rest = modules.drop_last();
        let last = modules.len() - 1;
        lemma_bundled_members(rest, native);
        let before = bundled_modules(rest, native);
        let after = bundled_modules(modules, native);
        assert forall|i: int| 0 <= i < after.len() implies exists|k: int|
            0 <= k < modules.len() && bundled_of_package((#[trigger] modules[k]).package, native) == Some(
                #[trigger] after[i],
            ) by {
            if i < before.len() {
                assert(after[i] == before[i]);
                let k = choose|k: int|
                    0 <= k < rest.len() && bundled_of_package((#[trigger] rest[k]).package, native) == Some(before[i]);
                assert(modules[k] == rest[k]);
            } else {
                assert(bundled_of_package(modules[last].package, native) == Some(after[i]));
            }
        }
    }
}

/// A module that comes with the application is stored, and locked, in the
/// directory of the packages under the root, whatever the profile says.
pub proof fn law_bundled_modules_stay_among_packages(
    profile: ProfileModel,
    root: Seq<char>,
    native: Seq<char>,
    architecture: Seq<char>,
    contents: Seq<u8>,
    index: int,
)
    requires
        profile.valid(),
        absolute(root),
        0 <= index < bundled_modules(profile.modules, native).len(),
    ensures
        ({
            let module = bundled_modules(profile.modules, native)[index];
            let store = store_of(root, module, target_of(architecture), file_hash(contents));
            &&& within(child(store, module.library), packages_under(root))
            &&& within(lock_path_of(root, module), packages_under(root))
        }),
{
    let modules = profile.modules;
    let module = bundled_modules(modules, native)[index];
    lemma_bundled_members(modules, native);
    let k = choose|k: int|
        0 <= k < modules.len() && bundled_of_package((#[trigger] modules[k]).package, native) == Some(module);
    assert(valid_module(modules[k]));
    lemma_package_parts(modules[k].package);
    lemma_library_names(module.name, architecture);
    lemma_hash_has_no_slash(contents);
    lemma_module_stays_among_packages(root, module, target_of(architecture), file_hash(contents));
}

/// Files, by their paths.
pub type Files = Map<Seq<char>, Seq<u8>>;

/// What is read of a file, if it is there.
pub open spec fn read_of(files: Files, path: Seq<char>) -> Option<Seq<u8>> {
    if files.dom().contains(path) {
        Some(files[path])
    } else {
        None
    }
}

/// How many steps more a module takes at most.
pub open spec fn steps_left(stage: StageModel) -> nat {
    match stage {
        StageModel::Directory => 4,
        StageModel::Source => 3,
        StageModel::Library(_) => 2,
        StageModel::Copy(_) => 1,
        StageModel::Lock(_) => 0,
    }
}

/// The files after an installation was taken to its end, where each file that is to be
/// read, copied or written can be, or why it was not.
pub open spec fn installed(installation: InstallModel, files: Files) -> Result<Files, ErrorModel>
    decreases installation.modules.len() - installation.index, steps_left(installation.stage),
{
    if !(installation.stage is Directory) && !(0 <= installation.index < installation.modules.len()) {
        Ok(files)
    } else {
        match installation.action() {
            Some(ActionModel::ReadSource(path)) => match installation.after_read(read_of(files, path)) {
                Ok(after) => installed(after, files),
                Err(error) => Err(error),
            },
            Some(ActionModel::ReadLibrary(path)) => match installation.after_read(read_of(files, path)) {
                Ok(after) => installed(after, files),
                Err(error) => Err(error),
            },
            Some(ActionModel::CopyLibrary { source, library, mode }) => installed(
                installation.after_write(),
                files.insert(library, files[source]),
            ),
            Some(ActionModel::WriteLock { path, contents, mode }) => installed(
                installation.after_write(),
                files.insert(path, encode_utf8(contents)),
            ),
            Some(ActionModel::Finished) => Ok(files),
            Some(ActionModel::MakeDirectory { path, mode }) => installed(installation.after_write(), files),
            None => Err(ErrorModel::BundledModule),
        }
    }
}

/// The text of the lock of a module.
spec fn lock_text(installation: InstallModel, hash: Seq<char>) -> Result<Seq<char>, Seq<char>> {
    let module = installation.modules[installation.index];
    let store = store_of(installation.root, module, installation.target, hash);
    toml_text(canonical_entries(lock_entries(module, installation.target, hash, store)))
}

/// The files after one module was installed.
spec fn module_installed(installation: InstallModel, files: Files) -> Result<Files, ErrorModel> {
    let module = installation.modules[installation.index];
    match read_of(files, module.source) {
        Some(contents) => {
            let hash = file_hash(contents);
            let library = installation.library(hash);
            let stored = match read_of(files, library) {
                Some(found) => if file_hash(found) == hash {
                    Some(files)
                } else {
                    None
                },
                None => Some(files.insert(library, contents)),
            };
            match (stored, lock_text(installation, hash)) {
                (Some(stored), Ok(text)) => Ok(
                    stored.insert(lock_path_of(installation.root, module), encode_utf8(text)),
                ),
                _ => Err(ErrorModel::BundledModule),
            }
        },
        None => Err(ErrorModel::BundledModule),
    }
}

/// An installation of a module at the beginning.
spec fn at_module(installation: InstallModel, index: int) -> InstallModel {
    InstallModel { index, stage: StageModel::Source, ..installation }
}

/// An installation installs one module after the other.
proof fn lemma_installed_module(installation: InstallModel, index: int, files: Files)
    requires
        0 <= index < installation.modules.len(),
    ensures
        match module_installed(at_module(installation, index), files) {
            Ok(after) => installed(at_module(installation, index), files) == installed(
                at_module(installation, index + 1),
                after,
            ),
            Err(_) => installed(at_module(installation, index), files) is Err,
        },
{
    reveal_with_fuel(installed, 5);
    let begun = at_module(installation, index);
    let module = begun.modules[index];
    if let Some(contents) = read_of(files, module.source) {
        let hash = file_hash(contents);
        let reading = InstallModel { stage: StageModel::Library(hash), ..begun };
        assert(begun.after_read(Some(contents)) == Ok::<InstallModel, ErrorModel>(reading));
        assert(installed(begun, files) == installed(reading, files));
        let library = begun.library(hash);
        assert(reading.library(hash) == library);
        let locking = InstallModel { stage: StageModel::Lock(hash), ..begun };
        assert(locking.after_write() == at_module(installation, index + 1));
        match read_of(files, library) {
            Some(found) => {
                if file_hash(found) == hash {
                    assert(reading.after_read(Some(found)) == Ok::<InstallModel, ErrorModel>(locking));
                    assert(installed(reading, files) == installed(locking, files));
                }
            },
            None => {
                let copying = InstallModel { stage: StageModel::Copy(hash), ..begun };
                assert(reading.after_read(None) == Ok::<InstallModel, ErrorModel>(copying));
                assert(copying.after_write() == locking);
                assert(installed(copying, files) == installed(locking, files.insert(library, contents)));
            },
        }
    }
}

/// Whether a module is installed: its library is in the store under its digest, and its
/// lock says so.
spec fn in_place(installation: InstallModel, index: int, files: Files) -> bool {
    let begun = at_module(installation, index);
    let module = installation.modules[index];
    let hash = file_hash(files[module.source]);
    &&& files.dom().contains(module.source)
    &&& files.dom().contains(begun.library(hash))
    &&& file_hash(files[begun.library(hash)]) == hash
    &&& files.dom().contains(lock_path_of(installation.root, module))
    &&& lock_text(begun, hash) matches Ok(text) && files[lock_path_of(installation.root, module)] == encode_utf8(text)
}

/// Whether a module is one that comes with the application, as it is known from its
/// package.
spec fn genuine(module: BundledModel, native: Seq<char>) -> bool {
    &&& module.owner == "owenewans"@
    &&& module.name.len() > 0
    &&& !module.name.contains('/')
    &&& module.package == module.owner + seq!['/'] + module.name + seq!['@'] + module.version
    &&& module.library.len() > 0
    &&& module.library.last() == 'o'
    &&& module.source == child(native, module.library)
}

/// The path of an entry of a directory ends as the name of the entry does.
proof fn lemma_child_last(directory: Seq<char>, name: Seq<char>)
    requires
        name.len() > 0,
    ensures
        child(directory, name).len() > 0,
        child(directory, name).last() == name.last(),
{
}

/// The lock of a module is neither its library nor that of another, nor where one comes
/// from.
proof fn lemma_lock_is_no_library(
    installation: InstallModel,
    locked: BundledModel,
    index: int,
    hash: Seq<char>,
    native: Seq<char>,
)
    requires
        genuine(installation.modules[index], native),
    ensures
        lock_path_of(installation.root, locked) != at_module(installation, index).library(hash),
        lock_path_of(installation.root, locked) != installation.modules[index].source,
{
    let module = installation.modules[index];
    reveal_strlit(".toml");
    let name = locked.version + ".toml"@;
    assert(name.last() == 'l');
    let locks = child(child(child(packages_under(installation.root), "locks"@), locked.owner), locked.name);
    lemma_child_last(locks, name);
    lemma_child_last(store_of(installation.root, module, installation.target, hash), module.library);
    lemma_child_last(native, module.library);
}

/// Modules of different packages have different locks.
proof fn lemma_locks_differ(root: Seq<char>, left: BundledModel, right: BundledModel, native: Seq<char>)
    requires
        genuine(left, native),
        genuine(right, native),
        lock_path_of(root, left) == lock_path_of(root, right),
    ensures
        left.package == right.package,
{
    reveal_strlit("owenewans");
    let locks = child(packages_under(root), "locks"@);
    let owner = child(locks, "owenewans"@);
    lemma_child_last(locks, "owenewans"@);
    let slash = seq!['/'];
    let left_rest = left.name + slash + (left.version + ".toml"@);
    let right_rest = right.name + slash + (right.version + ".toml"@);
    assert(left.name.last() != '/') by {
        assert(left.name[left.name.len() - 1] == left.name.last());
    }
    assert(right.name.last() != '/') by {
        assert(right.name[right.name.len() - 1] == right.name.last());
    }
    lemma_child_last(owner, left.name);
    lemma_child_last(owner, right.name);
    assert(lock_path_of(root, left) =~= owner + slash + left_rest);
    assert(lock_path_of(root, right) =~= owner + slash + right_rest);
    let skipped = (owner.len() + 1) as int;
    assert((owner + slash + left_rest).skip(skipped) =~= left_rest);
    assert((owner + slash + right_rest).skip(skipped) =~= right_rest);
    assert(left_rest == right_rest);
    assert forall|i: int| 0 <= i < left.name.len() implies left.name[i] != '/' by {
        assert(left.name.contains(left.name[i]));
    }
    assert forall|i: int| 0 <= i < right.name.len() implies right.name[i] != '/' by {
        assert(right.name.contains(right.name[i]));
    }
    lemma_split_at_first_is(left.name, '/', left.version + ".toml"@);
    lemma_split_at_first_is(right.name, '/', right.version + ".toml"@);
    assert(left.version + ".toml"@ == right.version + ".toml"@);
    assert((left.version + ".toml"@).take(left.version.len() as int) =~= left.version);
    assert((right.version + ".toml"@).take(right.version.len() as int) =~= right.version);
}

/// A module that was installed is in place, and what was in place stays there.
proof fn lemma_module_in_place(installation: InstallModel, index: int, files: Files, native: Seq<char>)
    requires
        0 <= index < installation.modules.len(),
        forall|i: int| 0 <= i < installation.modules.len() ==> genuine(#[trigger] installation.modules[i], native),
        forall|i: int, j: int|
            0 <= i < j < installation.modules.len() ==> (#[trigger] installation.modules[i]).package != (
            #[trigger] installation.modules[j]).package,
        forall|i: int| 0 <= i < index ==> #[trigger] in_place(installation, i, files),
    ensures
        module_installed(at_module(installation, index), files) matches Ok(after) ==> forall|i: int|
            0 <= i <= index ==> #[trigger] in_place(installation, i, after),
{
    let begun = at_module(installation, index);
    let module = installation.modules[index];
    if let Ok(after) = module_installed(begun, files) {
        let contents = files[module.source];
        let hash = file_hash(contents);
        let library = begun.library(hash);
        let lock = lock_path_of(installation.root, module);
        assert forall|i: int| 0 <= i <= index implies #[trigger] in_place(installation, i, after) by {
            let other = installation.modules[i];
            assert(genuine(other, native));
            let other_begun = at_module(installation, i);
            let other_hash = file_hash(files[other.source]);
            lemma_lock_is_no_library(installation, module, i, other_hash, native);
            assert(files.dom().contains(other.source)) by {
                assert(i < index ==> in_place(installation, i, files));
                assert(read_of(files, module.source) is Some);
            }
            assert(after.dom().contains(other.source) && after[other.source] == files[other.source]);
            if i < index {
                assert(in_place(installation, i, files));
                if lock_path_of(installation.root, other) == lock {
                    lemma_locks_differ(installation.root, other, module, native);
                }
            }
        }
    }
}

/// A module that is in place is installed without a change.
proof fn lemma_in_place_stays(installation: InstallModel, index: int, files: Files)
    requires
        0 <= index < installation.modules.len(),
        in_place(installation, index, files),
    ensures
        module_installed(at_module(installation, index), files) == Ok::<Files, ErrorModel>(files),
{
    let begun = at_module(installation, index);
    let module = installation.modules[index];
    let hash = file_hash(files[module.source]);
    let lock = lock_path_of(installation.root, module);
    let text = lock_text(begun, hash)->Ok_0;
    assert(files.insert(lock, encode_utf8(text)) =~= files);
}

/// Once each module was installed, each is in place.
proof fn lemma_all_in_place(installation: InstallModel, index: int, files: Files, native: Seq<char>)
    requires
        0 <= index <= installation.modules.len(),
        forall|i: int| 0 <= i < installation.modules.len() ==> genuine(#[trigger] installation.modules[i], native),
        forall|i: int, j: int|
            0 <= i < j < installation.modules.len() ==> (#[trigger] installation.modules[i]).package != (
            #[trigger] installation.modules[j]).package,
        forall|i: int| 0 <= i < index ==> #[trigger] in_place(installation, i, files),
    ensures
        installed(at_module(installation, index), files) matches Ok(after) ==> forall|i: int|
            0 <= i < installation.modules.len() ==> #[trigger] in_place(installation, i, after),
    decreases installation.modules.len() - index,
{
    if index < installation.modules.len() {
        lemma_installed_module(installation, index, files);
        lemma_module_in_place(installation, index, files, native);
        if let Ok(after) = module_installed(at_module(installation, index), files) {
            lemma_all_in_place(installation, index + 1, after, native);
        }
    }
}

/// Where each module is in place, an installation changes nothing.
proof fn lemma_nothing_to_install(installation: InstallModel, index: int, files: Files)
    requires
        0 <= index <= installation.modules.len(),
        forall|i: int| 0 <= i < installation.modules.len() ==> #[trigger] in_place(installation, i, files),
    ensures
        installed(at_module(installation, index), files) == Ok::<Files, ErrorModel>(files),
    decreases installation.modules.len() - index,
{
    if index < installation.modules.len() {
        assert(in_place(installation, index, files));
        lemma_in_place_stays(installation, index, files);
        lemma_installed_module(installation, index, files);
        lemma_nothing_to_install(installation, index + 1, files);
    }
}

/// The modules that are installed for a valid profile are known from their packages.
proof fn lemma_bundled_genuine(profile: ProfileModel, native: Seq<char>)
    requires
        profile.valid(),
    ensures
        forall|i: int|
            0 <= i < bundled_modules(profile.modules, native).len() ==> genuine(
                #[trigger] bundled_modules(profile.modules, native)[i],
                native,
            ),
{
    let modules = profile.modules;
    let bundled = bundled_modules(modules, native);
    lemma_bundled_members(modules, native);
    assert forall|i: int| 0 <= i < bundled.len() implies genuine(#[trigger] bundled[i], native) by {
        let module = bundled[i];
        let k = choose|k: int|
            0 <= k < modules.len() && bundled_of_package((#[trigger] modules[k]).package, native) == Some(module);
        assert(valid_module(modules[k]));
        let package = modules[k].package;
        lemma_package_parts(package);
        lemma_library_names(module.name, "arm"@);
        lemma_library_ends(module.name);
        lemma_split_at_last(package, '@');
        let (identity, version) = split_at_last(package, '@')->0;
        lemma_split_at_first(identity, '/');
        assert(package =~= module.owner + seq!['/'] + module.name + seq!['@'] + module.version);
    }
}

/// The name of a library that comes with the application ends in `o`.
proof fn lemma_library_ends(name: Seq<char>)
    ensures
        library_of(name) matches Some(library) ==> library.len() > 0 && library.last() == 'o',
{
    reveal_strlit("libsnolc_adapter_tun.so");
    reveal_strlit("libsnolc_adapter_socks5.so");
    reveal_strlit("libsnolc_adapter_http_connect.so");
    reveal_strlit("libsnolc_adapter_direct.so");
    reveal_strlit("libsnolc_protection_dummy.so");
    reveal_strlit("libsnolc_protection_noise.so");
    reveal_strlit("libsnolc_carrier_tcp.so");
    reveal_strlit("libsnolc_carrier_ssh.so");
    reveal_strlit("libsnolc_policy_dummy.so");
    reveal_strlit("libsnolc_policy_local.so");
}

/// A second installation over the files that a first one left succeeds and leaves the
/// same files: libraries that are there are used again, and the locks are written as
/// they were.
pub proof fn law_second_installation_changes_nothing(
    profile: ProfileModel,
    root: Seq<char>,
    native: Seq<char>,
    target: Seq<char>,
    files: Files,
)
    requires
        profile.valid(),
    ensures
        ({
            let installation = InstallModel {
                root,
                target,
                modules: bundled_modules(profile.modules, native),
                index: 0,
                stage: StageModel::Directory,
            };
            installed(installation, files) matches Ok(after) ==> installed(installation, after) == Ok::<
                Files,
                ErrorModel,
            >(after)
        }),
{
    let installation = InstallModel {
        root,
        target,
        modules: bundled_modules(profile.modules, native),
        index: 0,
        stage: StageModel::Directory,
    };
    assert(at_module(installation, 0) == installation.after_write());
    law_packages_are_installed_once(profile.modules, native);
    lemma_bundled_genuine(profile, native);
    if let Ok(after) = installed(installation, files) {
        lemma_all_in_place(installation, 0, files, native);
        lemma_nothing_to_install(installation, 0, after);
    }
}

}
