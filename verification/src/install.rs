//! Installing the modules that come with the application.
use vstd::prelude::*;

use crate::codec::{digest, sha256};
use crate::config::{lemma_table_of, text_option};
use crate::deploy::{PRIVATE_DIRECTORY, PRIVATE_FILE, READ_ONLY_FILE};
use crate::document::{
    document_fits, lemma_nested_canonical, lemma_shallow_fits, lemma_table_nested, nested_within, print_table,
    reads_back, toml_text, MAX_DEPTH,
};
use crate::error::{ErrorModel, ProfileError};
use crate::paths::{absolute, child, child_path, is_absolute};
use crate::profile::{module_models, package_parts, split_package, ModuleModel, Profile, ProfileModel, ProfileModule};
use crate::text::{encode_hex, hex_text, join, same};
use crate::tree::toml_document;
use crate::value::{canonical, canonical_entries, pair_models, table_of, OptionValue, ValueModel};

verus! {

/// The library of a module that comes with the application.
pub open spec fn library_of(name: Seq<char>) -> Option<Seq<char>> {
    if name == "adapter-tun"@ {
        Some("libsnolc_adapter_tun.so"@)
    } else if name == "adapter-socks5"@ {
        Some("libsnolc_adapter_socks5.so"@)
    } else if name == "adapter-http-connect"@ {
        Some("libsnolc_adapter_http_connect.so"@)
    } else if name == "adapter-direct"@ {
        Some("libsnolc_adapter_direct.so"@)
    } else if name == "protection-dummy"@ {
        Some("libsnolc_protection_dummy.so"@)
    } else if name == "protection-noise"@ {
        Some("libsnolc_protection_noise.so"@)
    } else if name == "carrier-tcp"@ {
        Some("libsnolc_carrier_tcp.so"@)
    } else if name == "carrier-ssh"@ {
        Some("libsnolc_carrier_ssh.so"@)
    } else if name == "policy-dummy"@ {
        Some("libsnolc_policy_dummy.so"@)
    } else if name == "policy-local"@ {
        Some("libsnolc_policy_local.so"@)
    } else {
        None
    }
}

/// The library of a module that comes with the application.
pub fn bundled_library_name(package: &str) -> (library: Option<&'static str>)
    ensures
        match library {
            Some(library) => library_of(package@) == Some(library@),
            None => library_of(package@) is None,
        },
{
    if same(package, "adapter-tun") {
        Some("libsnolc_adapter_tun.so")
    } else if same(package, "adapter-socks5") {
        Some("libsnolc_adapter_socks5.so")
    } else if same(package, "adapter-http-connect") {
        Some("libsnolc_adapter_http_connect.so")
    } else if same(package, "adapter-direct") {
        Some("libsnolc_adapter_direct.so")
    } else if same(package, "protection-dummy") {
        Some("libsnolc_protection_dummy.so")
    } else if same(package, "protection-noise") {
        Some("libsnolc_protection_noise.so")
    } else if same(package, "carrier-tcp") {
        Some("libsnolc_carrier_tcp.so")
    } else if same(package, "carrier-ssh") {
        Some("libsnolc_carrier_ssh.so")
    } else if same(package, "policy-dummy") {
        Some("libsnolc_policy_dummy.so")
    } else if same(package, "policy-local") {
        Some("libsnolc_policy_local.so")
    } else {
        None
    }
}

/// The name of the target that libraries are built for, by the architecture of
/// the processor.
pub open spec fn target_of(architecture: Seq<char>) -> Seq<char> {
    if architecture == "aarch64"@ {
        "aarch64-linux-android"@
    } else if architecture == "arm"@ {
        "armv7-linux-androideabi"@
    } else {
        "android-test"@
    }
}

/// The name of the target that libraries are built for.
pub fn android_target(architecture: &str) -> (target: &'static str)
    ensures
        target@ == target_of(architecture@),
{
    if same(architecture, "aarch64") {
        "aarch64-linux-android"
    } else if same(architecture, "arm") {
        "armv7-linux-androideabi"
    } else {
        "android-test"
    }
}

/// A module that comes with the application.
#[derive(Debug, PartialEq, Eq)]
pub struct BundledModule {
    pub package: String,
    pub owner: String,
    pub name: String,
    pub version: String,
    pub library: String,
    pub source: String,
}

/// The model of [`BundledModule`].
pub struct BundledModel {
    pub package: Seq<char>,
    pub owner: Seq<char>,
    pub name: Seq<char>,
    pub version: Seq<char>,
    pub library: Seq<char>,
    pub source: Seq<char>,
}

impl BundledModule {
    pub open spec fn view(&self) -> BundledModel {
        BundledModel {
            package: self.package@,
            owner: self.owner@,
            name: self.name@,
            version: self.version@,
            library: self.library@,
            source: self.source@,
        }
    }
}

/// The models of modules that come with the application.
pub open spec fn bundled_models(modules: Seq<BundledModule>) -> Seq<BundledModel> {
    modules.map_values(|module: BundledModule| module@)
}

/// Whether a package stands among modules.
pub open spec fn package_among(modules: Seq<ModuleModel>, package: Seq<char>) -> bool {
    exists|i: int| 0 <= i < modules.len() && (#[trigger] modules[i]).package == package
}

/// The module that comes with the application for a package, if one does.
pub open spec fn bundled_of_package(package: Seq<char>, native: Seq<char>) -> Option<BundledModel> {
    match package_parts(package) {
        Some((owner, name, version)) => match library_of(name) {
            Some(library) => if owner == "owenewans"@ {
                Some(BundledModel { package, owner, name, version, library, source: child(native, library) })
            } else {
                None
            },
            None => None,
        },
        None => None,
    }
}

/// The modules of a profile that come with the application, each package once.
pub open spec fn bundled_modules(modules: Seq<ModuleModel>, native: Seq<char>) -> Seq<BundledModel>
    decreases modules.len(),
{
    if modules.len() == 0 {
        Seq::empty()
    } else {
        let before = bundled_modules(modules.drop_last(), native);
        if package_among(modules.drop_last(), modules.last().package) {
            before
        } else {
            match bundled_of_package(modules.last().package, native) {
                Some(module) => before.push(module),
                None => before,
            }
        }
    }
}

/// Tells whether a package stands among the first modules.
fn package_seen(modules: &Vec<ProfileModule>, count: usize, package: &str) -> (seen: bool)
    requires
        count <= modules@.len(),
    ensures
        seen == package_among(module_models(modules@).take(count as int), package@),
{
    let ghost model = module_models(modules@).take(count as int);
    let mut i: usize = 0;
    while i < count
        invariant
            i <= count <= modules@.len(),
            model == module_models(modules@).take(count as int),
            forall|j: int| 0 <= j < i ==> (#[trigger] model[j]).package != package@,
        decreases count - i,
    {
        if same(&modules[i].package, package) {
            assert(model[i as int].package == package@);
            return true;
        }
        assert(model[i as int].package != package@);
        i = i + 1;
    }
    false
}

/// The module that comes with the application for a package.
fn find_bundled(package: &str, native: &str) -> (module: Option<BundledModule>)
    ensures
        match module {
            Some(module) => bundled_of_package(package@, native@) == Some(module@),
            None => bundled_of_package(package@, native@) is None,
        },
{
    match split_package(package) {
        Some((owner, name, version)) => {
            if !same(&owner, "owenewans") {
                return None;
            }
            match bundled_library_name(&name) {
                Some(library) => Some(
                    BundledModule {
                        package: package.to_owned(),
                        owner,
                        name,
                        version,
                        library: library.to_owned(),
                        source: child_path(native, library),
                    },
                ),
                None => None,
            }
        },
        None => None,
    }
}

/// Begins to install the modules of a profile that come with the application, by
/// the name of the target that their libraries are built for.
pub fn install_bundled_modules(
    profile: &Profile,
    root: &str,
    native_library_directory: &str,
    target: &str,
) -> (result: Result<Installation, ProfileError>)
    ensures
        result is Ok <==> profile@.valid() && absolute(root@) && absolute(native_library_directory@),
        result matches Ok(installation) ==> installation@ == (InstallModel {
            root: root@,
            target: target@,
            modules: bundled_modules(profile@.modules, native_library_directory@),
            index: 0,
            stage: StageModel::Directory,
        }),
        result matches Ok(installation) ==> installation@ == InstallModel::begun(
            root@,
            target@,
            profile@,
            native_library_directory@,
        ),
        result matches Err(error) ==> match error {
            ProfileError::Value => !profile@.valid(),
            ProfileError::Path => profile@.valid(),
            _ => false,
        },
{
    match profile.validate() {
        Ok(_) => {},
        Err(error) => {
            return Err(error);
        },
    }
    if !is_absolute(root) || !is_absolute(native_library_directory) {
        return Err(ProfileError::Path);
    }
    let ghost model = profile@.modules;
    let mut bundled: Vec<BundledModule> = Vec::new();
    let mut i: usize = 0;
    proof {
        assert(bundled_models(bundled@) =~= Seq::<BundledModel>::empty());
    }
    while i < profile.modules.len()
        invariant
            i <= profile.modules.len(),
            model == module_models(profile.modules@),
            bundled_models(bundled@) == bundled_modules(model.take(i as int), native_library_directory@),
        decreases profile.modules.len() - i,
    {
        let ghost known = bundled_models(bundled@);
        proof {
            assert(model.take(i + 1).drop_last() =~= model.take(i as int));
            assert(model.take(i + 1).last() == profile.modules@[i as int]@);
        }
        let package = &profile.modules[i].package;
        if !package_seen(&profile.modules, i, package) {
            match find_bundled(package, native_library_directory) {
                Some(module) => {
                    bundled.push(module);
                    proof {
                        assert(bundled_models(bundled@) =~= known.push(module@));
                    }
                },
                None => {},
            }
        }
        i = i + 1;
    }
    proof {
        assert(model.take(model.len() as int) =~= model);
    }
    Ok(
        Installation {
            root: root.to_owned(),
            target: target.to_owned(),
            modules: bundled,
            index: 0,
            stage: InstallStage::Directory,
        },
    )
}

/// The digest of a file, in hexadecimal digits.
pub fn hash_contents(contents: &[u8]) -> (hash: String)
    ensures
        hash@ == file_hash(contents@),
{
    encode_hex(&digest(contents))
}

/// Where a module that comes with the application goes, and its lock.
#[derive(Debug, PartialEq, Eq)]
pub struct BundledPlacement {
    pub store: String,
    pub library: String,
    pub library_mode: u32,
    pub lock_path: String,
    pub lock_toml: String,
    pub lock_mode: u32,
}

/// The directory of the packages under a root.
pub open spec fn packages_under(root: Seq<char>) -> Seq<char> {
    child(root, "packages"@)
}

/// The directory in the store of a module, by the digest of its library.
pub open spec fn store_of(root: Seq<char>, module: BundledModel, target: Seq<char>, hash: Seq<char>) -> Seq<char> {
    child(
        child(
            child(
                child(
                    child(child(child(packages_under(root), "store"@), "bundled"@), module.owner),
                    module.name,
                ),
                module.version,
            ),
            target,
        ),
        hash,
    )
}

/// The lock of a module.
pub open spec fn lock_path_of(root: Seq<char>, module: BundledModel) -> Seq<char> {
    child(
        child(child(child(packages_under(root), "locks"@), module.owner), module.name),
        module.version + ".toml"@,
    )
}

/// What the lock of a module says.
pub open spec fn lock_entries(
    module: BundledModel,
    target: Seq<char>,
    hash: Seq<char>,
    store: Seq<char>,
) -> Seq<(Seq<char>, ValueModel)> {
    seq![
        ("wire_version"@, ValueModel::Integer(1)),
        ("package"@, ValueModel::Text(module.package)),
        ("target"@, ValueModel::Text(target)),
        ("content_sha256"@, ValueModel::Text(hash)),
        ("library"@, ValueModel::Text(child(store, module.library))),
        ("store"@, ValueModel::Text(store)),
        ("dependencies"@, ValueModel::Array(Seq::empty())),
    ]
}

/// A lock is not nested deep.
proof fn lemma_lock_fits(module: BundledModel, target: Seq<char>, hash: Seq<char>, store: Seq<char>)
    ensures
        document_fits(canonical_entries(lock_entries(module, target, hash, store))),
{
    let entries = lock_entries(module, target, hash, store);
    assert forall|i: int| 0 <= i < entries.len() implies nested_within((#[trigger] entries[i]).1, 1) by {
        assert(0 <= i < 7);
    }
    lemma_table_nested(entries, 1);
    lemma_nested_canonical(ValueModel::Table(entries), 2);
    lemma_shallow_fits(canonical(ValueModel::Table(entries)), 2, (MAX_DEPTH + 1) as nat);
}

/// Decides where a module that comes with the application goes, and what its lock
/// says.
pub fn place_bundled_module(module: &BundledModule, root: &str, target: &str, hash: &str) -> (placement: Result<
    BundledPlacement,
    ProfileError,
>)
    ensures
        placement is Ok,
        placement matches Ok(placement) ==> {
            let store = store_of(root@, module@, target@, hash@);
            &&& placement.store@ == store
            &&& placement.library@ == child(store, module@.library)
            &&& placement.library_mode == READ_ONLY_FILE
            &&& placement.lock_path@ == lock_path_of(root@, module@)
            &&& placement.lock_mode == PRIVATE_FILE
            &&& toml_text(canonical_entries(lock_entries(module@, target@, hash@, store))) == Ok::<
                Seq<char>,
                Seq<char>,
            >(placement.lock_toml@)
            &&& reads_back(canonical_entries(lock_entries(module@, target@, hash@, store)), placement.lock_toml@)
            &&& toml_document(placement.lock_toml@) is Ok
        },
{
    let packages = child_path(root, "packages");
    let bundled = child_path(&child_path(&packages, "store"), "bundled");
    let version = child_path(&child_path(&child_path(&bundled, &module.owner), &module.name), &module.version);
    let store = child_path(&child_path(&version, target), hash);
    let library = child_path(&store, &module.library);
    let entries: Vec<(&str, OptionValue)> = vec![
        ("wire_version", OptionValue::Integer(1)),
        ("package", text_option(&module.package)),
        ("target", text_option(target)),
        ("content_sha256", text_option(hash)),
        ("library", text_option(&library)),
        ("store", text_option(&store)),
        ("dependencies", OptionValue::Array(Vec::new())),
    ];
    proof {
        lemma_table_of(pair_models(entries@), lock_entries(module@, target@, hash@, store@));
        lemma_lock_fits(module@, target@, hash@, store@);
    }
    let locks = child_path(&child_path(&child_path(&packages, "locks"), &module.owner), &module.name);
    let lock_path = child_path(&locks, &join(&module.version, ".toml"));
    match print_table(&table_of(entries)) {
        Ok(lock_toml) => Ok(
            BundledPlacement {
                store,
                library,
                library_mode: READ_ONLY_FILE,
                lock_path,
                lock_toml,
                lock_mode: PRIVATE_FILE,
            },
        ),
        Err(message) => Err(ProfileError::TomlEncode(message)),
    }
}

/// How far an installation is.
pub enum InstallStage {
    /// The directory of the packages is made.
    Directory,
    /// The library that comes with the application is read.
    Source,
    /// What is in its place in the store is read, to be held against its digest.
    Library(String),
    /// It is copied into the store.
    Copy(String),
    /// Its lock is written.
    Lock(String),
}

/// The model of [`InstallStage`].
pub enum StageModel {
    Directory,
    Source,
    Library(Seq<char>),
    Copy(Seq<char>),
    Lock(Seq<char>),
}

impl InstallStage {
    pub open spec fn view(&self) -> StageModel {
        match self {
            InstallStage::Directory => StageModel::Directory,
            InstallStage::Source => StageModel::Source,
            InstallStage::Library(hash) => StageModel::Library(hash@),
            InstallStage::Copy(hash) => StageModel::Copy(hash@),
            InstallStage::Lock(hash) => StageModel::Lock(hash@),
        }
    }
}

/// The installation of the modules that come with the application, one after the
/// other.
pub struct Installation {
    pub root: String,
    pub target: String,
    pub modules: Vec<BundledModule>,
    pub index: usize,
    pub stage: InstallStage,
}

/// The model of [`Installation`].
pub struct InstallModel {
    pub root: Seq<char>,
    pub target: Seq<char>,
    pub modules: Seq<BundledModel>,
    pub index: int,
    pub stage: StageModel,
}

/// What an installation asks to be done next.
#[derive(Debug, PartialEq, Eq)]
pub enum InstallAction {
    /// A directory is made, if it is not there, and its permissions are set.
    MakeDirectory { path: String, mode: u32 },
    /// A file is read, if it is there: the library that comes with the application.
    ReadSource(String),
    /// A file is read, if it is there: the library in the store.
    ReadLibrary(String),
    /// A file is copied.
    CopyLibrary { source: String, library: String, mode: u32 },
    /// A file is written.
    WriteLock { path: String, contents: String, mode: u32 },
    /// Nothing: each module is installed.
    Finished,
}

/// The model of [`InstallAction`].
pub enum ActionModel {
    MakeDirectory { path: Seq<char>, mode: u32 },
    ReadSource(Seq<char>),
    ReadLibrary(Seq<char>),
    CopyLibrary { source: Seq<char>, library: Seq<char>, mode: u32 },
    WriteLock { path: Seq<char>, contents: Seq<char>, mode: u32 },
    Finished,
}

impl InstallAction {
    pub open spec fn view(&self) -> ActionModel {
        match self {
            InstallAction::MakeDirectory { path, mode } => ActionModel::MakeDirectory { path: path@, mode: *mode },
            InstallAction::ReadSource(path) => ActionModel::ReadSource(path@),
            InstallAction::ReadLibrary(path) => ActionModel::ReadLibrary(path@),
            InstallAction::CopyLibrary { source, library, mode } => ActionModel::CopyLibrary {
                source: source@,
                library: library@,
                mode: *mode,
            },
            InstallAction::WriteLock { path, contents, mode } => ActionModel::WriteLock {
                path: path@,
                contents: contents@,
                mode: *mode,
            },
            InstallAction::Finished => ActionModel::Finished,
        }
    }
}

/// The digest of a file, in hexadecimal digits.
pub open spec fn file_hash(contents: Seq<u8>) -> Seq<char> {
    hex_text(sha256(contents))
}

impl InstallModel {
    /// The installation of what a profile has of the modules that come with the
    /// application, before its first step.
    pub open spec fn begun(
        root: Seq<char>,
        target: Seq<char>,
        profile: ProfileModel,
        native: Seq<char>,
    ) -> InstallModel {
        InstallModel {
            root,
            target,
            modules: bundled_modules(profile.modules, native),
            index: 0,
            stage: StageModel::Directory,
        }
    }

    /// The place in the store of the library of the module that is being installed.
    pub open spec fn library(self, hash: Seq<char>) -> Seq<char> {
        let module = self.modules[self.index];
        child(store_of(self.root, module, self.target, hash), module.library)
    }

    /// What is asked for next. The directory of the packages comes before anything
    /// else, also where there is no module to install.
    pub open spec fn action(self) -> Option<ActionModel> {
        if !(self.stage is Directory) && self.index >= self.modules.len() {
            Some(ActionModel::Finished)
        } else {
            let module = self.modules[self.index];
            match self.stage {
                StageModel::Directory => Some(
                    ActionModel::MakeDirectory { path: packages_under(self.root), mode: PRIVATE_DIRECTORY },
                ),
                StageModel::Source => Some(ActionModel::ReadSource(module.source)),
                StageModel::Library(hash) => Some(ActionModel::ReadLibrary(self.library(hash))),
                StageModel::Copy(hash) => Some(
                    ActionModel::CopyLibrary {
                        source: module.source,
                        library: self.library(hash),
                        mode: READ_ONLY_FILE,
                    },
                ),
                StageModel::Lock(hash) => {
                    let store = store_of(self.root, module, self.target, hash);
                    match toml_text(canonical_entries(lock_entries(module, self.target, hash, store))) {
                        Ok(contents) => Some(
                            ActionModel::WriteLock {
                                path: lock_path_of(self.root, module),
                                contents,
                                mode: PRIVATE_FILE,
                            },
                        ),
                        Err(_) => None,
                    }
                },
            }
        }
    }

    /// The installation after a file was read, if it was there: the library that
    /// comes with the application must be, and one in the store must have the same
    /// digest.
    pub open spec fn after_read(self, contents: Option<Seq<u8>>) -> Result<InstallModel, ErrorModel> {
        match (self.stage, contents) {
            (StageModel::Source, Some(contents)) => Ok(
                InstallModel { stage: StageModel::Library(file_hash(contents)), ..self },
            ),
            (StageModel::Library(hash), None) => Ok(InstallModel { stage: StageModel::Copy(hash), ..self }),
            (StageModel::Library(hash), Some(contents)) => if file_hash(contents) == hash {
                Ok(InstallModel { stage: StageModel::Lock(hash), ..self })
            } else {
                Err(ErrorModel::BundledModule)
            },
            _ => Err(ErrorModel::BundledModule),
        }
    }

    /// The installation after a directory was made, or a file copied or written.
    pub open spec fn after_write(self) -> InstallModel {
        match self.stage {
            StageModel::Directory => InstallModel { stage: StageModel::Source, ..self },
            StageModel::Copy(hash) => InstallModel { stage: StageModel::Lock(hash), ..self },
            StageModel::Lock(_) => if self.index < self.modules.len() {
                InstallModel { index: self.index + 1, stage: StageModel::Source, ..self }
            } else {
                self
            },
            _ => self,
        }
    }
}

impl Installation {
    pub open spec fn view(&self) -> InstallModel {
        InstallModel {
            root: self.root@,
            target: self.target@,
            modules: bundled_models(self.modules@),
            index: self.index as int,
            stage: self.stage@,
        }
    }

    /// What is to be done next.
    pub fn action(&self) -> (result: Result<InstallAction, ProfileError>)
        ensures
            result is Ok,
            result matches Ok(action) ==> self@.action() == Some(action@),
    {
        if let InstallStage::Directory = &self.stage {
            let path = child_path(&self.root, "packages");
            return Ok(InstallAction::MakeDirectory { path, mode: PRIVATE_DIRECTORY });
        }
        if self.index >= self.modules.len() {
            return Ok(InstallAction::Finished);
        }
        let module: &BundledModule = &self.modules[self.index];
        assert(self@.modules[self.index as int] == module@);
        let hash: &String = match &self.stage {
            InstallStage::Library(hash) => hash,
            InstallStage::Copy(hash) => hash,
            InstallStage::Lock(hash) => hash,
            _ => {
                return Ok(InstallAction::ReadSource(module.source.clone()));
            },
        };
        let placement = match place_bundled_module(module, &self.root, &self.target, hash) {
            Ok(placement) => placement,
            Err(error) => {
                return Err(error);
            },
        };
        match &self.stage {
            InstallStage::Library(_) => Ok(InstallAction::ReadLibrary(placement.library)),
            InstallStage::Copy(_) => Ok(
                InstallAction::CopyLibrary {
                    source: module.source.clone(),
                    library: placement.library,
                    mode: placement.library_mode,
                },
            ),
            _ => Ok(
                InstallAction::WriteLock {
                    path: placement.lock_path,
                    contents: placement.lock_toml,
                    mode: placement.lock_mode,
                },
            ),
        }
    }

    /// Goes on after a file was read, if it was there.
    pub fn file_read(&mut self, contents: Option<&[u8]>) -> (result: Result<(), ProfileError>)
        ensures
            match old(self)@.after_read(optional_bytes(contents)) {
                Ok(after) => result is Ok && final(self)@ == after,
                Err(error) => result matches Err(found) && found@ == error && final(self)@ == old(self)@,
            },
    {
        let next = match (&self.stage, contents) {
            (InstallStage::Source, Some(contents)) => InstallStage::Library(hash_contents(contents)),
            (InstallStage::Library(hash), None) => InstallStage::Copy(hash.clone()),
            (InstallStage::Library(hash), Some(contents)) => {
                if !same(&hash_contents(contents), hash) {
                    return Err(ProfileError::BundledModule);
                }
                InstallStage::Lock(hash.clone())
            },
            _ => {
                return Err(ProfileError::BundledModule);
            },
        };
        self.stage = next;
        Ok(())
    }

    /// Goes on after a directory was made, or a file copied or written.
    pub fn file_written(&mut self)
        ensures
            final(self)@ == old(self)@.after_write(),
    {
        match &self.stage {
            InstallStage::Directory => {
                self.stage = InstallStage::Source;
            },
            InstallStage::Copy(hash) => {
                let next = InstallStage::Lock(hash.clone());
                self.stage = next;
            },
            InstallStage::Lock(_) => {
                if self.index < self.modules.len() {
                    self.index = self.index + 1;
                    self.stage = InstallStage::Source;
                }
            },
            _ => {},
        }
    }
}

/// Bytes that may be missing.
pub open spec fn optional_bytes(bytes: Option<&[u8]>) -> Option<Seq<u8>> {
    match bytes {
        Some(bytes) => Some(bytes@),
        None => None,
    }
}

}
