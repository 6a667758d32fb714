//! Profiles: what a client needs to know of a server, and when it is valid.
use vstd::prelude::*;

use crate::error::ProfileError;
use crate::options::{contains_privileged_option, privileged};
use crate::secret::Secret;
use crate::text::{byte_len, same, split_at_first, split_at_last, split_first, split_last, to_chars, utf8_len};
use crate::value::{OptionTable, ValueModel};

verus! {

/// The most bytes that the TOML text of a profile may take.
pub const MAX_PROFILE_BYTES: usize = 65_536;

/// What a module does in the client.
#[derive(Clone, Copy, Debug, PartialEq, Eq, Structural)]
pub enum ModuleClass {
    Adapter,
    Protection,
    Carrier,
    Policy,
}

/// A module that a profile asks for.
#[derive(Debug, PartialEq)]
pub struct ProfileModule {
    pub instance: String,
    pub package: String,
    pub class: ModuleClass,
    pub options: OptionTable,
}

/// The model of [`ProfileModule`].
pub struct ModuleModel {
    pub instance: Seq<char>,
    pub package: Seq<char>,
    pub class: ModuleClass,
    pub options: Seq<(Seq<char>, ValueModel)>,
}

impl ProfileModule {
    pub open spec fn view(&self) -> ModuleModel {
        ModuleModel {
            instance: self.instance@,
            package: self.package@,
            class: self.class,
            options: self.options@,
        }
    }

    /// A copy.
    pub fn copy(&self) -> (copy: ProfileModule)
        ensures
            copy@ == self@,
    {
        ProfileModule {
            instance: self.instance.clone(),
            package: self.package.clone(),
            class: self.class,
            options: self.options.copy(),
        }
    }
}

/// The models of modules.
pub open spec fn module_models(modules: Seq<ProfileModule>) -> Seq<ModuleModel> {
    modules.map_values(|module: ProfileModule| module@)
}

/// Copies of modules.
pub fn copy_modules(modules: &Vec<ProfileModule>) -> (copies: Vec<ProfileModule>)
    ensures
        module_models(copies@) == module_models(modules@),
{
    let mut copies: Vec<ProfileModule> = Vec::new();
    let mut i: usize = 0;
    while i < modules.len()
        invariant
            i <= modules.len(),
            copies@.len() == i,
            forall|j: int| 0 <= j < i ==> (#[trigger] copies@[j])@ == modules@[j]@,
        decreases modules.len() - i,
    {
        copies.push(modules[i].copy());
        i = i + 1;
    }
    assert(module_models(copies@) =~= module_models(modules@));
    copies
}

/// What a client needs to know to connect to a server.
#[derive(PartialEq)]
pub struct Profile {
    pub wire_version: u32,
    pub server_id: String,
    pub endpoint: String,
    pub modules: Vec<ProfileModule>,
    pub server_pin: String,
    pub credential: Secret,
}

/// The model of [`Profile`].
pub struct ProfileModel {
    pub wire_version: u32,
    pub server_id: Seq<char>,
    pub endpoint: Seq<char>,
    pub modules: Seq<ModuleModel>,
    pub server_pin: Seq<char>,
    pub credential: Seq<char>,
}

impl Profile {
    pub open spec fn view(&self) -> ProfileModel {
        ProfileModel {
            wire_version: self.wire_version,
            server_id: self.server_id@,
            endpoint: self.endpoint@,
            modules: module_models(self.modules@),
            server_pin: self.server_pin@,
            credential: self.credential@,
        }
    }

    /// A copy.
    pub fn copy(&self) -> (copy: Profile)
        ensures
            copy@ == self@,
    {
        Profile {
            wire_version: self.wire_version,
            server_id: self.server_id.clone(),
            endpoint: self.endpoint.clone(),
            modules: copy_modules(&self.modules),
            server_pin: self.server_pin.clone(),
            credential: self.credential.copy(),
        }
    }
}

/// Whether a character is an ASCII letter or digit.
pub open spec fn alphanumeric(c: char) -> bool {
    'a' <= c <= 'z' || 'A' <= c <= 'Z' || '0' <= c <= '9'
}

/// Whether a character may stand in a name.
pub open spec fn name_char(c: char) -> bool {
    alphanumeric(c) || c == '-' || c == '_'
}

/// Whether a character may stand in a part of a package's name.
pub open spec fn package_char(c: char) -> bool {
    alphanumeric(c) || c == '-' || c == '_' || c == '.'
}

/// Whether a text is a name: one to 64 letters, digits, hyphens and underscores.
pub open spec fn is_name(text: Seq<char>) -> bool {
    &&& 0 < text.len() <= 64
    &&& forall|i: int| 0 <= i < text.len() ==> name_char(#[trigger] text[i])
}

/// Whether each character of a text may stand in a part of a package's name.
pub open spec fn package_part(text: Seq<char>) -> bool {
    &&& text.len() > 0
    &&& forall|i: int| 0 <= i < text.len() ==> package_char(#[trigger] text[i])
}

/// Whether a text is a version of a package.
pub open spec fn package_version(text: Seq<char>) -> bool {
    &&& text.len() > 0
    &&& forall|i: int| 0 <= i < text.len() ==> package_char(#[trigger] text[i]) || text[i] == '+'
}

/// The owner, the name and the version in `owner/name@version`.
pub open spec fn package_parts(text: Seq<char>) -> Option<(Seq<char>, Seq<char>, Seq<char>)> {
    match split_at_last(text, '@') {
        Some((identity, version)) => match split_at_first(identity, '/') {
            Some((owner, name)) => Some((owner, name, version)),
            None => None,
        },
        None => None,
    }
}

/// Whether a text is a package: `owner/name@version`.
pub open spec fn is_package(text: Seq<char>) -> bool {
    package_parts(text) matches Some((owner, name, version)) && package_part(owner) && package_part(name)
        && package_version(version)
}

/// How many of the modules are of a class.
pub open spec fn class_count(modules: Seq<ModuleModel>, class: ModuleClass) -> nat
    decreases modules.len(),
{
    if modules.len() == 0 {
        0
    } else {
        class_count(modules.drop_last(), class) + if modules.last().class == class {
            1nat
        } else {
            0nat
        }
    }
}

/// Whether a module is valid by itself.
pub open spec fn valid_module(module: ModuleModel) -> bool {
    &&& is_name(module.instance)
    &&& is_package(module.package)
    &&& !privileged(ValueModel::Table(module.options))
}

/// Whether no two modules have the same instance name.
pub open spec fn distinct_instances(modules: Seq<ModuleModel>) -> bool {
    forall|i: int, j: int|
        0 <= i < j < modules.len() ==> (#[trigger] modules[i]).instance != (#[trigger] modules[j]).instance
}

/// Whether the modules of a profile are valid: each by itself, no instance name
/// twice, at least one adapter and one of each other class.
pub open spec fn valid_modules(modules: Seq<ModuleModel>) -> bool {
    &&& 0 < modules.len() <= 16
    &&& forall|i: int| 0 <= i < modules.len() ==> valid_module(#[trigger] modules[i])
    &&& distinct_instances(modules)
    &&& class_count(modules, ModuleClass::Adapter) > 0
    &&& class_count(modules, ModuleClass::Protection) == 1
    &&& class_count(modules, ModuleClass::Carrier) == 1
    &&& class_count(modules, ModuleClass::Policy) == 1
}

/// Whether a text takes at least one byte and at most `limit`.
pub open spec fn sized(text: Seq<char>, limit: nat) -> bool {
    text.len() > 0 && utf8_len(text) <= limit
}

impl ProfileModel {
    /// Whether the profile is valid.
    pub open spec fn valid(self) -> bool {
        &&& self.wire_version == 1
        &&& is_name(self.server_id)
        &&& sized(self.endpoint, 512)
        &&& sized(self.server_pin, 512)
        &&& sized(self.credential, 1024)
        &&& valid_modules(self.modules)
    }
}

/// Tells whether a character is an ASCII letter or digit.
fn is_alphanumeric(c: char) -> (found: bool)
    ensures
        found == alphanumeric(c),
{
    ('a' <= c && c <= 'z') || ('A' <= c && c <= 'Z') || ('0' <= c && c <= '9')
}

/// Tells whether a text is a name.
pub fn valid_name(value: &str) -> (valid: bool)
    ensures
        valid == is_name(value@),
{
    let chars: Vec<char> = to_chars(value);
    if chars.len() == 0 || chars.len() > 64 {
        return false;
    }
    let mut i: usize = 0;
    while i < chars.len()
        invariant
            i <= chars.len(),
            chars@ == value@,
            forall|j: int| 0 <= j < i ==> name_char(#[trigger] value@[j]),
        decreases chars.len() - i,
    {
        let c: char = chars[i];
        if !is_alphanumeric(c) && c != '-' && c != '_' {
            assert(!name_char(value@[i as int]));
            return false;
        }
        i = i + 1;
    }
    true
}

/// Tells whether a character may stand in a part of a package's name.
fn package_character(c: char) -> (found: bool)
    ensures
        found == package_char(c),
{
    is_alphanumeric(c) || c == '-' || c == '_' || c == '.'
}

/// Tells whether a text is an owner or a name of a package.
fn valid_part(text: &str) -> (valid: bool)
    ensures
        valid == package_part(text@),
{
    let chars: Vec<char> = to_chars(text);
    if chars.len() == 0 {
        return false;
    }
    let mut i: usize = 0;
    while i < chars.len()
        invariant
            i <= chars.len(),
            chars@ == text@,
            forall|j: int| 0 <= j < i ==> package_char(#[trigger] text@[j]),
        decreases chars.len() - i,
    {
        if !package_character(chars[i]) {
            assert(!package_char(text@[i as int]));
            return false;
        }
        i = i + 1;
    }
    true
}

/// Tells whether a text is a version of a package.
fn valid_version(text: &str) -> (valid: bool)
    ensures
        valid == package_version(text@),
{
    let chars: Vec<char> = to_chars(text);
    if chars.len() == 0 {
        return false;
    }
    let mut i: usize = 0;
    while i < chars.len()
        invariant
            i <= chars.len(),
            chars@ == text@,
            forall|j: int| 0 <= j < i ==> package_char(#[trigger] text@[j]) || text@[j] == '+',
        decreases chars.len() - i,
    {
        if !package_character(chars[i]) && chars[i] != '+' {
            assert(!package_char(text@[i as int]));
            return false;
        }
        i = i + 1;
    }
    true
}

/// The owner, the name and the version in `owner/name@version`.
pub fn split_package(value: &str) -> (parts: Option<(String, String, String)>)
    ensures
        match parts {
            Some((owner, name, version)) => package_parts(value@) == Some((owner@, name@, version@)),
            None => package_parts(value@) is None,
        },
{
    match split_last(value, '@') {
        Some((identity, version)) => match split_first(&identity, '/') {
            Some((owner, name)) => Some((owner, name, version)),
            None => None,
        },
        None => None,
    }
}

/// Tells whether a text is a package.
pub fn valid_package(value: &str) -> (valid: bool)
    ensures
        valid == is_package(value@),
{
    match split_package(value) {
        Some((owner, name, version)) => valid_part(&owner) && valid_part(&name) && valid_version(&version),
        None => false,
    }
}

/// Tells whether an instance name stands among those of the first modules.
fn instance_taken(modules: &Vec<ProfileModule>, count: usize, instance: &str) -> (taken: bool)
    requires
        count <= modules@.len(),
    ensures
        taken == exists|j: int| 0 <= j < count && (#[trigger] module_models(modules@)[j]).instance == instance@,
{
    let mut i: usize = 0;
    while i < count
        invariant
            i <= count <= modules@.len(),
            forall|j: int| 0 <= j < i ==> (#[trigger] module_models(modules@)[j]).instance != instance@,
        decreases count - i,
    {
        if same(&modules[i].instance, instance) {
            assert(module_models(modules@)[i as int].instance == instance@);
            return true;
        }
        i = i + 1;
    }
    false
}

/// Tells whether the modules of a profile are valid.
fn check_modules(modules: &Vec<ProfileModule>) -> (valid: bool)
    ensures
        valid == valid_modules(module_models(modules@)),
{
    let ghost model = module_models(modules@);
    if modules.len() == 0 || modules.len() > 16 {
        return false;
    }
    let mut adapters: usize = 0;
    let mut protections: usize = 0;
    let mut carriers: usize = 0;
    let mut policies: usize = 0;
    let mut i: usize = 0;
    while i < modules.len()
        invariant
            i <= modules.len() <= 16,
            model == module_models(modules@),
            model.len() == modules.len(),
            forall|j: int| 0 <= j < i ==> valid_module(#[trigger] model[j]),
            forall|j: int, k: int|
                0 <= j < k < i ==> (#[trigger] model[j]).instance != (#[trigger] model[k]).instance,
            adapters <= i,
            protections <= i,
            carriers <= i,
            policies <= i,
            adapters == class_count(model.take(i as int), ModuleClass::Adapter),
            protections == class_count(model.take(i as int), ModuleClass::Protection),
            carriers == class_count(model.take(i as int), ModuleClass::Carrier),
            policies == class_count(model.take(i as int), ModuleClass::Policy),
        decreases modules.len() - i,
    {
        let module: &ProfileModule = &modules[i];
        assert(model[i as int] == module@);
        if !valid_name(&module.instance) || !valid_package(&module.package) || contains_privileged_option(
            &module.options,
        ) {
            assert(!valid_module(model[i as int]));
            return false;
        }
        if instance_taken(modules, i, &module.instance) {
            return false;
        }
        match module.class {
            ModuleClass::Adapter => {
                adapters = adapters + 1;
            },
            ModuleClass::Protection => {
                protections = protections + 1;
            },
            ModuleClass::Carrier => {
                carriers = carriers + 1;
            },
            ModuleClass::Policy => {
                policies = policies + 1;
            },
        }
        proof {
            assert(model.take(i + 1).drop_last() =~= model.take(i as int));
        }
        i = i + 1;
    }
    assert(model.take(model.len() as int) =~= model);
    adapters > 0 && protections == 1 && carriers == 1 && policies == 1
}

/// Tells whether a text takes at least one byte and at most `limit`.
fn is_sized(text: &str, limit: usize) -> (valid: bool)
    ensures
        valid == sized(text@, limit as nat),
{
    !text.is_empty() && byte_len(text) <= limit
}

impl Profile {
    /// Checks that the profile is valid.
    pub fn validate(&self) -> (result: Result<(), ProfileError>)
        ensures
            result is Ok <==> self@.valid(),
            result matches Err(error) ==> error is Value,
    {
        if self.wire_version != 1 || !valid_name(&self.server_id) || !is_sized(&self.endpoint, 512) || !is_sized(
            &self.server_pin,
            512,
        ) || !is_sized(self.credential.expose(), 1024) || !check_modules(&self.modules) {
            return Err(ProfileError::Value);
        }
        Ok(())
    }
}

/// A profile without its credential.
#[derive(Debug, PartialEq)]
pub struct ProvisionProfile {
    pub wire_version: u32,
    pub server_id: String,
    pub endpoint: String,
    pub modules: Vec<ProfileModule>,
    pub server_pin: String,
}

/// The model of [`ProvisionProfile`].
pub struct ProvisionModel {
    pub wire_version: u32,
    pub server_id: Seq<char>,
    pub endpoint: Seq<char>,
    pub modules: Seq<ModuleModel>,
    pub server_pin: Seq<char>,
}

impl ProvisionModel {
    /// Whether the profile is valid with some credential.
    pub open spec fn valid(self) -> bool {
        &&& self.wire_version == 1
        &&& is_name(self.server_id)
        &&& sized(self.endpoint, 512)
        &&& sized(self.server_pin, 512)
        &&& valid_modules(self.modules)
    }

    /// The profile with a credential.
    pub open spec fn with(self, credential: Seq<char>) -> ProfileModel {
        ProfileModel {
            wire_version: self.wire_version,
            server_id: self.server_id,
            endpoint: self.endpoint,
            modules: self.modules,
            server_pin: self.server_pin,
            credential,
        }
    }
}

impl ProfileModel {
    /// The profile without its credential.
    pub open spec fn metadata(self) -> ProvisionModel {
        ProvisionModel {
            wire_version: self.wire_version,
            server_id: self.server_id,
            endpoint: self.endpoint,
            modules: self.modules,
            server_pin: self.server_pin,
        }
    }
}

impl ProvisionProfile {
    pub open spec fn view(&self) -> ProvisionModel {
        ProvisionModel {
            wire_version: self.wire_version,
            server_id: self.server_id@,
            endpoint: self.endpoint@,
            modules: module_models(self.modules@),
            server_pin: self.server_pin@,
        }
    }

    /// A copy.
    pub fn copy(&self) -> (copy: ProvisionProfile)
        ensures
            copy@ == self@,
    {
        ProvisionProfile {
            wire_version: self.wire_version,
            server_id: self.server_id.clone(),
            endpoint: self.endpoint.clone(),
            modules: copy_modules(&self.modules),
            server_pin: self.server_pin.clone(),
        }
    }

    /// What a profile says beside its credential.
    pub fn from_profile(profile: &Profile) -> (metadata: ProvisionProfile)
        ensures
            metadata@ == profile@.metadata(),
    {
        ProvisionProfile {
            wire_version: profile.wire_version,
            server_id: profile.server_id.clone(),
            endpoint: profile.endpoint.clone(),
            modules: copy_modules(&profile.modules),
            server_pin: profile.server_pin.clone(),
        }
    }

    /// The profile with a credential, whether it is valid or not.
    pub(crate) fn attach(self, credential: Secret) -> (profile: Profile)
        ensures
            profile@ == self@.with(credential@),
    {
        Profile {
            wire_version: self.wire_version,
            server_id: self.server_id,
            endpoint: self.endpoint,
            modules: self.modules,
            server_pin: self.server_pin,
            credential,
        }
    }

    /// The profile with a credential, where that is valid.
    pub fn with_credential(self, credential: &str) -> (result: Result<Profile, ProfileError>)
        ensures
            result is Ok <==> self@.with(credential@).valid(),
            result matches Ok(profile) ==> profile@ == self@.with(credential@),
            result matches Err(error) ==> error is Value,
    {
        self.with_secret(Secret::new(credential.to_owned()))
    }

    /// The profile with a secret for its credential, where that is valid.
    pub fn with_secret(self, credential: Secret) -> (result: Result<Profile, ProfileError>)
        ensures
            result is Ok <==> self@.with(credential@).valid(),
            result matches Ok(profile) ==> profile@ == self@.with(credential@),
            result matches Err(error) ==> error is Value,
    {
        let profile = self.attach(credential);
        match profile.validate() {
            Ok(_) => Ok(profile),
            Err(error) => Err(error),
        }
    }
}

impl Clone for ProfileModule {
    fn clone(&self) -> (copy: ProfileModule)
        ensures
            copy@ == self@,
    {
        self.copy()
    }
}

impl Clone for Profile {
    fn clone(&self) -> (copy: Profile)
        ensures
            copy@ == self@,
    {
        self.copy()
    }
}

impl Clone for ProvisionProfile {
    fn clone(&self) -> (copy: ProvisionProfile)
        ensures
            copy@ == self@,
    {
        self.copy()
    }
}

}
