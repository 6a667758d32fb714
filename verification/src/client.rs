//! What a profile becomes on the client: the files of its configuration.
use vstd::prelude::*;
use vstd::utf8::*;

use crate::config::{lemma_table_of, main_document, main_toml, text_option};
use crate::document::{print_table, reads_back, toml_text};
use crate::error::{ErrorModel, ProfileError};
use crate::paths::{absolute, child, child_path, is_absolute};
use crate::profile::{class_count, module_models, ModuleClass, ModuleModel, Profile, ProfileModel, ProfileModule};
use crate::state::optional_text;
use crate::text::{join, same, split_at_last, split_last, text_views, to_bytes};
use crate::tree::toml_document;
use crate::value::{canonical_entries, get, pair_models, put, sorted, table_of, OptionTable, OptionValue, ValueModel};

verus! {

/// A file of the configuration of a client.
#[derive(Clone, Debug, PartialEq, Eq)]
pub struct GeneratedFile {
    pub path: String,
    pub contents: Vec<u8>,
    pub secret: bool,
}

/// The model of [`GeneratedFile`].
pub struct FileModel {
    pub path: Seq<char>,
    pub contents: Seq<u8>,
    pub secret: bool,
}

impl GeneratedFile {
    pub open spec fn view(&self) -> FileModel {
        FileModel { path: self.path@, contents: self.contents@, secret: self.secret }
    }
}

/// The models of files.
pub open spec fn file_models(files: Seq<GeneratedFile>) -> Seq<FileModel> {
    files.map_values(|file: GeneratedFile| file@)
}

/// The configuration of a client.
#[derive(Clone, Debug, PartialEq, Eq)]
pub struct GeneratedClient {
    pub main_path: String,
    pub main_toml: String,
    pub files: Vec<GeneratedFile>,
}

/// The model of [`GeneratedClient`].
pub struct ClientModel {
    pub main_path: Seq<char>,
    pub main_toml: Seq<char>,
    pub files: Seq<FileModel>,
}

impl GeneratedClient {
    pub open spec fn view(&self) -> ClientModel {
        ClientModel { main_path: self.main_path@, main_toml: self.main_toml@, files: file_models(self.files@) }
    }
}

/// A text that the engine must accept: the file of a module, with its path, or the
/// main file, with the directory that it lies in.
#[derive(Debug, PartialEq, Eq)]
pub struct EngineCheck {
    pub path: String,
    pub text: String,
    pub main: bool,
}

/// The model of [`EngineCheck`].
pub struct CheckModel {
    pub path: Seq<char>,
    pub text: Seq<char>,
    pub main: bool,
}

impl EngineCheck {
    pub open spec fn view(&self) -> CheckModel {
        CheckModel { path: self.path@, text: self.text@, main: self.main }
    }
}

/// The models of checks.
pub open spec fn check_models(checks: Seq<EngineCheck>) -> Seq<CheckModel> {
    checks.map_values(|check: EngineCheck| check@)
}

/// The directory of the configuration under the root of a client.
pub open spec fn config_directory(root: Seq<char>) -> Seq<char> {
    child(root, "config"@)
}

/// The directory of the state of a client.
pub open spec fn state_directory(root: Seq<char>) -> Seq<char> {
    child(root, "state"@)
}

/// The directory of the packages of a client.
pub open spec fn package_directory(root: Seq<char>) -> Seq<char> {
    child(root, "packages"@)
}

/// The main file of a client.
pub open spec fn main_path(root: Seq<char>) -> Seq<char> {
    child(config_directory(root), "snolc.toml"@)
}

/// The file of a module.
pub open spec fn module_file(root: Seq<char>, instance: Seq<char>) -> Seq<char> {
    child(child(config_directory(root), "modules"@), instance + ".toml"@)
}

/// The file of the key of the server.
pub open spec fn pin_path(root: Seq<char>) -> Seq<char> {
    child(child(root, "secrets"@), "server-noise-key.hex"@)
}

/// The name of a package without its version.
pub open spec fn package_identity(package: Seq<char>) -> Seq<char> {
    match split_at_last(package, '@') {
        Some((identity, _)) => identity,
        None => package,
    }
}

/// What a client adds to the options of a module.
pub enum Addition {
    /// Nothing.
    Nothing,
    /// Where the key of the server is.
    Noise,
    /// Where the server is.
    Connect,
    /// Who the client is.
    Policy,
}

/// What a client adds to the options of a module, by its class and its package.
pub open spec fn addition_of(class: ModuleClass, identity: Seq<char>) -> Addition {
    match class {
        ModuleClass::Protection => if identity == "owenewans/protection-noise"@ {
            Addition::Noise
        } else {
            Addition::Nothing
        },
        ModuleClass::Carrier => if identity == "owenewans/carrier-tcp"@ || identity == "owenewans/carrier-ssh"@ {
            Addition::Connect
        } else {
            Addition::Nothing
        },
        ModuleClass::Policy => if identity == "owenewans/policy-local"@ {
            Addition::Policy
        } else {
            Addition::Nothing
        },
        ModuleClass::Adapter => Addition::Nothing,
    }
}

/// The table that tells a policy the credential.
pub open spec fn credential_entries(credential: Seq<char>) -> Seq<(Seq<char>, ValueModel)> {
    canonical_entries(
        seq![
            (
                "credential"@,
                ValueModel::Table(
                    seq![("source"@, ValueModel::Text("toml"@)), ("value"@, ValueModel::Text(credential))],
                ),
            ),
        ],
    )
}

/// The options of the policy of a client, or why there are none: what stands under
/// `storage` must be a table.
pub open spec fn policy_options(
    profile: ProfileModel,
    root: Seq<char>,
    options: Seq<(Seq<char>, ValueModel)>,
) -> Result<Seq<(Seq<char>, ValueModel)>, ErrorModel> {
    let named = put(
        put(options, "server_id"@, ValueModel::Text(profile.server_id)),
        "credential_transport"@,
        ValueModel::Text("protected"@),
    );
    let storage = match get(named, "storage"@) {
        Some(storage) => storage,
        None => ValueModel::Table(Seq::empty()),
    };
    match storage {
        ValueModel::Table(storage) => {
            let path = ValueModel::Text(child(state_directory(root), "policy-client.redb"@));
            Ok(
                put(
                    put(named, "storage"@, ValueModel::Table(put(storage, "path"@, path))),
                    "client"@,
                    ValueModel::Table(credential_entries(profile.credential)),
                ),
            )
        },
        _ => Err(ErrorModel::Value),
    }
}

/// The options of a module on a client, or why there are none.
pub open spec fn client_options(
    profile: ProfileModel,
    root: Seq<char>,
    module: ModuleModel,
) -> Result<Seq<(Seq<char>, ValueModel)>, ErrorModel> {
    match addition_of(module.class, package_identity(module.package)) {
        Addition::Nothing => Ok(module.options),
        Addition::Noise => Ok(
            put(
                put(module.options, "mode"@, ValueModel::Text("client"@)),
                "server_public_key_file"@,
                ValueModel::Text(pin_path(root)),
            ),
        ),
        Addition::Connect => Ok(
            put(
                put(module.options, "mode"@, ValueModel::Text("connect"@)),
                "endpoint_ip"@,
                ValueModel::Text(profile.endpoint),
            ),
        ),
        Addition::Policy => policy_options(profile, root, module.options),
    }
}

/// What the file of a module says, with the values as they are given.
pub open spec fn module_entries(
    module: ModuleModel,
    options: Seq<(Seq<char>, ValueModel)>,
) -> Seq<(Seq<char>, ValueModel)> {
    sorted(
        seq![
            ("wire_version"@, ValueModel::Integer(1)),
            ("instance"@, ValueModel::Text(module.instance)),
            ("package"@, ValueModel::Text(module.package)),
            ("role"@, ValueModel::Text("client"@)),
            ("options"@, ValueModel::Table(options)),
        ],
    )
}

/// The files that come before the file of a module.
pub open spec fn files_before(profile: ProfileModel, root: Seq<char>, module: ModuleModel) -> Seq<FileModel> {
    match addition_of(module.class, package_identity(module.package)) {
        Addition::Noise => seq![
            FileModel { path: pin_path(root), contents: encode_utf8(profile.server_pin + "\n"@), secret: true },
        ],
        _ => Seq::empty(),
    }
}

/// What is generated for modules, up to the first for which something goes wrong.
pub struct ModulesModel {
    pub files: Seq<FileModel>,
    pub checks: Seq<CheckModel>,
    pub error: Option<ErrorModel>,
}

/// What is generated for one module more.
pub open spec fn with_module(
    before: ModulesModel,
    profile: ProfileModel,
    root: Seq<char>,
    module: ModuleModel,
) -> ModulesModel {
    match client_options(profile, root, module) {
        Ok(options) => match toml_text(module_entries(module, options)) {
            Ok(text) => {
                let path = module_file(root, module.instance);
                ModulesModel {
                    files: (before.files + files_before(profile, root, module)).push(
                        FileModel { path, contents: encode_utf8(text), secret: module.class == ModuleClass::Policy },
                    ),
                    checks: before.checks.push(CheckModel { path, text, main: false }),
                    error: None,
                }
            },
            Err(message) => ModulesModel { error: Some(ErrorModel::TomlEncode(message)), ..before },
        },
        Err(error) => ModulesModel { error: Some(error), ..before },
    }
}

/// What is generated for the modules of a profile.
pub open spec fn generated_modules(
    profile: ProfileModel,
    root: Seq<char>,
    modules: Seq<ModuleModel>,
) -> ModulesModel
    decreases modules.len(),
{
    if modules.len() == 0 {
        ModulesModel { files: Seq::empty(), checks: Seq::empty(), error: None }
    } else {
        let before = generated_modules(profile, root, modules.drop_last());
        if before.error is Some {
            before
        } else {
            with_module(before, profile, root, modules.last())
        }
    }
}

/// The files of the modules of a class.
pub open spec fn class_paths(root: Seq<char>, modules: Seq<ModuleModel>, class: ModuleClass) -> Seq<Seq<char>>
    decreases modules.len(),
{
    if modules.len() == 0 {
        Seq::empty()
    } else {
        let before = class_paths(root, modules.drop_last(), class);
        if modules.last().class == class {
            before.push(module_file(root, modules.last().instance))
        } else {
            before
        }
    }
}

/// The main document of a client of these modules, one of each class but adapters.
pub open spec fn client_document(root: Seq<char>, modules: Seq<ModuleModel>) -> Seq<(Seq<char>, ValueModel)> {
    main_document(
        package_directory(root),
        state_directory(root),
        class_paths(root, modules, ModuleClass::Adapter),
        class_paths(root, modules, ModuleClass::Protection)[0],
        class_paths(root, modules, ModuleClass::Carrier)[0],
        class_paths(root, modules, ModuleClass::Policy)[0],
    )
}

/// The texts that the engine must accept, and what is generated if it does.
pub struct DraftModel {
    pub checks: Seq<CheckModel>,
    pub outcome: Result<ClientModel, ErrorModel>,
}

/// The draft of the configuration of a client.
pub open spec fn client_draft(profile: ProfileModel, root: Seq<char>) -> DraftModel {
    if !profile.valid() {
        DraftModel { checks: Seq::empty(), outcome: Err(ErrorModel::Value) }
    } else if !absolute(root) {
        DraftModel { checks: Seq::empty(), outcome: Err(ErrorModel::Path) }
    } else {
        let modules = generated_modules(profile, root, profile.modules);
        match modules.error {
            Some(error) => DraftModel { checks: modules.checks, outcome: Err(error) },
            None => match toml_text(client_document(root, profile.modules)) {
                Ok(text) => DraftModel {
                    checks: modules.checks.push(CheckModel { path: config_directory(root), text, main: true }),
                    outcome: Ok(ClientModel { main_path: main_path(root), main_toml: text, files: modules.files }),
                },
                Err(message) => DraftModel {
                    checks: modules.checks,
                    outcome: Err(ErrorModel::TomlEncode(message)),
                },
            },
        }
    }
}

/// The name of a package without its version.
fn identity_of(package: &str) -> (identity: String)
    ensures
        identity@ == package_identity(package@),
{
    match split_last(package, '@') {
        Some((identity, _)) => identity,
        None => package.to_owned(),
    }
}

/// What a client adds to the options of a module, by its class and its package.
fn find_addition(class: ModuleClass, identity: &str) -> (addition: Addition)
    ensures
        addition == addition_of(class, identity@),
{
    match class {
        ModuleClass::Protection => if same(identity, "owenewans/protection-noise") {
            Addition::Noise
        } else {
            Addition::Nothing
        },
        ModuleClass::Carrier => if same(identity, "owenewans/carrier-tcp") || same(identity, "owenewans/carrier-ssh") {
            Addition::Connect
        } else {
            Addition::Nothing
        },
        ModuleClass::Policy => if same(identity, "owenewans/policy-local") {
            Addition::Policy
        } else {
            Addition::Nothing
        },
        ModuleClass::Adapter => Addition::Nothing,
    }
}

/// The table that tells a policy the credential.
fn credential_table(credential: &str) -> (table: OptionTable)
    ensures
        table@ == credential_entries(credential@),
{
    let inner: Vec<(&str, OptionValue)> = vec![("source", text_option("toml")), ("value", text_option(credential))];
    let ghost inner_entries = seq![
        ("source"@, ValueModel::Text("toml"@)),
        ("value"@, ValueModel::Text(credential@)),
    ];
    proof {
        lemma_table_of(pair_models(inner@), inner_entries);
    }
    let outer: Vec<(&str, OptionValue)> = vec![("credential", OptionValue::Table(table_of(inner)))];
    proof {
        lemma_table_of(pair_models(outer@), seq![("credential"@, ValueModel::Table(inner_entries))]);
    }
    table_of(outer)
}

/// The file of the key of the server.
fn pin_file(root: &str) -> (path: String)
    ensures
        path@ == pin_path(root@),
{
    child_path(&child_path(root, "secrets"), "server-noise-key.hex")
}

/// The options of the policy of a client.
fn add_policy(profile: &Profile, root: &str, given: &OptionTable) -> (result: Result<OptionTable, ProfileError>)
    ensures
        match result {
            Ok(options) => policy_options(profile@, root@, given@) == Ok::<
                Seq<(Seq<char>, ValueModel)>,
                ErrorModel,
            >(options@),
            Err(error) => policy_options(profile@, root@, given@) == Err::<
                Seq<(Seq<char>, ValueModel)>,
                ErrorModel,
            >(error@),
        },
        result matches Err(error) ==> error is Value,
{
    let mut options = given.copy();
    options.insert("server_id", text_option(&profile.server_id));
    options.insert("credential_transport", text_option("protected"));
    let mut storage = match options.get("storage") {
        Some(OptionValue::Table(storage)) => storage.copy(),
        Some(_) => {
            return Err(ProfileError::Value);
        },
        None => OptionTable::new(),
    };
    let state = child_path(root, "state");
    storage.insert("path", OptionValue::Text(child_path(&state, "policy-client.redb")));
    options.insert("storage", OptionValue::Table(storage));
    options.insert("client", OptionValue::Table(credential_table(profile.credential.expose())));
    Ok(options)
}

/// The options of a module on a client.
fn add_options(profile: &Profile, root: &str, module: &ProfileModule) -> (result: Result<OptionTable, ProfileError>)
    ensures
        match result {
            Ok(options) => client_options(profile@, root@, module@) == Ok::<
                Seq<(Seq<char>, ValueModel)>,
                ErrorModel,
            >(options@),
            Err(error) => client_options(profile@, root@, module@) == Err::<
                Seq<(Seq<char>, ValueModel)>,
                ErrorModel,
            >(error@),
        },
        result matches Err(error) ==> error is Value,
{
    match find_addition(module.class, &identity_of(&module.package)) {
        Addition::Nothing => Ok(module.options.copy()),
        Addition::Noise => {
            let mut options = module.options.copy();
            options.insert("mode", text_option("client"));
            options.insert("server_public_key_file", OptionValue::Text(pin_file(root)));
            Ok(options)
        },
        Addition::Connect => {
            let mut options = module.options.copy();
            options.insert("mode", text_option("connect"));
            options.insert("endpoint_ip", text_option(&profile.endpoint));
            Ok(options)
        },
        Addition::Policy => add_policy(profile, root, &module.options),
    }
}

/// The text of the file of a module.
fn module_toml(module: &ProfileModule, options: OptionTable) -> (text: Result<String, ProfileError>)
    ensures
        text is Ok,
        toml_text(module_entries(module@, options@)) == Ok::<Seq<char>, Seq<char>>(text->Ok_0@),
        reads_back(module_entries(module@, options@), text->Ok_0@),
{
    let entries: Vec<(&str, OptionValue)> = vec![
        ("wire_version", OptionValue::Integer(1)),
        ("instance", text_option(&module.instance)),
        ("package", text_option(&module.package)),
        ("role", text_option("client")),
        ("options", OptionValue::Table(options)),
    ];
    proof {
        assert(pair_models(entries@) =~= seq![
            ("wire_version"@, ValueModel::Integer(1)),
            ("instance"@, ValueModel::Text(module@.instance)),
            ("package"@, ValueModel::Text(module@.package)),
            ("role"@, ValueModel::Text("client"@)),
            ("options"@, ValueModel::Table(options@)),
        ]);
    }
    match print_table(&table_of(entries)) {
        Ok(text) => Ok(text),
        Err(message) => Err(ProfileError::TomlEncode(message)),
    }
}

/// The file of a module.
fn file_of_module(root: &str, instance: &str) -> (path: String)
    ensures
        path@ == module_file(root@, instance@),
{
    let directory = child_path(&child_path(root, "config"), "modules");
    child_path(&directory, &join(instance, ".toml"))
}

/// The texts that the engine must accept, in order, and what is generated if it
/// accepts them.
pub struct ClientDraft {
    pub checks: Vec<EngineCheck>,
    pub outcome: Result<GeneratedClient, ProfileError>,
}

/// The model of an outcome.
pub open spec fn outcome_model(outcome: Result<GeneratedClient, ProfileError>) -> Result<ClientModel, ErrorModel> {
    match outcome {
        Ok(client) => Ok(client@),
        Err(error) => Err(error@),
    }
}

impl ClientDraft {
    pub open spec fn view(&self) -> DraftModel {
        DraftModel { checks: check_models(self.checks@), outcome: outcome_model(self.outcome) }
    }
}

/// What the file of a module on a client says.
pub open spec fn module_said(profile: ProfileModel, root: Seq<char>, module: ModuleModel) -> Seq<
    (Seq<char>, ValueModel),
> {
    module_entries(module, client_options(profile, root, module)->Ok_0)
}

/// Whether each text of a draft says what it is written for: the texts of the modules,
/// and last the main text, which is always parsed.
pub open spec fn texts_say(profile: ProfileModel, root: Seq<char>, checks: Seq<CheckModel>) -> bool {
    let count = profile.modules.len() as int;
    &&& checks.len() == count + 1
    &&& forall|i: int|
        0 <= i < count ==> reads_back(
            module_said(profile, root, #[trigger] profile.modules[i]),
            checks[i].text,
        )
    &&& reads_back(client_document(root, profile.modules), checks[count].text)
    &&& toml_document(checks[count].text) is Ok
}

/// Adds what is generated for a module.
fn add_module(
    profile: &Profile,
    root: &str,
    module: &ProfileModule,
    files: &mut Vec<GeneratedFile>,
    checks: &mut Vec<EngineCheck>,
) -> (result: Result<(), ProfileError>)
    ensures
        ({
            let before = ModulesModel {
                files: file_models(old(files)@),
                checks: check_models(old(checks)@),
                error: None,
            };
            let after = with_module(before, profile@, root@, module@);
            &&& after.checks == check_models(final(checks)@)
            &&& match result {
                Ok(_) => after.error is None && after.files == file_models(final(files)@),
                Err(error) => after.error == Some(error@),
            }
        }),
        result is Ok <==> client_options(profile@, root@, module@) is Ok,
        result matches Err(error) ==> error is Value,
        result is Ok ==> final(checks)@.len() == old(checks)@.len() + 1 && final(checks)@.take(
            old(checks)@.len() as int,
        ) == old(checks)@ && reads_back(module_said(profile@, root@, module@), final(checks)@.last().text@),
{
    let ghost before = ModulesModel { files: file_models(files@), checks: check_models(checks@), error: None };
    let options = match add_options(profile, root, module) {
        Ok(options) => options,
        Err(error) => {
            return Err(error);
        },
    };
    match find_addition(module.class, &identity_of(&module.package)) {
        Addition::Noise => {
            let contents = to_bytes(&join(&profile.server_pin, "\n"));
            files.push(GeneratedFile { path: pin_file(root), contents, secret: true });
        },
        _ => {},
    }
    proof {
        assert(file_models(files@) =~= before.files + files_before(profile@, root@, module@));
    }
    let ghost with_pin = file_models(files@);
    let text = match module_toml(module, options) {
        Ok(text) => text,
        Err(error) => {
            return Err(error);
        },
    };
    let path = file_of_module(root, &module.instance);
    files.push(
        GeneratedFile { path: path.clone(), contents: to_bytes(&text), secret: module.class == ModuleClass::Policy },
    );
    checks.push(EngineCheck { path, text, main: false });
    proof {
        let after = with_module(before, profile@, root@, module@);
        assert(checks@.take(old(checks)@.len() as int) =~= old(checks)@);
        assert(check_models(checks@) =~= after.checks);
        assert(file_models(files@) =~= after.files);
    }
    Ok(())
}

/// A class has as many files as modules.
proof fn lemma_class_paths(root: Seq<char>, modules: Seq<ModuleModel>, class: ModuleClass)
    ensures
        class_paths(root, modules, class).len() == class_count(modules, class),
    decreases modules.len(),
{
    if modules.len() > 0 {
        lemma_class_paths(root, modules.drop_last(), class);
    }
}

/// The files of the modules of a class.
fn paths_of_class(root: &str, modules: &Vec<ProfileModule>, class: ModuleClass) -> (paths: Vec<String>)
    ensures
        text_views(paths@) == class_paths(root@, module_models(modules@), class),
{
    let ghost model = module_models(modules@);
    let mut paths: Vec<String> = Vec::new();
    let mut i: usize = 0;
    proof {
        assert(text_views(paths@) =~= Seq::<Seq<char>>::empty());
    }
    while i < modules.len()
        invariant
            i <= modules.len(),
            model == module_models(modules@),
            text_views(paths@) == class_paths(root@, model.take(i as int), class),
        decreases modules.len() - i,
    {
        let ghost known = text_views(paths@);
        proof {
            assert(model.take(i + 1).drop_last() =~= model.take(i as int));
            assert(model.take(i + 1).last() == modules@[i as int]@);
        }
        if modules[i].class == class {
            let path = file_of_module(root, &modules[i].instance);
            paths.push(path);
            proof {
                assert(text_views(paths@) =~= known.push(path@));
            }
        }
        i = i + 1;
    }
    proof {
        assert(model.take(model.len() as int) =~= model);
    }
    paths
}

/// Where something goes wrong for a module, nothing is generated for those after it.
proof fn lemma_first_module_error(profile: ProfileModel, root: Seq<char>, modules: Seq<ModuleModel>, count: int)
    requires
        0 <= count <= modules.len(),
        generated_modules(profile, root, modules.take(count)).error is Some,
    ensures
        generated_modules(profile, root, modules) == generated_modules(profile, root, modules.take(count)),
    decreases modules.len(),
{
    if count == modules.len() {
        assert(modules.take(count) =~= modules);
    } else {
        assert(modules.drop_last().take(count) =~= modules.take(count));
        lemma_first_module_error(profile, root, modules.drop_last(), count);
    }
}

/// Whether a client can have the modules of a profile: what a local policy has
/// under `storage`, if anything, is a table.
pub open spec fn fits_client(profile: ProfileModel, root: Seq<char>) -> bool {
    forall|i: int|
        0 <= i < profile.modules.len() ==> client_options(profile, root, #[trigger] profile.modules[i]) is Ok
}

/// Drafts the configuration of a client. It comes about for each valid profile
/// that fits a client, under an absolute root, and its texts say what they are written
/// for.
pub fn draft_client_config(profile: &Profile, root: &str) -> (draft: ClientDraft)
    ensures
        draft@ == client_draft(profile@, root@),
        draft.outcome is Ok <==> profile@.valid() && absolute(root@) && fits_client(profile@, root@),
        draft.outcome matches Err(error) ==> match error {
            ProfileError::Value => !profile@.valid() || (absolute(root@) && !fits_client(profile@, root@)),
            ProfileError::Path => profile@.valid() && !absolute(root@),
            _ => false,
        },
        draft.outcome is Ok ==> texts_say(profile@, root@, draft@.checks),
{
    let mut files: Vec<GeneratedFile> = Vec::new();
    let mut checks: Vec<EngineCheck> = Vec::new();
    let ghost model = profile@.modules;
    proof {
        assert(file_models(files@) =~= Seq::<FileModel>::empty());
        assert(check_models(checks@) =~= Seq::<CheckModel>::empty());
    }
    match profile.validate() {
        Ok(_) => {},
        Err(error) => {
            return ClientDraft { checks, outcome: Err(error) };
        },
    }
    if !is_absolute(root) {
        return ClientDraft { checks, outcome: Err(ProfileError::Path) };
    }
    let mut i: usize = 0;
    while i < profile.modules.len()
        invariant
            i <= profile.modules.len(),
            model == module_models(profile.modules@),
            model == profile@.modules,
            profile@.valid(),
            absolute(root@),
            forall|j: int| 0 <= j < i ==> client_options(profile@, root@, #[trigger] profile@.modules[j]) is Ok,
            checks@.len() == i,
            forall|j: int|
                0 <= j < i ==> reads_back(
                    module_said(profile@, root@, #[trigger] profile@.modules[j]),
                    checks@[j].text@,
                ),
            generated_modules(profile@, root@, model.take(i as int)) == (ModulesModel {
                files: file_models(files@),
                checks: check_models(checks@),
                error: None,
            }),
        decreases profile.modules.len() - i,
    {
        proof {
            assert(model.take(i + 1).drop_last() =~= model.take(i as int));
            assert(model.take(i + 1).last() == profile.modules@[i as int]@);
        }
        let ghost known = checks@;
        match add_module(profile, root, &profile.modules[i], &mut files, &mut checks) {
            Ok(_) => {
                proof {
                    assert forall|j: int| 0 <= j < i + 1 implies reads_back(
                        module_said(profile@, root@, #[trigger] profile@.modules[j]),
                        checks@[j].text@,
                    ) by {
                        if j < i {
                            assert(checks@.take(known.len() as int)[j] == known[j]);
                        }
                    }
                }
            },
            Err(error) => {
                proof {
                    lemma_first_module_error(profile@, root@, model, i + 1);
                    assert(client_options(profile@, root@, profile@.modules[i as int]) is Err);
                }
                return ClientDraft { checks, outcome: Err(error) };
            },
        }
        i = i + 1;
    }
    proof {
        assert(model.take(model.len() as int) =~= model);
        lemma_class_paths(root@, model, ModuleClass::Protection);
        lemma_class_paths(root@, model, ModuleClass::Carrier);
        lemma_class_paths(root@, model, ModuleClass::Policy);
    }
    let adapters = paths_of_class(root, &profile.modules, ModuleClass::Adapter);
    let protections = paths_of_class(root, &profile.modules, ModuleClass::Protection);
    let carriers = paths_of_class(root, &profile.modules, ModuleClass::Carrier);
    let policies = paths_of_class(root, &profile.modules, ModuleClass::Policy);
    proof {
        assert(text_views(protections@).len() == 1);
        assert(text_views(carriers@).len() == 1);
        assert(text_views(policies@).len() == 1);
        assert(text_views(protections@)[0] == protections@[0]@);
        assert(text_views(carriers@)[0] == carriers@[0]@);
        assert(text_views(policies@)[0] == policies@[0]@);
    }
    let directory = child_path(root, "config");
    let state = child_path(root, "state");
    let packages = child_path(root, "packages");
    match main_toml(&packages, &state, &adapters, &protections[0], &carriers[0], &policies[0]) {
        Ok(text) => {
            let ghost known = check_models(checks@);
            let main_path = child_path(&directory, "snolc.toml");
            let ghost module_checks = checks@;
            checks.push(EngineCheck { path: directory, text: text.clone(), main: true });
            proof {
                assert forall|j: int| 0 <= j < model.len() implies reads_back(
                    module_said(profile@, root@, #[trigger] profile@.modules[j]),
                    check_models(checks@)[j].text,
                ) by {
                    assert(checks@[j] == module_checks[j]);
                }
                assert(check_models(checks@) =~= known.push(
                    CheckModel { path: config_directory(root@), text: text@, main: true },
                ));
            }
            ClientDraft { checks, outcome: Ok(GeneratedClient { main_path, main_toml: text, files }) }
        },
        Err(error) => ClientDraft { checks, outcome: Err(error) },
    }
}

/// What comes of a draft, by what the engine said of the first text that it refused,
/// if it refused one.
pub open spec fn settled(draft: DraftModel, refusal: Option<Seq<char>>) -> Result<ClientModel, ErrorModel> {
    match refusal {
        Some(message) => Err(ErrorModel::Generated(message)),
        None => draft.outcome,
    }
}

/// The configuration of a client, once the engine has read the texts of its draft
/// in order: what it said of the first that it refused, if it refused one, is the
/// error.
pub fn settle_client_config(draft: ClientDraft, refusal: Option<String>) -> (result: Result<
    GeneratedClient,
    ProfileError,
>)
    ensures
        outcome_model(result) == settled(draft@, optional_text(refusal)),
{
    match refusal {
        Some(message) => Err(ProfileError::Generated(message)),
        None => draft.outcome,
    }
}

/// Whether the engine can accept a text.
pub open spec fn accepts<E: Fn(&EngineCheck) -> Option<String>>(engine: E, check: CheckModel) -> bool {
    exists|asked: EngineCheck, said: Option<String>| #[trigger]
        call_ensures(engine, (&asked,), said) && asked@ == check && said is None
}

/// Whether the engine can refuse a text with a message.
pub open spec fn refuses<E: Fn(&EngineCheck) -> Option<String>>(
    engine: E,
    check: CheckModel,
    message: Seq<char>,
) -> bool {
    exists|asked: EngineCheck, said: Option<String>| #[trigger]
        call_ensures(engine, (&asked,), said) && asked@ == check && optional_text(said) == Some(message)
}

/// Whether the engine, asked of one text after the other, can refuse the first that it
/// refuses with a message, or accept each.
pub open spec fn engine_says<E: Fn(&EngineCheck) -> Option<String>>(
    engine: E,
    checks: Seq<CheckModel>,
    refusal: Option<Seq<char>>,
) -> bool {
    match refusal {
        Some(message) => exists|k: int|
            0 <= k < checks.len() && refuses(engine, #[trigger] checks[k], message) && accepts_all(
                engine,
                checks.take(k),
            ),
        None => accepts_all(engine, checks),
    }
}

/// Whether the engine can accept each text.
pub open spec fn accepts_all<E: Fn(&EngineCheck) -> Option<String>>(engine: E, checks: Seq<CheckModel>) -> bool {
    forall|i: int| 0 <= i < checks.len() ==> accepts(engine, #[trigger] checks[i])
}

/// Generates the configuration of a client. The engine is asked of each text of it, in
/// order, and says why it refuses one, if it does.
pub fn generate_client_config<E: Fn(&EngineCheck) -> Option<String>>(
    profile: &Profile,
    root: &str,
    engine: E,
) -> (result: Result<GeneratedClient, ProfileError>)
    requires
        forall|check: &EngineCheck| #[trigger] call_requires(engine, (check,)),
    ensures
        exists|refusal: Option<Seq<char>>| #[trigger]
            engine_says(engine, client_draft(profile@, root@).checks, refusal) && outcome_model(result) == settled(
                client_draft(profile@, root@),
                refusal,
            ),
        result is Ok ==> profile@.valid() && absolute(root@) && fits_client(profile@, root@),
        result matches Ok(client) ==> client_draft(profile@, root@).outcome == Ok::<ClientModel, ErrorModel>(client@)
            && texts_say(profile@, root@, client_draft(profile@, root@).checks),
        result matches Err(error) ==> match error {
            ProfileError::Value => !profile@.valid() || (absolute(root@) && !fits_client(profile@, root@)),
            ProfileError::Path => profile@.valid() && !absolute(root@),
            ProfileError::Generated(message) => profile@.valid() && absolute(root@) && engine_says(
                engine,
                client_draft(profile@, root@).checks,
                Some(message@),
            ),
            _ => false,
        },
{
    let draft = draft_client_config(profile, root);
    let ghost model = client_draft(profile@, root@);
    let mut refusal: Option<String> = None;
    let mut i: usize = 0;
    while i < draft.checks.len() && refusal.is_none()
        invariant
            i <= draft.checks.len(),
            draft@ == model,
            forall|check: &EngineCheck| #[trigger] call_requires(engine, (check,)),
            refusal is None ==> accepts_all(engine, model.checks.take(i as int)),
            refusal is Some ==> engine_says(engine, model.checks, optional_text(refusal)) && model.checks.len() > 0,
        decreases draft.checks.len() - i,
    {
        let said: Option<String> = engine(&draft.checks[i]);
        proof {
            let check = model.checks[i as int];
            assert(draft.checks@[i as int]@ == check);
            assert(call_ensures(engine, (&draft.checks@[i as int],), said));
            if said is None {
                assert(accepts(engine, check));
                assert forall|j: int| 0 <= j < i + 1 implies accepts(
                    engine,
                    #[trigger] model.checks.take(i + 1)[j],
                ) by {
                    if j < i {
                        assert(model.checks.take(i as int)[j] == model.checks.take(i + 1)[j]);
                    }
                }
            } else {
                assert(refuses(engine, check, optional_text(said)->0));
            }
        }
        refusal = said;
        i = i + 1;
    }
    proof {
        assert(model.checks.take(model.checks.len() as int) =~= model.checks);
        assert(engine_says(engine, model.checks, optional_text(refusal)));
    }
    settle_client_config(draft, refusal)
}

}
