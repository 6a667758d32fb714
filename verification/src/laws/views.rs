//! What the models of values tell of them: each field.
use vstd::prelude::*;

use crate::atomic::{AtomicPlan, FilePlan, FileStep, StepModel};
use crate::client::{ClientDraft, EngineCheck, GeneratedClient, GeneratedFile};
use crate::deploy::PlannedWrite;
use crate::error::{ErrorModel, ProfileError};
use crate::install::{ActionModel, BundledModule, InstallAction, InstallStage, Installation, StageModel};
use crate::profile::{Profile, ProfileModule, ProvisionProfile};
use crate::session::{Command, CommandModel, Session};
use crate::state::{AppState, ConnectionModel, ConnectionState, ImportedProfile, ServerStatus};

verus! {

/// The model of a profile, with its credential or without, and that of a module tell
/// each of their fields.
pub proof fn law_profiles_are_told_by_their_fields(
    profile: Profile,
    provision: ProvisionProfile,
    module: ProfileModule,
    index: int,
)
    ensures
        module@.instance == module.instance@,
        module@.package == module.package@,
        module@.class == module.class,
        module@.options == module.options@,
        profile@.wire_version == profile.wire_version,
        profile@.server_id == profile.server_id@,
        profile@.endpoint == profile.endpoint@,
        profile@.server_pin == profile.server_pin@,
        profile@.credential == profile.credential@,
        profile@.modules.len() == profile.modules@.len(),
        0 <= index < profile.modules@.len() ==> profile@.modules[index] == profile.modules@[index]@,
        provision@.wire_version == provision.wire_version,
        provision@.server_id == provision.server_id@,
        provision@.endpoint == provision.endpoint@,
        provision@.server_pin == provision.server_pin@,
        provision@.modules.len() == provision.modules@.len(),
        0 <= index < provision.modules@.len() ==> provision@.modules[index] == provision.modules@[index]@,
{
}

/// The model of what the server says tells each of its fields.
pub proof fn law_status_is_told_by_its_fields(status: ServerStatus)
    ensures
        status@.used_bytes == status.used_bytes,
        status@.limit_bytes == status.limit_bytes,
        status@.upload_bytes_per_second == status.upload_bytes_per_second,
        status@.download_bytes_per_second == status.download_bytes_per_second,
        status@.revision == status.revision,
        status@.stale == status.stale,
        status.expires_at is None <==> status@.expires_at is None,
        status.expires_at matches Some(time) ==> status@.expires_at == Some(time@),
        status.reason is None <==> status@.reason is None,
        status.reason matches Some(reason) ==> status@.reason == Some(reason@),
{
}

/// The model of the state tells its screen, its profiles in their order, which is
/// selected, the connection with its reason, and the status.
pub proof fn law_state_is_told_by_its_fields(
    state: AppState,
    imported: ImportedProfile,
    connection: ConnectionState,
    index: int,
)
    ensures
        state@.screen == state.screen,
        state@.selected == state.selected,
        state@.repaint == state.repaint_requested,
        state@.connection == state.connection@,
        state@.profiles.len() == state.profiles@.len(),
        0 <= index < state.profiles@.len() ==> state@.profiles[index] == state.profiles@[index]@,
        state.status is None <==> state@.status is None,
        state.status matches Some(status) ==> state@.status == Some(status@),
        imported@.source == imported.source@,
        imported@.profile == imported.profile@,
        imported@.pending == imported.pending_packages@,
        connection is Disconnected <==> connection@ is Disconnected,
        connection is Connecting <==> connection@ is Connecting,
        connection is Connected <==> connection@ is Connected,
        connection matches ConnectionState::Denied(reason) ==> connection@ == ConnectionModel::Denied(reason@),
        connection matches ConnectionState::Stopped(reason) ==> connection@ == ConnectionModel::Stopped(reason@),
{
}

/// The model of what is generated for a client, and of what the engine is asked, tell
/// each of their fields.
pub proof fn law_clients_are_told_by_their_fields(
    client: GeneratedClient,
    file: GeneratedFile,
    check: EngineCheck,
    draft: ClientDraft,
    write: PlannedWrite,
    index: int,
)
    ensures
        file@.path == file.path@,
        file@.contents == file.contents@,
        file@.secret == file.secret,
        client@.main_path == client.main_path@,
        client@.main_toml == client.main_toml@,
        client@.files.len() == client.files@.len(),
        0 <= index < client.files@.len() ==> client@.files[index] == client.files@[index]@,
        check@.path == check.path@,
        check@.text == check.text@,
        check@.main == check.main,
        draft@.checks.len() == draft.checks@.len(),
        0 <= index < draft.checks@.len() ==> draft@.checks[index] == draft.checks@[index]@,
        match draft.outcome {
            Ok(client) => draft@.outcome matches Ok(model) && model == client@,
            Err(error) => draft@.outcome matches Err(model) && model == error@,
        },
        write@.path == write.path@,
        write@.contents == write.contents@,
        write@.mode == write.mode,
{
}

/// The model of an installation, of its modules and of what it does tell each of their
/// fields.
pub proof fn law_installations_are_told_by_their_fields(
    installation: Installation,
    module: BundledModule,
    stage: InstallStage,
    action: InstallAction,
    index: int,
)
    ensures
        module@.package == module.package@,
        module@.owner == module.owner@,
        module@.name == module.name@,
        module@.version == module.version@,
        module@.library == module.library@,
        module@.source == module.source@,
        installation@.root == installation.root@,
        installation@.target == installation.target@,
        installation@.index == installation.index,
        installation@.stage == installation.stage@,
        installation@.modules.len() == installation.modules@.len(),
        0 <= index < installation.modules@.len() ==> installation@.modules[index] == installation.modules@[index]@,
        stage is Directory <==> stage@ is Directory,
        stage is Source <==> stage@ is Source,
        stage matches InstallStage::Library(hash) ==> stage@ == StageModel::Library(hash@),
        stage matches InstallStage::Copy(hash) ==> stage@ == StageModel::Copy(hash@),
        stage matches InstallStage::Lock(hash) ==> stage@ == StageModel::Lock(hash@),
        action matches InstallAction::MakeDirectory { path, mode } ==> action@ == (ActionModel::MakeDirectory {
            path: path@,
            mode,
        }),
        action matches InstallAction::ReadSource(path) ==> action@ == ActionModel::ReadSource(path@),
        action matches InstallAction::ReadLibrary(path) ==> action@ == ActionModel::ReadLibrary(path@),
        action matches InstallAction::CopyLibrary { source, library, mode } ==> action@ == (ActionModel::CopyLibrary {
            source: source@,
            library: library@,
            mode,
        }),
        action matches InstallAction::WriteLock { path, contents, mode } ==> action@ == (ActionModel::WriteLock {
            path: path@,
            contents: contents@,
            mode,
        }),
        action is Finished <==> action@ is Finished,
{
}

/// The model of how a file is written tells each of its steps.
pub proof fn law_plans_are_told_by_their_steps(plan: AtomicPlan, file: FilePlan, step: FileStep, index: int)
    ensures
        plan@.directory == plan.directory@,
        plan@.directory_mode == plan.directory_mode,
        match plan.file {
            Ok(file) => plan@.file matches Ok(model) && model == file@,
            Err(error) => plan@.file matches Err(model) && model == error@,
        },
        file@.temporary == file.temporary@,
        file@.steps.len() == file.steps@.len(),
        0 <= index < file.steps@.len() ==> file@.steps[index] == file.steps@[index]@,
        file@.on_failure.len() == file.on_failure@.len(),
        0 <= index < file.on_failure@.len() ==> file@.on_failure[index] == file.on_failure@[index]@,
        step matches FileStep::OpenSource(path) ==> step@ == StepModel::OpenSource(path@),
        step matches FileStep::CreateNew(path) ==> step@ == StepModel::CreateNew(path@),
        step matches FileStep::SetMode(path, mode) ==> step@ == StepModel::SetMode(path@, mode),
        step is WriteContents <==> step@ is WriteContents,
        step is CopyContents <==> step@ is CopyContents,
        step is SyncFile <==> step@ is SyncFile,
        step matches FileStep::Rename(from, to) ==> step@ == StepModel::Rename(from@, to@),
        step matches FileStep::SyncDirectory(path) ==> step@ == StepModel::SyncDirectory(path@),
        step matches FileStep::Remove(path) ==> step@ == StepModel::Remove(path@),
{
}

/// The model of a session tells each of its fields.
pub proof fn law_sessions_are_told_by_their_fields(session: Session)
    ensures
        session@.state == session.state@,
        session@.import_uri == session.draft.import_uri@,
        session@.advanced_config == session.draft.advanced_config@,
        session@.android == session.platform.android,
        session@.vpn_fd == session.vpn_fd,
        session@.root == session.root@,
        session.platform.native_library_directory is None <==> session@.libraries is None,
        session.platform.native_library_directory matches Some(directory) ==> session@.libraries == Some(directory@),
{
}

/// The model of what a session asks for tells what it is, and what with.
pub proof fn law_commands_are_told_by_their_fields(command: Command, index: int)
    ensures
        command is Idle <==> command@ is Idle,
        command is RequestVpn <==> command@ is RequestVpn,
        command is Shutdown <==> command@ is Shutdown,
        command matches Command::StoreCredential { server_id, credential, uri } ==> command@ == (
        CommandModel::StoreCredential { server_id: server_id@, credential: credential@, uri: uri@ }),
        command matches Command::WriteProfile { uri, path, contents } ==> command@ == (CommandModel::WriteProfile {
            uri: uri@,
            path: path@,
            contents: contents@,
        }),
        command matches Command::LoadCredential { starting } ==> command@ == (CommandModel::LoadCredential {
            profile: starting.profile@,
            origin: starting.origin,
        }),
        command matches Command::Install { starting, directory } ==> command@ == (CommandModel::Install {
            profile: starting.profile@,
            origin: starting.origin,
            directory: directory@,
        }),
        command matches Command::Generate { starting } ==> command@ == (CommandModel::Generate {
            profile: starting.profile@,
            origin: starting.origin,
        }),
        command matches Command::Persist { generated, origin } ==> command@ == (CommandModel::Persist {
            client: generated@,
            origin,
        }),
        command matches Command::Launch { main, cleanup, origin } ==> {
            &&& command@ matches CommandModel::Launch { main: path, cleanup: paths, origin: carried }
            &&& path == main@
            &&& carried == origin
            &&& paths.len() == cleanup@.len()
            &&& 0 <= index < cleanup@.len() ==> paths[index] == cleanup@[index]@
        },
        command matches Command::Signal(signal) ==> command@ == CommandModel::Signal(signal),
{
}

/// The model of an error tells which it is, and its detail.
pub proof fn law_errors_are_told_apart(error: ProfileError)
    ensures
        error is Size <==> error@ is Size,
        error is Scheme <==> error@ is Scheme,
        error is Base64 <==> error@ is Base64,
        error is Utf8 <==> error@ is Utf8,
        error matches ProfileError::Toml(detail) ==> error@ == ErrorModel::Toml(detail@),
        error matches ProfileError::TomlEncode(detail) ==> error@ == ErrorModel::TomlEncode(detail@),
        error is Value <==> error@ is Value,
        error is Subscription <==> error@ is Subscription,
        error matches ProfileError::Network(detail) ==> error@ == ErrorModel::Network(detail@),
        error matches ProfileError::Io(detail) ==> error@ == ErrorModel::Io(detail@),
        error is Path <==> error@ is Path,
        error matches ProfileError::Generated(detail) ==> error@ == ErrorModel::Generated(detail@),
        error is DuplicateServer <==> error@ is DuplicateServer,
        error is Selection <==> error@ is Selection,
        error is PackageApproval <==> error@ is PackageApproval,
        error is BundledModule <==> error@ is BundledModule,
        error is Random <==> error@ is Random,
        error is Provisioning <==> error@ is Provisioning,
        error is ControlResponse <==> error@ is ControlResponse,
{
}

}
