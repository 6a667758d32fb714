//! The session of the application: what it does next, after what the user did and
//! what the platform, the engine and the disk answered.
use vstd::prelude::*;

use crate::client::{file_models, ClientModel, FileModel, GeneratedClient};
use crate::error::{ErrorModel, ProfileError};
use crate::packages::PackageSet;
use crate::paths::{child, child_path};
use crate::profile::{
    module_models, ModuleClass, ModuleModel, Profile, ProfileModel, ProfileModule, ProvisionModel, ProvisionProfile,
};
use crate::secret::Secret;
use crate::state::{optional_text, AppState, ConnectionModel, ConnectionState, Screen, StateModel};
use crate::subscription::MAX_SUBSCRIPTION_PROFILES;
use crate::text::{chars_end_with, join, starts_with, text_views, to_chars};
use crate::ui::{UiAction, UiDraft};
use crate::uri::{profile_of_uri, text_of_provision, uri_of_profile};
use crate::value::{put, OptionValue, ValueModel};

verus! {

/// Something that the platform says.
#[derive(Clone, Copy, Debug, PartialEq, Eq, Structural)]
pub enum NativeEvent {
    VpnReady(i32),
    VpnPermissionRevoked,
    NetworkChanged,
}

/// Something that the event loop of the application is woken by.
#[derive(Clone, Copy, Debug, PartialEq, Eq, Structural)]
pub enum UserEvent {
    /// The application is to be drawn after so many nanoseconds.
    Repaint(u128),
    /// The engine said something.
    Runtime,
    /// The platform said something.
    Platform(NativeEvent),
}

/// What the event loop does when it is woken.
#[derive(Clone, Copy, Debug, PartialEq, Eq, Structural)]
pub enum Reaction {
    /// The application is drawn, and the loop waits for the next event.
    Redraw,
    /// The loop waits for so many nanoseconds.
    WaitFor(u128),
    /// What the engine said is taken over.
    DrainEngine,
    /// What the platform said is taken over.
    Platform(NativeEvent),
}

/// What the event loop does when it is woken.
pub open spec fn reaction_to(event: UserEvent) -> Reaction {
    match event {
        UserEvent::Repaint(delay) => if delay == 0 {
            Reaction::Redraw
        } else {
            Reaction::WaitFor(delay)
        },
        UserEvent::Runtime => Reaction::DrainEngine,
        UserEvent::Platform(event) => Reaction::Platform(event),
    }
}

/// Decides what the event loop does when it is woken.
pub fn react(event: UserEvent) -> (reaction: Reaction)
    ensures
        reaction == reaction_to(event),
        reaction == match event {
            UserEvent::Repaint(delay) => if delay == 0 {
                Reaction::Redraw
            } else {
                Reaction::WaitFor(delay)
            },
            UserEvent::Runtime => Reaction::DrainEngine,
            UserEvent::Platform(event) => Reaction::Platform(event),
        },
{
    match event {
        UserEvent::Repaint(delay) => if delay == 0 {
            Reaction::Redraw
        } else {
            Reaction::WaitFor(delay)
        },
        UserEvent::Runtime => Reaction::DrainEngine,
        UserEvent::Platform(event) => Reaction::Platform(event),
    }
}

/// The platform that the application runs on.
#[derive(Debug, PartialEq, Eq)]
pub struct PlatformHooks {
    pub android: bool,
    /// Where the libraries that come with the application are, if any do.
    pub native_library_directory: Option<String>,
}

impl PlatformHooks {
    /// A desktop.
    pub fn desktop() -> (platform: PlatformHooks)
        ensures
            !platform.android,
            platform.native_library_directory is None,
    {
        PlatformHooks { android: false, native_library_directory: None }
    }

    /// A device that runs Android.
    pub fn android(native_library_directory: String) -> (platform: PlatformHooks)
        ensures
            platform.android,
            platform.native_library_directory == Some(native_library_directory),
    {
        PlatformHooks { android: true, native_library_directory: Some(native_library_directory) }
    }
}

/// Something that the engine says.
#[derive(Debug, PartialEq, Eq)]
pub enum EngineEvent {
    Starting,
    Ready,
    Running,
    Stopped,
    EngineFailed,
    ModuleError(String),
    Failed(String),
    Other,
}

/// Why the engine is started, which decides how a failure is shown.
#[derive(Clone, Copy, Debug, PartialEq, Eq, Structural)]
pub enum StartOrigin {
    /// The user asked for it.
    User,
    /// The platform made it possible.
    Platform,
}

/// Something that the engine is told.
#[derive(Clone, Copy, Debug, PartialEq, Eq, Structural)]
pub enum EngineSignal {
    VpnPermissionRevoked,
    NetworkChanged,
}

/// A start of the engine that is under way.
pub struct Starting {
    pub profile: Profile,
    pub origin: StartOrigin,
}

/// What the session asks to be done next.
pub enum Command {
    /// Nothing.
    Idle,
    /// The credential of a server is stored on the platform.
    StoreCredential { server_id: String, credential: Secret, uri: String },
    /// A file of a profile is written.
    WriteProfile { uri: String, path: String, contents: String },
    /// The platform is asked for a VPN.
    RequestVpn,
    /// The credential of a server is loaded from the platform.
    LoadCredential { starting: Starting },
    /// The modules that come with the application are installed.
    Install { starting: Starting, directory: String },
    /// The configuration of a client is generated.
    Generate { starting: Starting },
    /// The configuration of a client is written.
    Persist { generated: GeneratedClient, origin: StartOrigin },
    /// The engine is started with its main file, and removes files once it has read
    /// them.
    Launch { main: String, cleanup: Vec<String>, origin: StartOrigin },
    /// The engine is stopped.
    Shutdown,
    /// The engine is told something.
    Signal(EngineSignal),
}

/// The model of [`Command`].
pub enum CommandModel {
    Idle,
    StoreCredential { server_id: Seq<char>, credential: Seq<char>, uri: Seq<char> },
    WriteProfile { uri: Seq<char>, path: Seq<char>, contents: Seq<char> },
    RequestVpn,
    LoadCredential { profile: ProfileModel, origin: StartOrigin },
    Install { profile: ProfileModel, origin: StartOrigin, directory: Seq<char> },
    Generate { profile: ProfileModel, origin: StartOrigin },
    Persist { client: ClientModel, origin: StartOrigin },
    Launch { main: Seq<char>, cleanup: Seq<Seq<char>>, origin: StartOrigin },
    Shutdown,
    Signal(EngineSignal),
}

impl Command {
    pub open spec fn view(&self) -> CommandModel {
        match self {
            Command::Idle => CommandModel::Idle,
            Command::StoreCredential { server_id, credential, uri } => CommandModel::StoreCredential {
                server_id: server_id@,
                credential: credential@,
                uri: uri@,
            },
            Command::WriteProfile { uri, path, contents } => CommandModel::WriteProfile {
                uri: uri@,
                path: path@,
                contents: contents@,
            },
            Command::RequestVpn => CommandModel::RequestVpn,
            Command::LoadCredential { starting } => CommandModel::LoadCredential {
                profile: starting.profile@,
                origin: starting.origin,
            },
            Command::Install { starting, directory } => CommandModel::Install {
                profile: starting.profile@,
                origin: starting.origin,
                directory: directory@,
            },
            Command::Generate { starting } => CommandModel::Generate {
                profile: starting.profile@,
                origin: starting.origin,
            },
            Command::Persist { generated, origin } => CommandModel::Persist { client: generated@, origin: *origin },
            Command::Launch { main, cleanup, origin } => CommandModel::Launch {
                main: main@,
                cleanup: text_views(cleanup@),
                origin: *origin,
            },
            Command::Shutdown => CommandModel::Shutdown,
            Command::Signal(signal) => CommandModel::Signal(*signal),
        }
    }
}

/// The session of the application.
pub struct Session {
    pub state: AppState,
    pub draft: UiDraft,
    pub platform: PlatformHooks,
    pub vpn_fd: Option<i32>,
    pub root: String,
}

/// The model of [`Session`].
pub struct SessionModel {
    pub state: StateModel,
    pub import_uri: Seq<char>,
    pub advanced_config: Seq<char>,
    pub android: bool,
    /// Where the libraries that come with the application are, if any do.
    pub libraries: Option<Seq<char>>,
    pub vpn_fd: Option<i32>,
    pub root: Seq<char>,
}

/// How the package of a tunnel adapter begins.
pub open spec fn tunnel_prefix() -> Seq<char> {
    "owenewans/adapter-tun@"@
}

/// Whether a module is an adapter for a tunnel of the platform.
pub open spec fn is_tunnel(module: ModuleModel) -> bool {
    module.class == ModuleClass::Adapter && tunnel_prefix().is_prefix_of(module.package)
}

/// Whether one of the modules is an adapter for a tunnel of the platform.
pub open spec fn has_tunnel(modules: Seq<ModuleModel>) -> bool {
    exists|i: int| 0 <= i < modules.len() && is_tunnel(#[trigger] modules[i])
}

/// The options of a tunnel adapter that is given a file descriptor.
pub open spec fn tunnel_options(options: Seq<(Seq<char>, ValueModel)>, fd: i32) -> Seq<(Seq<char>, ValueModel)> {
    put(
        put(
            put(put(options, "mode"@, ValueModel::Text("android-fd"@)), "fd"@, ValueModel::Integer(fd as i64)),
            "mtu"@,
            ValueModel::Integer(1_280),
        ),
        "packet_queue_bytes"@,
        ValueModel::Integer(262_144),
    )
}

/// A module that is given a file descriptor, where it is a tunnel adapter.
pub open spec fn with_descriptor(module: ModuleModel, fd: i32) -> ModuleModel {
    if is_tunnel(module) {
        ModuleModel { options: tunnel_options(module.options, fd), ..module }
    } else {
        module
    }
}

/// The profile that is started: with the credential that the platform keeps, if
/// it keeps any, and with its tunnel adapters given the file descriptor, if there
/// is one.
pub open spec fn started_profile(
    android: bool,
    vpn_fd: Option<i32>,
    profile: ProfileModel,
    credential: Option<Seq<char>>,
) -> Result<ProfileModel, Seq<char>> {
    let keyed = match credential {
        Some(credential) => ProfileModel { credential, ..profile },
        None => profile,
    };
    if android && credential is None {
        Err("credential is unavailable in Android Keystore"@)
    } else if android && !keyed.valid() {
        Err(ErrorModel::Value.message())
    } else {
        let base = if android {
            keyed
        } else {
            profile
        };
        Ok(
            match vpn_fd {
                Some(fd) => ProfileModel {
                    modules: base.modules.map_values(|module: ModuleModel| with_descriptor(module, fd)),
                    ..base
                },
                None => base,
            },
        )
    }
}

impl SessionModel {
    /// The session that the application begins with.
    pub open spec fn begun(root: Seq<char>, android: bool, libraries: Option<Seq<char>>) -> SessionModel {
        SessionModel {
            state: StateModel::initial(),
            import_uri: Seq::empty(),
            advanced_config: Seq::empty(),
            android,
            libraries,
            vpn_fd: None,
            root,
        }
    }

    /// The session after the file of a profile was written, or could not be.
    pub open spec fn after_write(self, uri: Seq<char>, failure: Option<Seq<char>>) -> SessionModel {
        match failure {
            Some(reason) => self.denied(reason),
            None => self.imported(uri),
        }
    }

    /// The session after the platform was asked for a VPN, or could not be.
    pub open spec fn after_request(self, requested: bool) -> SessionModel {
        if requested {
            self
        } else {
            self.denied("VPN permission request failed"@)
        }
    }

    /// The session after the engine was launched, or could not be.
    pub open spec fn after_launch(self, origin: StartOrigin, failure: Option<Seq<char>>) -> SessionModel {
        match failure {
            Some(reason) => self.start_failed(origin, reason),
            None => self,
        }
    }

    /// The session after a profile that the platform keeps was looked for, with the
    /// credential that was found.
    pub open spec fn after_restore(self, metadata: ProvisionModel, credential: Option<Seq<char>>) -> SessionModel {
        match credential {
            Some(credential) => self.restored(metadata.with(credential)),
            None => self,
        }
    }

    /// The session after something was denied.
    pub open spec fn denied(self, reason: Seq<char>) -> SessionModel {
        SessionModel { state: self.state.with_connection(ConnectionModel::Denied(reason)), ..self }
    }

    /// The session after the connection stopped.
    pub open spec fn stopped(self, reason: Seq<char>) -> SessionModel {
        SessionModel { state: self.state.after_stop(reason), ..self }
    }

    /// The session after the profile of a URI was imported, or was refused.
    pub open spec fn imported(self, uri: Seq<char>) -> SessionModel {
        match profile_of_uri(uri) {
            Ok(profile) => if self.state.has_server(profile.server_id) {
                self.denied(ErrorModel::DuplicateServer.message())
            } else {
                SessionModel { state: self.state.imported(profile, "manual import"@, Set::empty()), ..self }
            },
            Err(error) => self.denied(error.message()),
        }
    }

    /// What follows when the user imports a URI.
    pub open spec fn after_import(self, uri: Seq<char>) -> (SessionModel, CommandModel) {
        match profile_of_uri(uri) {
            Ok(profile) => if self.android {
                if self.state.has_server(profile.server_id) {
                    (self.denied(ErrorModel::DuplicateServer.message()), CommandModel::Idle)
                } else {
                    (
                        self,
                        CommandModel::StoreCredential {
                            server_id: profile.server_id,
                            credential: profile.credential,
                            uri,
                        },
                    )
                }
            } else {
                (self.imported(uri), CommandModel::Idle)
            },
            Err(error) => (self.denied(error.message()), CommandModel::Idle),
        }
    }

    /// The session after the engine could not be started.
    pub open spec fn start_failed(self, origin: StartOrigin, reason: Seq<char>) -> SessionModel {
        match origin {
            StartOrigin::User => self.denied(reason),
            StartOrigin::Platform => self.stopped(reason),
        }
    }

    /// What follows when the engine is to be started: on Android, the credential of
    /// the profile is the one that the platform keeps.
    pub open spec fn after_start(self, profile: ProfileModel, origin: StartOrigin) -> (SessionModel, CommandModel) {
        if self.android {
            (self, CommandModel::LoadCredential { profile, origin })
        } else {
            self.after_load(profile, origin, None)
        }
    }

    /// What follows when the credential was loaded.
    pub open spec fn after_load(
        self,
        profile: ProfileModel,
        origin: StartOrigin,
        credential: Option<Seq<char>>,
    ) -> (SessionModel, CommandModel) {
        match started_profile(self.android, self.vpn_fd, profile, credential) {
            Ok(started) => match self.libraries {
                Some(directory) => (self, CommandModel::Install { profile: started, origin, directory }),
                None => (self, CommandModel::Generate { profile: started, origin }),
            },
            Err(reason) => (self.start_failed(origin, reason), CommandModel::Idle),
        }
    }

    /// What follows when the modules were installed, or were not.
    pub open spec fn after_install(
        self,
        profile: ProfileModel,
        origin: StartOrigin,
        failure: Option<Seq<char>>,
    ) -> (SessionModel, CommandModel) {
        match failure {
            Some(reason) => (self.start_failed(origin, reason), CommandModel::Idle),
            None => (self, CommandModel::Generate { profile, origin }),
        }
    }

    /// What follows when the configuration was generated, or was refused: its main
    /// file is shown before anything is written.
    pub open spec fn after_generate(
        self,
        origin: StartOrigin,
        outcome: Result<ClientModel, Seq<char>>,
    ) -> (SessionModel, CommandModel) {
        match outcome {
            Ok(client) => (
                SessionModel { advanced_config: client.main_toml, ..self },
                CommandModel::Persist { client, origin },
            ),
            Err(reason) => (self.start_failed(origin, reason), CommandModel::Idle),
        }
    }

    /// What follows when the configuration was written, or was not: the engine
    /// removes the files that hold secrets.
    pub open spec fn after_persist(
        self,
        client: ClientModel,
        origin: StartOrigin,
        outcome: Result<Seq<char>, Seq<char>>,
    ) -> (SessionModel, CommandModel) {
        match outcome {
            Ok(main) => (self, CommandModel::Launch { main, cleanup: secret_files(client.files), origin }),
            Err(reason) => (self.start_failed(origin, reason), CommandModel::Idle),
        }
    }

    /// What follows when the user connects.
    pub open spec fn after_connect(self) -> (SessionModel, CommandModel) {
        match self.state.selection() {
            Some(selected) => if selected.pending != Set::<Seq<char>>::empty() {
                (self.denied(ErrorModel::PackageApproval.message()), CommandModel::Idle)
            } else {
                let connecting = SessionModel {
                    state: StateModel {
                        connection: ConnectionModel::Connecting,
                        screen: Screen::Connection,
                        repaint: true,
                        ..self.state
                    },
                    ..self
                };
                if self.android && has_tunnel(selected.profile.modules) && self.vpn_fd is None {
                    (connecting, CommandModel::RequestVpn)
                } else {
                    connecting.after_start(selected.profile, StartOrigin::User)
                }
            },
            None => (self.denied(ErrorModel::Selection.message()), CommandModel::Idle),
        }
    }

    /// The session after the user asked for the URI of the selected profile.
    pub open spec fn exported(self) -> SessionModel {
        match self.state.selection() {
            Some(selected) => SessionModel {
                advanced_config: match uri_of_profile(selected.profile) {
                    Ok(uri) => uri,
                    Err(_) => Seq::empty(),
                },
                ..self
            },
            None => self,
        }
    }

    /// What follows what the user did.
    pub open spec fn after_action(self, action: UiAction) -> (SessionModel, CommandModel) {
        match action {
            UiAction::SetScreen(screen) => (
                SessionModel {
                    state: if self.state.screen == screen {
                        self.state
                    } else {
                        StateModel { screen, repaint: true, ..self.state }
                    },
                    ..self
                },
                CommandModel::Idle,
            ),
            UiAction::Import(uri) => self.after_import(uri@),
            UiAction::Select(index) => (
                SessionModel {
                    state: if index < self.state.profiles.len() {
                        StateModel {
                            selected: Some(index),
                            status: None,
                            connection: ConnectionModel::Disconnected,
                            repaint: true,
                            ..self.state
                        }
                    } else {
                        self.state
                    },
                    ..self
                },
                CommandModel::Idle,
            ),
            UiAction::ApprovePackage(package) => (
                SessionModel {
                    state: match self.state.selection() {
                        Some(selected) => if selected.pending.contains(package@) {
                            self.state.approved(package@)
                        } else {
                            self.state
                        },
                        None => self.state,
                    },
                    ..self
                },
                CommandModel::Idle,
            ),
            UiAction::Connect => self.after_connect(),
            UiAction::Disconnect => (self, CommandModel::Shutdown),
            UiAction::Export => (self.exported(), CommandModel::Idle),
        }
    }

    /// The file of a profile on the platform.
    pub open spec fn profile_path(self, server_id: Seq<char>) -> Seq<char> {
        child(child(self.root, "profiles"@), server_id + ".toml"@)
    }

    /// What follows when the platform has stored a credential, or has not.
    pub open spec fn after_store(self, uri: Seq<char>, stored: bool) -> (SessionModel, CommandModel) {
        match profile_of_uri(uri) {
            Ok(profile) => if !stored {
                (self.denied("Android Keystore rejected the credential"@), CommandModel::Idle)
            } else {
                match text_of_provision(profile.metadata()) {
                    Ok(contents) => (
                        self,
                        CommandModel::WriteProfile { uri, path: self.profile_path(profile.server_id), contents },
                    ),
                    Err(error) => (self.denied(error.message()), CommandModel::Idle),
                }
            },
            Err(error) => (self.denied(error.message()), CommandModel::Idle),
        }
    }

    /// What follows what the platform says.
    pub open spec fn after_platform(self, event: NativeEvent) -> (SessionModel, CommandModel) {
        match event {
            NativeEvent::VpnReady(fd) => if fd >= 0 {
                let ready = SessionModel { vpn_fd: Some(fd), ..self };
                match self.state.selection() {
                    Some(selected) => ready.after_start(selected.profile, StartOrigin::Platform),
                    None => (ready.stopped(ErrorModel::Selection.message()), CommandModel::Idle),
                }
            } else {
                self.after_revocation()
            },
            NativeEvent::VpnPermissionRevoked => self.after_revocation(),
            NativeEvent::NetworkChanged => (self, CommandModel::Signal(EngineSignal::NetworkChanged)),
        }
    }

    /// What follows when the platform takes the VPN away.
    pub open spec fn after_revocation(self) -> (SessionModel, CommandModel) {
        (
            SessionModel { vpn_fd: None, ..self }.stopped("VPN permission revoked"@),
            CommandModel::Signal(EngineSignal::VpnPermissionRevoked),
        )
    }

    /// The session after what the engine says.
    pub open spec fn after_engine(self, event: EngineEvent) -> SessionModel {
        match event {
            EngineEvent::Starting => SessionModel {
                state: StateModel { connection: ConnectionModel::Connecting, ..self.state },
                ..self
            },
            EngineEvent::Ready => self,
            EngineEvent::Running => SessionModel {
                state: self.state.with_connection(ConnectionModel::Connected),
                ..self
            },
            EngineEvent::Stopped => self.stopped("engine stopped"@),
            EngineEvent::EngineFailed => self.stopped("engine failed"@),
            EngineEvent::ModuleError(message) => self.stopped(message@),
            EngineEvent::Failed(message) => self.stopped(message@),
            EngineEvent::Other => self,
        }
    }
}

impl Session {
    pub open spec fn view(&self) -> SessionModel {
        SessionModel {
            state: self.state@,
            import_uri: self.draft.import_uri@,
            advanced_config: self.draft.advanced_config@,
            android: self.platform.android,
            libraries: optional_text(self.platform.native_library_directory),
            vpn_fd: self.vpn_fd,
            root: self.root@,
        }
    }

    /// The session that the application begins with.
    pub fn new(root: &str, platform: PlatformHooks) -> (session: Session)
        ensures
            session@ == (SessionModel {
                state: StateModel::initial(),
                import_uri: Seq::empty(),
                advanced_config: Seq::empty(),
                android: platform.android,
                libraries: optional_text(platform.native_library_directory),
                vpn_fd: None,
                root: root@,
            }),
            session@ == SessionModel::begun(
                root@,
                platform.android,
                optional_text(platform.native_library_directory),
            ),
            session.platform == platform,
    {
        Session {
            state: AppState::default(),
            draft: UiDraft::default(),
            platform,
            vpn_fd: None,
            root: root.to_owned(),
        }
    }

    /// Imports the profile of a URI, or shows why it is refused.
    fn import_now(&mut self, uri: &str)
        ensures
            final(self)@ == old(self)@.imported(uri@),
            old(self)@.state.well_formed() ==> final(self)@.state.well_formed(),
    {
        let trusted = PackageSet::new();
        match self.state.import_profile(uri, "manual import".to_owned(), &trusted) {
            Ok(_) => {},
            Err(error) => {
                self.state.denied(error.message());
            },
        }
    }

    /// Begins to import the profile of a URI.
    fn import_profile(&mut self, uri: String) -> (command: Command)
        ensures
            (final(self)@, command@) == old(self)@.after_import(uri@),
            old(self)@.state.well_formed() ==> final(self)@.state.well_formed(),
    {
        match Profile::from_uri(&uri) {
            Ok(profile) => {
                if !self.platform.android {
                    self.import_now(&uri);
                    return Command::Idle;
                }
                if self.state.has_server(&profile.server_id) {
                    self.state.denied(ProfileError::DuplicateServer.message());
                    return Command::Idle;
                }
                Command::StoreCredential {
                    server_id: profile.server_id.clone(),
                    credential: profile.credential.copy(),
                    uri,
                }
            },
            Err(error) => {
                self.state.denied(error.message());
                Command::Idle
            },
        }
    }

    /// Begins to connect.
    fn connect(&mut self) -> (command: Command)
        ensures
            (final(self)@, command@) == old(self)@.after_connect(),
            old(self)@.state.well_formed() ==> final(self)@.state.well_formed(),
    {
        match self.state.begin_connect() {
            Ok(_) => {},
            Err(error) => {
                self.state.denied(error.message());
                return Command::Idle;
            },
        }
        let profile = match self.state.selected_profile() {
            Ok(selected) => selected.profile.copy(),
            Err(error) => {
                let reason = error.message();
                self.state.denied(reason);
                return Command::Idle;
            },
        };
        if self.platform.android && uses_tunnel(&profile.modules) && self.vpn_fd.is_none() {
            Command::RequestVpn
        } else {
            self.start(profile, StartOrigin::User)
        }
    }

    /// Decides what follows what the user did.
    pub fn apply(&mut self, action: UiAction) -> (command: Command)
        ensures
            (final(self)@, command@) == old(self)@.after_action(action),
            old(self)@.state.well_formed() ==> final(self)@.state.well_formed(),
    {
        match action {
            UiAction::SetScreen(screen) => {
                self.state.set_screen(screen);
                Command::Idle
            },
            UiAction::Import(uri) => self.import_profile(uri),
            UiAction::Select(index) => {
                let _ = self.state.select(index);
                Command::Idle
            },
            UiAction::ApprovePackage(package) => {
                let _ = self.state.approve_package(&package);
                Command::Idle
            },
            UiAction::Connect => self.connect(),
            UiAction::Disconnect => Command::Shutdown,
            UiAction::Export => {
                let exported: Option<String> = match self.state.selected_profile() {
                    Ok(selected) => match selected.profile.to_uri() {
                        Ok(uri) => Some(uri),
                        Err(_) => {
                            proof {
                                reveal_strlit("");
                                assert(""@ =~= Seq::<char>::empty());
                            }
                            Some("".to_owned())
                        },
                    },
                    Err(_) => None,
                };
                match exported {
                    Some(text) => {
                        self.draft.advanced_config = text;
                    },
                    None => {},
                }
                Command::Idle
            },
        }
    }

    /// Decides what follows when the platform has stored a credential, or has not.
    pub fn credential_stored(&mut self, uri: String, stored: bool) -> (command: Command)
        ensures
            (final(self)@, command@) == old(self)@.after_store(uri@, stored),
            old(self)@.state.well_formed() ==> final(self)@.state.well_formed(),
    {
        let profile = match Profile::from_uri(&uri) {
            Ok(profile) => profile,
            Err(error) => {
                self.state.denied(error.message());
                return Command::Idle;
            },
        };
        if !stored {
            self.state.denied("Android Keystore rejected the credential".to_owned());
            return Command::Idle;
        }
        let metadata = ProvisionProfile::from_profile(&profile);
        match metadata.to_toml() {
            Ok(contents) => {
                let directory = child_path(&self.root, "profiles");
                let path = child_path(&directory, &join(&profile.server_id, ".toml"));
                Command::WriteProfile { uri, path, contents }
            },
            Err(error) => {
                self.state.denied(error.message());
                Command::Idle
            },
        }
    }

    /// Takes the import of a profile to its end, once its file was written, or was
    /// not.
    pub fn profile_written(&mut self, uri: String, failure: Option<String>)
        ensures
            final(self)@ == match failure {
                Some(reason) => old(self)@.denied(reason@),
                None => old(self)@.imported(uri@),
            },
            final(self)@ == old(self)@.after_write(uri@, optional_text(failure)),
            old(self)@.state.well_formed() ==> final(self)@.state.well_formed(),
    {
        match failure {
            Some(reason) => {
                self.state.denied(reason);
            },
            None => {
                self.import_now(&uri);
            },
        }
    }

    /// Shows that the platform refuses a VPN, where it does.
    pub fn vpn_requested(&mut self, requested: bool)
        ensures
            final(self)@ == if requested {
                old(self)@
            } else {
                old(self)@.denied("VPN permission request failed"@)
            },
            final(self)@ == old(self)@.after_request(requested),
            old(self)@.state.well_formed() ==> final(self)@.state.well_formed(),
    {
        if !requested {
            self.state.denied("VPN permission request failed".to_owned());
        }
    }

    /// Shows that the engine could not be stopped.
    pub fn shutdown_failed(&mut self, reason: String)
        ensures
            final(self)@ == old(self)@.stopped(reason@),
            old(self)@.state.well_formed() ==> final(self)@.state.well_formed(),
    {
        self.state.stopped(reason);
    }

    /// Shows that the engine could not be started.
    fn fail_start(&mut self, origin: StartOrigin, reason: String) -> (command: Command)
        ensures
            (final(self)@, command@) == (old(self)@.start_failed(origin, reason@), CommandModel::Idle),
            old(self)@.state.well_formed() ==> final(self)@.state.well_formed(),
    {
        match origin {
            StartOrigin::User => {
                self.state.denied(reason);
            },
            StartOrigin::Platform => {
                self.state.stopped(reason);
            },
        }
        Command::Idle
    }

    /// Begins to start the engine.
    fn start(&mut self, profile: Profile, origin: StartOrigin) -> (command: Command)
        ensures
            (final(self)@, command@) == old(self)@.after_start(profile@, origin),
            old(self)@.state.well_formed() ==> final(self)@.state.well_formed(),
    {
        let starting = Starting { profile, origin };
        if self.platform.android {
            Command::LoadCredential { starting }
        } else {
            self.credential_loaded(starting, None)
        }
    }

    /// Decides what follows when the credential was loaded.
    pub fn credential_loaded(&mut self, starting: Starting, credential: Option<String>) -> (command: Command)
        ensures
            (final(self)@, command@) == old(self)@.after_load(
                starting.profile@,
                starting.origin,
                optional_text(credential),
            ),
            old(self)@.state.well_formed() ==> final(self)@.state.well_formed(),
    {
        let origin = starting.origin;
        match self.prepare_start(starting.profile, credential) {
            Ok(profile) => {
                let starting = Starting { profile, origin };
                match &self.platform.native_library_directory {
                    Some(directory) => Command::Install { starting, directory: directory.clone() },
                    None => Command::Generate { starting },
                }
            },
            Err(reason) => self.fail_start(origin, reason),
        }
    }

    /// Decides what follows when the modules were installed, or were not.
    pub fn modules_installed(&mut self, starting: Starting, failure: Option<String>) -> (command: Command)
        ensures
            (final(self)@, command@) == old(self)@.after_install(
                starting.profile@,
                starting.origin,
                optional_text(failure),
            ),
            old(self)@.state.well_formed() ==> final(self)@.state.well_formed(),
    {
        match failure {
            Some(reason) => self.fail_start(starting.origin, reason),
            None => Command::Generate { starting },
        }
    }

    /// Decides what follows when the configuration was generated, or was refused.
    pub fn config_generated(&mut self, origin: StartOrigin, outcome: Result<GeneratedClient, String>) -> (command:
        Command)
        ensures
            (final(self)@, command@) == old(self)@.after_generate(
                origin,
                match outcome {
                    Ok(generated) => Ok(generated@),
                    Err(reason) => Err(reason@),
                },
            ),
            old(self)@.state.well_formed() ==> final(self)@.state.well_formed(),
    {
        match outcome {
            Ok(generated) => {
                self.draft.advanced_config = generated.main_toml.clone();
                Command::Persist { generated, origin }
            },
            Err(reason) => self.fail_start(origin, reason),
        }
    }

    /// Decides what follows when the configuration was written, or was not.
    pub fn config_written(
        &mut self,
        generated: &GeneratedClient,
        origin: StartOrigin,
        outcome: Result<String, String>,
    ) -> (command: Command)
        ensures
            (final(self)@, command@) == old(self)@.after_persist(
                generated@,
                origin,
                match outcome {
                    Ok(main) => Ok(main@),
                    Err(reason) => Err(reason@),
                },
            ),
            old(self)@.state.well_formed() ==> final(self)@.state.well_formed(),
    {
        match outcome {
            Ok(main) => Command::Launch { main, cleanup: secret_paths(generated), origin },
            Err(reason) => self.fail_start(origin, reason),
        }
    }

    /// Shows that the engine could not be started, where it could not.
    pub fn engine_launched(&mut self, origin: StartOrigin, failure: Option<String>)
        ensures
            final(self)@ == match failure {
                Some(reason) => old(self)@.start_failed(origin, reason@),
                None => old(self)@,
            },
            final(self)@ == old(self)@.after_launch(origin, optional_text(failure)),
            old(self)@.state.well_formed() ==> final(self)@.state.well_formed(),
    {
        match failure {
            Some(reason) => {
                let _ = self.fail_start(origin, reason);
            },
            None => {},
        }
    }

    /// Decides what follows what the platform says.
    pub fn platform_event(&mut self, event: NativeEvent) -> (command: Command)
        ensures
            (final(self)@, command@) == old(self)@.after_platform(event),
            old(self)@.state.well_formed() ==> final(self)@.state.well_formed(),
    {
        match event {
            NativeEvent::VpnReady(fd) => {
                if fd < 0 {
                    return self.vpn_revoked();
                }
                self.vpn_fd = Some(fd);
                let profile = match self.state.selected_profile() {
                    Ok(selected) => selected.profile.copy(),
                    Err(error) => {
                        let reason = error.message();
                        self.state.stopped(reason);
                        return Command::Idle;
                    },
                };
                self.start(profile, StartOrigin::Platform)
            },
            NativeEvent::VpnPermissionRevoked => self.vpn_revoked(),
            NativeEvent::NetworkChanged => Command::Signal(EngineSignal::NetworkChanged),
        }
    }

    /// Decides what follows when the platform takes the VPN away.
    fn vpn_revoked(&mut self) -> (command: Command)
        ensures
            (final(self)@, command@) == old(self)@.after_revocation(),
            old(self)@.state.well_formed() ==> final(self)@.state.well_formed(),
    {
        self.vpn_fd = None;
        self.state.stopped("VPN permission revoked".to_owned());
        Command::Signal(EngineSignal::VpnPermissionRevoked)
    }

    /// Takes over what the engine says.
    pub fn engine_event(&mut self, event: EngineEvent)
        ensures
            final(self)@ == old(self)@.after_engine(event),
            old(self)@.state.well_formed() ==> final(self)@.state.well_formed(),
    {
        match event {
            EngineEvent::Starting => {
                self.state.connection = ConnectionState::Connecting;
            },
            EngineEvent::Ready => {},
            EngineEvent::Running => {
                self.state.connected();
            },
            EngineEvent::Stopped => {
                self.state.stopped("engine stopped".to_owned());
            },
            EngineEvent::EngineFailed => {
                self.state.stopped("engine failed".to_owned());
            },
            EngineEvent::ModuleError(message) => {
                self.state.stopped(message);
            },
            EngineEvent::Failed(message) => {
                self.state.stopped(message);
            },
            EngineEvent::Other => {},
        }
    }
}

/// Tells whether a module is an adapter for a tunnel of the platform.
fn is_tunnel_module(module: &ProfileModule) -> (found: bool)
    ensures
        found == is_tunnel(module@),
{
    module.class == ModuleClass::Adapter && starts_with(&module.package, "owenewans/adapter-tun@")
}

/// Tells whether one of the modules is an adapter for a tunnel of the platform.
fn uses_tunnel(modules: &Vec<ProfileModule>) -> (found: bool)
    ensures
        found == has_tunnel(module_models(modules@)),
{
    let ghost model = module_models(modules@);
    let mut i: usize = 0;
    while i < modules.len()
        invariant
            i <= modules.len(),
            model == module_models(modules@),
            forall|j: int| 0 <= j < i ==> !is_tunnel(#[trigger] model[j]),
        decreases modules.len() - i,
    {
        assert(model[i as int] == modules@[i as int]@);
        if is_tunnel_module(&modules[i]) {
            return true;
        }
        i = i + 1;
    }
    false
}

/// A module that is given a file descriptor, where it is a tunnel adapter.
fn give_descriptor(module: &ProfileModule, fd: i32) -> (given: ProfileModule)
    ensures
        given@ == with_descriptor(module@, fd),
{
    let mut given = module.copy();
    if is_tunnel_module(module) {
        let mut options = given.options.copy();
        options.insert("mode", OptionValue::Text("android-fd".to_owned()));
        options.insert("fd", OptionValue::Integer(fd as i64));
        options.insert("mtu", OptionValue::Integer(1_280));
        options.insert("packet_queue_bytes", OptionValue::Integer(262_144));
        given.options = options;
    }
    given
}

/// Modules of which the tunnel adapters are given a file descriptor.
fn give_descriptors(modules: &Vec<ProfileModule>, fd: i32) -> (given: Vec<ProfileModule>)
    ensures
        module_models(given@) == module_models(modules@).map_values(
            |module: ModuleModel| with_descriptor(module, fd),
        ),
{
    let mut given: Vec<ProfileModule> = Vec::new();
    let mut i: usize = 0;
    while i < modules.len()
        invariant
            i <= modules.len(),
            given@.len() == i,
            forall|j: int| 0 <= j < i ==> (#[trigger] given@[j])@ == with_descriptor(modules@[j]@, fd),
        decreases modules.len() - i,
    {
        given.push(give_descriptor(&modules[i], fd));
        i = i + 1;
    }
    assert(module_models(given@) =~= module_models(modules@).map_values(
        |module: ModuleModel| with_descriptor(module, fd),
    ));
    given
}

impl Session {
    /// The profile that the engine is started with. On Android, the credential is
    /// the one that the platform keeps.
    pub fn prepare_start(&self, profile: Profile, credential: Option<String>) -> (result: Result<Profile, String>)
        ensures
            match result {
                Ok(started) => started_profile(
                    self@.android,
                    self@.vpn_fd,
                    profile@,
                    optional_text(credential),
                ) == Ok::<ProfileModel, Seq<char>>(started@),
                Err(reason) => started_profile(
                    self@.android,
                    self@.vpn_fd,
                    profile@,
                    optional_text(credential),
                ) == Err::<ProfileModel, Seq<char>>(reason@),
            },
    {
        let mut started = profile;
        if self.platform.android {
            match credential {
                Some(credential) => {
                    started.credential = Secret::new(credential);
                },
                None => {
                    return Err("credential is unavailable in Android Keystore".to_owned());
                },
            }
            match started.validate() {
                Ok(_) => {},
                Err(error) => {
                    return Err(error.message());
                },
            }
        }
        match self.vpn_fd {
            Some(fd) => {
                started.modules = give_descriptors(&started.modules, fd);
            },
            None => {},
        }
        Ok(started)
    }

    /// Takes a profile that the platform keeps over, where it keeps a credential for
    /// it that makes it valid.
    pub fn restore_profile(&mut self, metadata: ProvisionProfile, credential: Option<String>)
        ensures
            final(self)@ == match credential {
                Some(credential) => old(self)@.restored(metadata@.with(credential@)),
                None => old(self)@,
            },
            final(self)@ == old(self)@.after_restore(metadata@, optional_text(credential)),
            old(self)@.state.well_formed() ==> final(self)@.state.well_formed(),
    {
        let credential = match credential {
            Some(credential) => credential,
            None => {
                return;
            },
        };
        let profile = match metadata.with_secret(Secret::new(credential)) {
            Ok(profile) => profile,
            Err(_) => {
                return;
            },
        };
        let uri = match profile.to_uri() {
            Ok(uri) => uri,
            Err(_) => {
                return;
            },
        };
        let trusted = PackageSet::new();
        let _ = self.state.import_profile(&uri, "Android Keystore".to_owned(), &trusted);
    }
}

impl SessionModel {
    /// The session after a profile that the platform keeps was taken over, where it
    /// can be.
    pub open spec fn restored(self, profile: ProfileModel) -> SessionModel {
        match uri_of_profile(profile) {
            Ok(uri) => match profile_of_uri(uri) {
                Ok(read) => if self.state.has_server(read.server_id) {
                    self
                } else {
                    SessionModel { state: self.state.imported(read, "Android Keystore"@, Set::empty()), ..self }
                },
                Err(_) => self,
            },
            Err(_) => self,
        }
    }
}

/// The paths of files that hold secrets.
pub open spec fn secret_files(files: Seq<FileModel>) -> Seq<Seq<char>>
    decreases files.len(),
{
    if files.len() == 0 {
        Seq::empty()
    } else if files.last().secret {
        secret_files(files.drop_last()).push(files.last().path)
    } else {
        secret_files(files.drop_last())
    }
}

/// The paths of the files that hold secrets, which are removed once the engine has
/// read them.
pub fn secret_paths(generated: &GeneratedClient) -> (paths: Vec<String>)
    ensures
        text_views(paths@) == secret_files(generated@.files),
{
    let ghost files = generated@.files;
    let mut paths: Vec<String> = Vec::new();
    let mut i: usize = 0;
    proof {
        assert(text_views(paths@) =~= Seq::<Seq<char>>::empty());
    }
    while i < generated.files.len()
        invariant
            i <= generated.files.len(),
            files == file_models(generated.files@),
            text_views(paths@) == secret_files(files.take(i as int)),
        decreases generated.files.len() - i,
    {
        let ghost known = text_views(paths@);
        proof {
            assert(files.take(i + 1).drop_last() =~= files.take(i as int));
            assert(files.take(i + 1).last() == generated.files@[i as int]@);
        }
        if generated.files[i].secret {
            let path = generated.files[i].path.clone();
            paths.push(path);
            proof {
                assert(text_views(paths@) =~= known.push(path@));
            }
        }
        i = i + 1;
    }
    proof {
        assert(files.take(files.len() as int) =~= files);
    }
    paths
}

/// Whether the name of a file has the extension `toml`.
pub open spec fn is_toml_file(name: Seq<char>) -> bool {
    name.len() > 5 && ".toml"@.is_suffix_of(name)
}

/// How many of the files that a directory gives are looked at.
pub open spec fn looked_at(names: Seq<Seq<char>>) -> nat {
    if names.len() < MAX_SUBSCRIPTION_PROFILES {
        names.len()
    } else {
        MAX_SUBSCRIPTION_PROFILES as nat
    }
}

/// The places of the files that may hold profiles, of the first that a directory
/// gives.
pub open spec fn restorable(names: Seq<Seq<char>>, count: nat) -> Seq<usize>
    decreases count,
{
    if count == 0 {
        Seq::empty()
    } else {
        let before = restorable(names, (count - 1) as nat);
        if is_toml_file(names[count - 1]) {
            before.push((count - 1) as usize)
        } else {
            before
        }
    }
}

/// The files of a directory that may hold profiles, by their places: those with the
/// extension `toml` among as many as a subscription may hold.
pub fn restore_candidates(names: &Vec<String>) -> (candidates: Vec<usize>)
    ensures
        candidates@ == restorable(text_views(names@), looked_at(text_views(names@))),
{
    let ghost model = text_views(names@);
    let count: usize = if names.len() < MAX_SUBSCRIPTION_PROFILES {
        names.len()
    } else {
        MAX_SUBSCRIPTION_PROFILES
    };
    let mut candidates: Vec<usize> = Vec::new();
    let mut i: usize = 0;
    while i < count
        invariant
            i <= count <= names.len(),
            model == text_views(names@),
            candidates@ == restorable(model, i as nat),
        decreases count - i,
    {
        proof {
            assert(model[i as int] == names@[i as int]@);
        }
        let chars: Vec<char> = to_chars(&names[i]);
        if chars.len() > 5 && chars_end_with(&chars, ".toml") {
            candidates.push(i);
        }
        i = i + 1;
    }
    candidates
}

}
