//! The state of the application: its profiles, the connection and its status.
use vstd::prelude::*;

use crate::error::{ErrorModel, ProfileError};
use crate::packages::PackageSet;
use crate::profile::{module_models, ModuleModel, Profile, ProfileModel, ProfileModule};
use crate::text::same;
use crate::uri::profile_of_uri;

verus! {

/// A screen of the application.
#[derive(Clone, Copy, Debug, PartialEq, Eq, Structural)]
pub enum Screen {
    Profiles,
    Connection,
    Advanced,
}

/// How the connection stands.
#[derive(Clone, Debug, PartialEq, Eq)]
pub enum ConnectionState {
    Disconnected,
    Connecting,
    Connected,
    Denied(String),
    Stopped(String),
}

/// The model of [`ConnectionState`].
pub enum ConnectionModel {
    Disconnected,
    Connecting,
    Connected,
    Denied(Seq<char>),
    Stopped(Seq<char>),
}

impl ConnectionState {
    pub open spec fn view(&self) -> ConnectionModel {
        match self {
            ConnectionState::Disconnected => ConnectionModel::Disconnected,
            ConnectionState::Connecting => ConnectionModel::Connecting,
            ConnectionState::Connected => ConnectionModel::Connected,
            ConnectionState::Denied(reason) => ConnectionModel::Denied(reason@),
            ConnectionState::Stopped(reason) => ConnectionModel::Stopped(reason@),
        }
    }
}

/// What the server says of the client's account.
#[derive(Clone, Debug, PartialEq, Eq)]
pub struct ServerStatus {
    pub used_bytes: u64,
    pub limit_bytes: Option<u64>,
    pub upload_bytes_per_second: Option<u64>,
    pub download_bytes_per_second: Option<u64>,
    pub expires_at: Option<String>,
    pub revision: u64,
    pub reason: Option<String>,
    pub stale: bool,
}

/// The model of [`ServerStatus`].
pub struct StatusModel {
    pub used_bytes: u64,
    pub limit_bytes: Option<u64>,
    pub upload_bytes_per_second: Option<u64>,
    pub download_bytes_per_second: Option<u64>,
    pub expires_at: Option<Seq<char>>,
    pub revision: u64,
    pub reason: Option<Seq<char>>,
    pub stale: bool,
}

/// The text of a string that may be missing.
pub open spec fn optional_text(text: Option<String>) -> Option<Seq<char>> {
    match text {
        Some(text) => Some(text@),
        None => None,
    }
}

impl ServerStatus {
    pub open spec fn view(&self) -> StatusModel {
        StatusModel {
            used_bytes: self.used_bytes,
            limit_bytes: self.limit_bytes,
            upload_bytes_per_second: self.upload_bytes_per_second,
            download_bytes_per_second: self.download_bytes_per_second,
            expires_at: optional_text(self.expires_at),
            revision: self.revision,
            reason: optional_text(self.reason),
            stale: self.stale,
        }
    }
}

/// A profile that was imported, with the packages that wait for approval.
#[derive(Clone, PartialEq)]
pub struct ImportedProfile {
    pub source: String,
    pub profile: Profile,
    pub pending_packages: PackageSet,
}

/// The model of [`ImportedProfile`].
pub struct ImportedModel {
    pub source: Seq<char>,
    pub profile: ProfileModel,
    pub pending: Set<Seq<char>>,
}

impl ImportedProfile {
    pub open spec fn view(&self) -> ImportedModel {
        ImportedModel { source: self.source@, profile: self.profile@, pending: self.pending_packages@ }
    }
}

/// The models of imported profiles.
pub open spec fn imported_models(profiles: Seq<ImportedProfile>) -> Seq<ImportedModel> {
    profiles.map_values(|profile: ImportedProfile| profile@)
}

/// The state of the application.
pub struct AppState {
    pub screen: Screen,
    pub profiles: Vec<ImportedProfile>,
    pub selected: Option<usize>,
    pub connection: ConnectionState,
    pub status: Option<ServerStatus>,
    pub repaint_requested: bool,
}

/// The model of [`AppState`].
pub struct StateModel {
    pub screen: Screen,
    pub profiles: Seq<ImportedModel>,
    pub selected: Option<usize>,
    pub connection: ConnectionModel,
    pub status: Option<StatusModel>,
    pub repaint: bool,
}

/// The model of a status that may be missing.
pub open spec fn optional_status(status: Option<ServerStatus>) -> Option<StatusModel> {
    match status {
        Some(status) => Some(status@),
        None => None,
    }
}

impl StateModel {
    /// The state that the application begins with.
    pub open spec fn initial() -> StateModel {
        StateModel {
            screen: Screen::Profiles,
            profiles: Seq::empty(),
            selected: None,
            connection: ConnectionModel::Disconnected,
            status: None,
            repaint: true,
        }
    }

    /// The profile that is selected.
    pub open spec fn selection(self) -> Option<ImportedModel> {
        match self.selected {
            Some(index) => if index < self.profiles.len() {
                Some(self.profiles[index as int])
            } else {
                None
            },
            None => None,
        }
    }

    /// Whether a profile of a server was imported.
    pub open spec fn has_server(self, server_id: Seq<char>) -> bool {
        exists|i: int| 0 <= i < self.profiles.len() && (#[trigger] self.profiles[i]).profile.server_id == server_id
    }

    /// What every operation keeps: the profiles are valid and of different
    /// servers, what waits for approval are packages of theirs, and one of them is
    /// selected, where there is any.
    pub open spec fn well_formed(self) -> bool {
        &&& match self.selected {
            Some(index) => index < self.profiles.len(),
            None => self.profiles.len() == 0,
        }
        &&& forall|i: int|
            0 <= i < self.profiles.len() ==> (#[trigger] self.profiles[i]).pending.subset_of(
                packages_of(self.profiles[i].profile.modules),
            )
        &&& forall|i: int| 0 <= i < self.profiles.len() ==> (#[trigger] self.profiles[i]).profile.valid()
        &&& forall|i: int, j: int|
            0 <= i < j < self.profiles.len() ==> (#[trigger] self.profiles[i]).profile.server_id != (
            #[trigger] self.profiles[j]).profile.server_id
    }

    /// The state after a profile was imported.
    pub open spec fn imported(self, profile: ProfileModel, source: Seq<char>, trusted: Set<Seq<char>>) -> StateModel {
        StateModel {
            profiles: self.profiles.push(
                ImportedModel { source, profile, pending: untrusted(profile.modules, trusted) },
            ),
            selected: Some(self.profiles.len() as usize),
            repaint: true,
            ..self
        }
    }

    /// The state after a package of the selected profile was approved.
    pub open spec fn approved(self, package: Seq<char>) -> StateModel {
        let index = self.selected->0 as int;
        let profile = self.profiles[index];
        StateModel {
            profiles: self.profiles.update(
                index,
                ImportedModel { pending: profile.pending.remove(package), ..profile },
            ),
            repaint: true,
            ..self
        }
    }

    /// What is wrong with importing a URI, if anything is.
    pub open spec fn import_error(self, uri: Seq<char>) -> Option<ErrorModel> {
        match profile_of_uri(uri) {
            Ok(profile) => if self.has_server(profile.server_id) {
                Some(ErrorModel::DuplicateServer)
            } else {
                None
            },
            Err(error) => Some(error),
        }
    }

    /// The state after the profile of a URI was imported, or could not be.
    pub open spec fn after_import(self, uri: Seq<char>, source: Seq<char>, trusted: Set<Seq<char>>) -> StateModel {
        if self.import_error(uri) is Some {
            self
        } else {
            self.imported(profile_of_uri(uri)->Ok_0, source, trusted)
        }
    }

    /// What is wrong with approving a package, if anything is.
    pub open spec fn approval_error(self, package: Seq<char>) -> Option<ErrorModel> {
        match self.selection() {
            Some(profile) => if profile.pending.contains(package) {
                None
            } else {
                Some(ErrorModel::PackageApproval)
            },
            None => Some(ErrorModel::Selection),
        }
    }

    /// The state after a package was approved, or could not be.
    pub open spec fn after_approval(self, package: Seq<char>) -> StateModel {
        if self.approval_error(package) is Some {
            self
        } else {
            self.approved(package)
        }
    }

    /// What is wrong with selecting a profile, if anything is.
    pub open spec fn selection_error(self, index: usize) -> Option<ErrorModel> {
        if index < self.profiles.len() {
            None
        } else {
            Some(ErrorModel::Selection)
        }
    }

    /// The state after a profile was selected, or could not be.
    pub open spec fn after_selection(self, index: usize) -> StateModel {
        if self.selection_error(index) is Some {
            self
        } else {
            StateModel {
                selected: Some(index),
                status: None,
                connection: ConnectionModel::Disconnected,
                repaint: true,
                ..self
            }
        }
    }

    /// What is wrong with connecting, if anything is.
    pub open spec fn connecting_error(self) -> Option<ErrorModel> {
        match self.selection() {
            Some(profile) => if profile.pending == Set::<Seq<char>>::empty() {
                None
            } else {
                Some(ErrorModel::PackageApproval)
            },
            None => Some(ErrorModel::Selection),
        }
    }

    /// The state after connecting began, or could not.
    pub open spec fn after_begin(self) -> StateModel {
        if self.connecting_error() is Some {
            self
        } else {
            StateModel {
                connection: ConnectionModel::Connecting,
                screen: Screen::Connection,
                repaint: true,
                ..self
            }
        }
    }

    /// The state after a screen was asked for.
    pub open spec fn showing(self, screen: Screen) -> StateModel {
        if self.screen == screen {
            self
        } else {
            StateModel { screen, repaint: true, ..self }
        }
    }

    /// The state after it was asked whether the application must be drawn anew.
    pub open spec fn drawn(self) -> StateModel {
        StateModel { repaint: false, ..self }
    }

    /// The state after the connection came to stand in another way.
    pub open spec fn with_connection(self, connection: ConnectionModel) -> StateModel {
        StateModel { connection, repaint: true, ..self }
    }

    /// The state after the connection stopped: what the server said is stale.
    pub open spec fn after_stop(self, reason: Seq<char>) -> StateModel {
        StateModel {
            connection: ConnectionModel::Stopped(reason),
            status: match self.status {
                Some(status) => Some(StatusModel { stale: true, ..status }),
                None => None,
            },
            repaint: true,
            ..self
        }
    }

    /// The state after what the server said was marked as stale, if it said anything.
    pub open spec fn marked_stale(self) -> StateModel {
        match self.status {
            Some(status) => StateModel { status: Some(StatusModel { stale: true, ..status }), repaint: true, ..self },
            None => self,
        }
    }

    /// The state after the server said something: what is older than what it said
    /// before does not count.
    pub open spec fn after_status(self, status: StatusModel) -> StateModel {
        match self.status {
            Some(current) => if current.revision > status.revision {
                self
            } else {
                StateModel { status: Some(StatusModel { stale: false, ..status }), repaint: true, ..self }
            },
            None => StateModel { status: Some(StatusModel { stale: false, ..status }), repaint: true, ..self },
        }
    }
}

/// What went wrong, if anything did.
pub open spec fn error_of<T>(result: Result<T, ProfileError>) -> Option<ErrorModel> {
    match result {
        Ok(_) => None,
        Err(error) => Some(error@),
    }
}

/// The packages of modules that are not trusted.
pub open spec fn untrusted(modules: Seq<ModuleModel>, trusted: Set<Seq<char>>) -> Set<Seq<char>>
    decreases modules.len(),
{
    if modules.len() == 0 {
        Set::empty()
    } else {
        let before = untrusted(modules.drop_last(), trusted);
        if trusted.contains(modules.last().package) {
            before
        } else {
            before.insert(modules.last().package)
        }
    }
}

/// The packages of modules.
pub open spec fn packages_of(modules: Seq<ModuleModel>) -> Set<Seq<char>> {
    untrusted(modules, Set::empty())
}

/// What is not trusted of the packages of modules is among them.
proof fn lemma_untrusted_among(modules: Seq<ModuleModel>, trusted: Set<Seq<char>>)
    ensures
        untrusted(modules, trusted).subset_of(packages_of(modules)),
    decreases modules.len(),
{
    if modules.len() > 0 {
        lemma_untrusted_among(modules.drop_last(), trusted);
    }
}

/// The packages of modules that are not trusted.
fn pending_of(modules: &Vec<ProfileModule>, trusted: &PackageSet) -> (pending: PackageSet)
    ensures
        pending@ == untrusted(module_models(modules@), trusted@),
{
    let ghost model = module_models(modules@);
    let mut pending = PackageSet::new();
    let mut i: usize = 0;
    while i < modules.len()
        invariant
            i <= modules.len(),
            model == module_models(modules@),
            pending@ == untrusted(model.take(i as int), trusted@),
        decreases modules.len() - i,
    {
        proof {
            assert(model.take(i + 1).drop_last() =~= model.take(i as int));
            assert(model.take(i + 1).last() == modules@[i as int]@);
        }
        if !trusted.contains(&modules[i].package) {
            pending.insert(&modules[i].package);
        }
        i = i + 1;
    }
    proof {
        assert(model.take(model.len() as int) =~= model);
    }
    pending
}

impl Default for AppState {
    fn default() -> (state: AppState)
        ensures
            state@ == StateModel::initial(),
    {
        let profiles: Vec<ImportedProfile> = Vec::new();
        assert(imported_models(profiles@) =~= Seq::<ImportedModel>::empty());
        AppState {
            screen: Screen::Profiles,
            profiles,
            selected: None,
            connection: ConnectionState::Disconnected,
            status: None,
            repaint_requested: true,
        }
    }
}

impl AppState {
    pub open spec fn view(&self) -> StateModel {
        StateModel {
            screen: self.screen,
            profiles: imported_models(self.profiles@),
            selected: self.selected,
            connection: self.connection@,
            status: optional_status(self.status),
            repaint: self.repaint_requested,
        }
    }

    /// Tells whether a profile of a server was imported.
    pub fn has_server(&self, server_id: &str) -> (found: bool)
        ensures
            found == self@.has_server(server_id@),
    {
        let ghost model = self@.profiles;
        let mut i: usize = 0;
        while i < self.profiles.len()
            invariant
                i <= self.profiles.len(),
                model == imported_models(self.profiles@),
                model == self@.profiles,
                forall|j: int| 0 <= j < i ==> (#[trigger] model[j]).profile.server_id != server_id@,
            decreases self.profiles.len() - i,
        {
            assert(model[i as int] == self.profiles@[i as int]@);
            if same(&self.profiles[i].profile.server_id, server_id) {
                assert(self@.profiles[i as int].profile.server_id == server_id@);
                return true;
            }
            i = i + 1;
        }
        false
    }

    /// Imports the profile of a URI and selects it. Its packages wait for approval,
    /// but for those that are trusted.
    pub fn import_profile(&mut self, uri: &str, source: String, trusted_packages: &PackageSet) -> (result: Result<
        usize,
        ProfileError,
    >)
        ensures
            match profile_of_uri(uri@) {
                Ok(profile) => if old(self)@.has_server(profile.server_id) {
                    result matches Err(error) && error is DuplicateServer && final(self)@ == old(self)@
                } else {
                    result == Ok::<usize, ProfileError>(old(self)@.profiles.len() as usize) && final(self)@ == old(
                        self,
                    )@.imported(profile, source@, trusted_packages@)
                },
                Err(error) => result matches Err(found) && found@ == error && final(self)@ == old(self)@,
            },
            error_of(result) == old(self)@.import_error(uri@),
            final(self)@ == old(self)@.after_import(uri@, source@, trusted_packages@),
            old(self)@.well_formed() ==> final(self)@.well_formed(),
    {
        let profile = match Profile::from_uri(uri) {
            Ok(profile) => profile,
            Err(error) => {
                return Err(error);
            },
        };
        if self.has_server(&profile.server_id) {
            return Err(ProfileError::DuplicateServer);
        }
        let pending_packages = pending_of(&profile.modules, trusted_packages);
        let index: usize = self.profiles.len();
        let imported = ImportedProfile { source, profile, pending_packages };
        self.profiles.push(imported);
        self.selected = Some(index);
        self.repaint_requested = true;
        proof {
            let before = old(self)@;
            let after = self@;
            assert(after.profiles =~= before.profiles.push(imported@));
            if before.well_formed() {
                lemma_untrusted_among(imported@.profile.modules, trusted_packages@);
                assert forall|i: int| 0 <= i < after.profiles.len() implies (
                #[trigger] after.profiles[i]).pending.subset_of(packages_of(after.profiles[i].profile.modules)) by {
                    if i < before.profiles.len() {
                        assert(after.profiles[i] == before.profiles[i]);
                    }
                }
                assert forall|i: int| 0 <= i < after.profiles.len() implies (
                #[trigger] after.profiles[i]).profile.valid() by {
                    if i < before.profiles.len() {
                        assert(before.profiles[i].profile.valid());
                    }
                }
                assert forall|i: int, j: int| 0 <= i < j < after.profiles.len() implies (
                #[trigger] after.profiles[i]).profile.server_id != (
                #[trigger] after.profiles[j]).profile.server_id by {
                    assert(after.profiles[i] == before.profiles[i]);
                    if j < before.profiles.len() {
                        assert(after.profiles[j] == before.profiles[j]);
                    }
                }
            }
        }
        Ok(index)
    }

    /// Approves a package of the selected profile that waits for approval.
    pub fn approve_package(&mut self, package: &str) -> (result: Result<(), ProfileError>)
        ensures
            match old(self)@.selection() {
                Some(profile) => if profile.pending.contains(package@) {
                    result is Ok && final(self)@ == old(self)@.approved(package@)
                } else {
                    result matches Err(error) && error is PackageApproval && final(self)@ == old(self)@
                },
                None => result matches Err(error) && error is Selection && final(self)@ == old(self)@,
            },
            error_of(result) == old(self)@.approval_error(package@),
            final(self)@ == old(self)@.after_approval(package@),
            old(self)@.well_formed() ==> final(self)@.well_formed(),
    {
        let index: usize = match self.selected {
            Some(index) => index,
            None => {
                return Err(ProfileError::Selection);
            },
        };
        if index >= self.profiles.len() {
            return Err(ProfileError::Selection);
        }
        let ghost before = self@;
        let found: bool = self.profiles[index].pending_packages.remove(package);
        if !found {
            proof {
                let profile = before.profiles[index as int];
                assert(profile.pending.remove(package@) =~= profile.pending);
                assert(self@.profiles =~= before.profiles);
            }
            return Err(ProfileError::PackageApproval);
        }
        self.repaint_requested = true;
        proof {
            assert(self@.profiles =~= before.approved(package@).profiles);
            assert forall|i: int| 0 <= i < before.profiles.len() implies (#[trigger] self@.profiles[i]).profile
                == before.profiles[i].profile && self@.profiles[i].pending.subset_of(before.profiles[i].pending) by {}
        }
        Ok(())
    }

    /// Selects a profile. The connection and its status begin anew.
    pub fn select(&mut self, index: usize) -> (result: Result<(), ProfileError>)
        ensures
            if index < old(self)@.profiles.len() {
                result is Ok && final(self)@ == (StateModel {
                    selected: Some(index),
                    status: None,
                    connection: ConnectionModel::Disconnected,
                    repaint: true,
                    ..old(self)@
                })
            } else {
                result matches Err(error) && error is Selection && final(self)@ == old(self)@
            },
            error_of(result) == old(self)@.selection_error(index),
            final(self)@ == old(self)@.after_selection(index),
            old(self)@.well_formed() ==> final(self)@.well_formed(),
    {
        if index >= self.profiles.len() {
            return Err(ProfileError::Selection);
        }
        self.selected = Some(index);
        self.status = None;
        self.connection = ConnectionState::Disconnected;
        self.repaint_requested = true;
        Ok(())
    }

    /// Begins to connect to the server of the selected profile, once none of its
    /// packages waits for approval.
    pub fn begin_connect(&mut self) -> (result: Result<(), ProfileError>)
        ensures
            match old(self)@.selection() {
                Some(profile) => if profile.pending == Set::<Seq<char>>::empty() {
                    result is Ok && final(self)@ == (StateModel {
                        connection: ConnectionModel::Connecting,
                        screen: Screen::Connection,
                        repaint: true,
                        ..old(self)@
                    })
                } else {
                    result matches Err(error) && error is PackageApproval && final(self)@ == old(self)@
                },
                None => result matches Err(error) && error is Selection && final(self)@ == old(self)@,
            },
            error_of(result) == old(self)@.connecting_error(),
            final(self)@ == old(self)@.after_begin(),
            old(self)@.well_formed() ==> final(self)@.well_formed(),
    {
        match self.selected_profile() {
            Ok(profile) => {
                if !profile.pending_packages.is_empty() {
                    return Err(ProfileError::PackageApproval);
                }
            },
            Err(error) => {
                return Err(error);
            },
        }
        self.connection = ConnectionState::Connecting;
        self.screen = Screen::Connection;
        self.repaint_requested = true;
        Ok(())
    }

    /// The connection is there.
    pub fn connected(&mut self)
        ensures
            final(self)@ == old(self)@.with_connection(ConnectionModel::Connected),
    {
        self.connection = ConnectionState::Connected;
        self.repaint_requested = true;
    }

    /// The connection was denied.
    pub fn denied(&mut self, reason: String)
        ensures
            final(self)@ == old(self)@.with_connection(ConnectionModel::Denied(reason@)),
    {
        self.connection = ConnectionState::Denied(reason);
        self.repaint_requested = true;
    }

    /// The connection stopped.
    pub fn stopped(&mut self, reason: String)
        ensures
            final(self)@ == old(self)@.after_stop(reason@),
    {
        self.connection = ConnectionState::Stopped(reason);
        self.set_stale();
        self.repaint_requested = true;
    }

    /// Marks what the server said as stale.
    fn set_stale(&mut self)
        ensures
            final(self)@ == (StateModel {
                status: match old(self)@.status {
                    Some(status) => Some(StatusModel { stale: true, ..status }),
                    None => None,
                },
                ..old(self)@
            }),
    {
        match self.status.take() {
            Some(status) => {
                let mut stale = status;
                stale.stale = true;
                self.status = Some(stale);
            },
            None => {},
        }
    }

    /// Takes over what the server says, unless it is older than what it said before.
    pub fn apply_status(&mut self, status: ServerStatus)
        ensures
            final(self)@ == old(self)@.after_status(status@),
    {
        let older: bool = match &self.status {
            Some(current) => current.revision > status.revision,
            None => false,
        };
        if older {
            return;
        }
        let mut fresh = status;
        fresh.stale = false;
        self.status = Some(fresh);
        self.repaint_requested = true;
    }

    /// Marks what the server said, if anything, as stale.
    pub fn mark_stale(&mut self)
        ensures
            final(self)@ == match old(self)@.status {
                Some(status) => StateModel {
                    status: Some(StatusModel { stale: true, ..status }),
                    repaint: true,
                    ..old(self)@
                },
                None => old(self)@,
            },
            final(self)@ == old(self)@.marked_stale(),
    {
        if self.status.is_some() {
            self.set_stale();
            self.repaint_requested = true;
        }
    }

    /// Shows a screen.
    pub fn set_screen(&mut self, screen: Screen)
        ensures
            final(self)@ == if old(self)@.screen == screen {
                old(self)@
            } else {
                StateModel { screen, repaint: true, ..old(self)@ }
            },
            final(self)@ == old(self)@.showing(screen),
    {
        if self.screen != screen {
            self.screen = screen;
            self.repaint_requested = true;
        }
    }

    /// Tells whether the application must be drawn anew since this was last asked.
    pub fn take_repaint_request(&mut self) -> (requested: bool)
        ensures
            requested == old(self)@.repaint,
            final(self)@ == (StateModel { repaint: false, ..old(self)@ }),
            final(self)@ == old(self)@.drawn(),
    {
        let requested: bool = self.repaint_requested;
        self.repaint_requested = false;
        requested
    }

    /// The profile that is selected.
    pub fn selected_profile(&self) -> (result: Result<&ImportedProfile, ProfileError>)
        ensures
            match result {
                Ok(profile) => self@.selection() == Some(profile@),
                Err(error) => self@.selection() is None && error is Selection,
            },
    {
        match self.selected {
            Some(index) => if index < self.profiles.len() {
                Ok(&self.profiles[index])
            } else {
                Err(ProfileError::Selection)
            },
            None => Err(ProfileError::Selection),
        }
    }
}

}
