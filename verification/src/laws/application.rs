//! The state of the application.
use vstd::prelude::*;

use crate::error::ErrorModel;
use crate::profile::{ModuleModel, ProfileModel};
use crate::session::{has_tunnel, CommandModel, SessionModel, StartOrigin};
use crate::state::{untrusted, ConnectionModel, ImportedModel, Screen, StateModel, StatusModel};
use crate::uri::profile_of_uri;

verus! {

/// When the user connects, anything is asked for only where no package of the
/// selected profile waits for approval.
pub proof fn law_connecting_needs_approval(session: SessionModel)
    ensures
        !(session.after_connect().1 is Idle) ==> (session.state.selection() matches Some(selected)
            && selected.pending == Set::<Seq<char>>::empty()),
{
}

/// On Android, a profile with a tunnel adapter is started by the user only once the
/// platform has given a file descriptor, and never with the credential of its URI.
pub proof fn law_android_starts_with_what_the_platform_keeps(session: SessionModel)
    requires
        session.android,
    ensures
        match session.after_connect().1 {
            CommandModel::Idle => true,
            CommandModel::RequestVpn => session.vpn_fd is None,
            CommandModel::LoadCredential { profile, .. } => has_tunnel(profile.modules) ==> session.vpn_fd is Some,
            _ => false,
        },
        forall|profile: ProfileModel, origin: StartOrigin, credential: Option<Seq<char>>|
            match (#[trigger] session.after_load(profile, origin, credential)).1 {
                CommandModel::Install { profile: started, .. } => credential == Some(started.credential),
                CommandModel::Generate { profile: started, .. } => credential == Some(started.credential),
                CommandModel::Idle => true,
                _ => false,
            },
{
}

/// The packages that wait for approval after an import are those of the modules
/// that are not trusted.
pub proof fn law_untrusted_packages_wait(modules: Seq<ModuleModel>, trusted: Set<Seq<char>>)
    ensures
        forall|package: Seq<char>|
            untrusted(modules, trusted).contains(package) <==> !trusted.contains(package) && exists|i: int|
                0 <= i < modules.len() && (#[trigger] modules[i]).package == package,
    decreases modules.len(),
{
    if modules.len() > 0 {
        let rest = modules.drop_last();
        law_untrusted_packages_wait(rest, trusted);
        assert forall|package: Seq<char>|
            untrusted(modules, trusted).contains(package) <==> !trusted.contains(package) && exists|i: int|
                0 <= i < modules.len() && (#[trigger] modules[i]).package == package by {
            if exists|i: int| 0 <= i < rest.len() && (#[trigger] rest[i]).package == package {
                let i = choose|i: int| 0 <= i < rest.len() && (#[trigger] rest[i]).package == package;
                assert(modules[i].package == package);
            }
            if exists|i: int| 0 <= i < modules.len() && (#[trigger] modules[i]).package == package {
                let i = choose|i: int| 0 <= i < modules.len() && (#[trigger] modules[i]).package == package;
                if i < rest.len() {
                    assert(rest[i].package == package);
                }
            }
            if modules.last().package == package {
                assert(modules[modules.len() - 1].package == package);
            }
        }
    }
}

/// The state that the application begins with keeps what every operation keeps.
pub proof fn law_initial_state_is_well_formed()
    ensures
        StateModel::initial().well_formed(),
{
}

/// What the server said is never replaced by something older, and what it says
/// anew is not stale.
pub proof fn law_status_never_goes_back(state: StateModel, status: StatusModel)
    ensures
        state.after_status(status).status is Some,
        state.status matches Some(current) ==> state.after_status(status).status->0.revision >= current.revision,
        state.after_status(status) != state ==> !state.after_status(status).status->0.stale,
{
}

/// When the connection stops, what the server said is stale and stays otherwise as
/// it was.
pub proof fn law_stopping_makes_status_stale(state: StateModel, reason: Seq<char>)
    ensures
        state.after_stop(reason).status matches Some(status) ==> status.stale,
        match (state.status, state.after_stop(reason).status) {
            (Some(before), Some(after)) => after == (StatusModel { stale: true, ..before }),
            (None, None) => true,
            _ => false,
        },
{
}

/// The state that the application begins with has no profile, no connection and no
/// status, and is still to be drawn.
pub proof fn law_initial_state_is_empty()
    ensures
        StateModel::initial().profiles.len() == 0,
        StateModel::initial().selected is None,
        StateModel::initial().connection is Disconnected,
        StateModel::initial().status is None,
        StateModel::initial().screen == Screen::Profiles,
        StateModel::initial().repaint,
{
}

/// The profile that is selected is the one at the index that was selected, and none
/// where there is no such profile.
pub proof fn law_selection_is_at_the_index(state: StateModel)
    ensures
        forall|i: int|
            0 <= i < state.profiles.len() && state.selected == Some(i as usize) && i <= usize::MAX
                ==> state.selection() == Some(#[trigger] state.profiles[i]),
        state.selected is None ==> state.selection() is None,
        state.selected matches Some(index) ==> index >= state.profiles.len() ==> state.selection() is None,
{
}

/// A server has a profile where one of the profiles is of that server.
pub proof fn law_servers_are_those_of_the_profiles(state: StateModel, server_id: Seq<char>)
    ensures
        state.has_server(server_id) <==> state.profiles.map_values(
            |imported: ImportedModel| imported.profile.server_id,
        ).contains(server_id),
{
    let servers = state.profiles.map_values(|imported: ImportedModel| imported.profile.server_id);
    if state.has_server(server_id) {
        let i = choose|i: int|
            0 <= i < state.profiles.len() && (#[trigger] state.profiles[i]).profile.server_id == server_id;
        assert(servers[i] == server_id);
    }
    if servers.contains(server_id) {
        let i = choose|i: int| 0 <= i < servers.len() && servers[i] == server_id;
        assert(state.profiles[i].profile.server_id == server_id);
    }
}

/// An import adds one profile, at the end, and selects it; the others stay as they
/// are, and so does the connection. The packages of the new profile wait for
/// approval unless they are trusted.
pub proof fn law_imports_add_one_profile(
    state: StateModel,
    profile: ProfileModel,
    source: Seq<char>,
    trusted: Set<Seq<char>>,
)
    requires
        state.profiles.len() <= usize::MAX,
    ensures
        ({
            let after = state.imported(profile, source, trusted);
            let added = after.profiles[state.profiles.len() as int];
            &&& after.profiles.len() == state.profiles.len() + 1
            &&& after.selected matches Some(index) && index == state.profiles.len()
            &&& after.repaint
            &&& added.profile == profile
            &&& added.source == source
            &&& forall|package: Seq<char>| #[trigger]
                added.pending.contains(package) <==> !trusted.contains(package) && exists|i: int|
                    0 <= i < profile.modules.len() && (#[trigger] profile.modules[i]).package == package
            &&& forall|i: int| 0 <= i < state.profiles.len() ==> #[trigger] after.profiles[i] == state.profiles[i]
            &&& after.screen == state.screen
            &&& after.connection == state.connection
            &&& after.status == state.status
        }),
{
    law_untrusted_packages_wait(profile.modules, trusted);
}

/// After a package of the selected profile was approved, each other package waits
/// for approval exactly where it did before, and this one does not. Nothing else of
/// the state changes.
pub proof fn law_approval_is_of_one_package(state: StateModel, index: usize, package: Seq<char>)
    requires
        state.selected == Some(index),
        index < state.profiles.len(),
        state.profiles[index as int].pending.contains(package),
    ensures
        ({
            let after = state.approved(package);
            let before = state.profiles[index as int];
            &&& after.selected == Some(index)
            &&& after.profiles.len() == state.profiles.len()
            &&& forall|other: Seq<char>| #[trigger]
                after.profiles[index as int].pending.contains(other) <==> before.pending.contains(other) && other
                    != package
            &&& forall|other: Seq<char>| #[trigger]
                after.selection()->0.pending.contains(other) <==> state.selection()->0.pending.contains(other) && other
                    != package
            &&& after.profiles[index as int].profile == before.profile
            &&& after.profiles[index as int].source == before.source
            &&& forall|i: int|
                0 <= i < state.profiles.len() && i != index ==> #[trigger] after.profiles[i] == state.profiles[i]
            &&& after.repaint
            &&& after.screen == state.screen
            &&& after.connection == state.connection
            &&& after.status == state.status
        }),
{
}

/// Packages can be approved in any order.
pub proof fn law_approvals_commute(state: StateModel, index: usize, first: Seq<char>, second: Seq<char>)
    requires
        state.selected == Some(index),
        index < state.profiles.len(),
    ensures
        state.approved(first).approved(second) == state.approved(second).approved(first),
{
    let left = state.approved(first).approved(second);
    let right = state.approved(second).approved(first);
    assert(left.profiles[index as int].pending =~= right.profiles[index as int].pending);
    assert(left.profiles =~= right.profiles);
}

/// What the server says is taken over in each field, and is not stale, unless it is
/// older than what it said before: that changes nothing. Nothing but the status
/// changes.
pub proof fn law_status_is_what_the_server_says(state: StateModel, given: StatusModel)
    ensures
        ({
            let after = state.after_status(given);
            &&& (state.status matches Some(current) ==> current.revision <= given.revision) ==> {
                &&& after.status == Some(StatusModel { stale: false, ..given })
                &&& after.status matches Some(taken) && {
                    &&& taken.used_bytes == given.used_bytes
                    &&& taken.limit_bytes == given.limit_bytes
                    &&& taken.upload_bytes_per_second == given.upload_bytes_per_second
                    &&& taken.download_bytes_per_second == given.download_bytes_per_second
                    &&& taken.expires_at == given.expires_at
                    &&& taken.revision == given.revision
                    &&& taken.reason == given.reason
                    &&& !taken.stale
                }
                &&& after.repaint
            }
            &&& (state.status matches Some(current) && current.revision > given.revision) ==> after == state
            &&& after.screen == state.screen
            &&& after.profiles == state.profiles
            &&& after.selected == state.selected
            &&& after.connection == state.connection
        }),
{
}

/// Of two things that the server says, the newer one counts, whichever came first.
pub proof fn law_newer_status_counts(state: StateModel, older: StatusModel, newer: StatusModel)
    requires
        older.revision < newer.revision,
    ensures
        state.after_status(newer).after_status(older).status == state.after_status(newer).status,
        state.after_status(older).after_status(newer).status == state.after_status(newer).status,
{
}

/// When the connection comes to stand in another way, nothing else changes; when it
/// stops, nothing else does but that the status is stale.
pub proof fn law_connection_changes_alone(state: StateModel, connection: ConnectionModel, reason: Seq<char>)
    ensures
        state.with_connection(connection).connection == connection,
        state.with_connection(connection).repaint,
        state.with_connection(connection).status == state.status,
        state.with_connection(connection).profiles == state.profiles,
        state.with_connection(connection).selected == state.selected,
        state.with_connection(connection).screen == state.screen,
        state.after_stop(reason).connection == ConnectionModel::Stopped(reason),
        state.after_stop(reason).repaint,
        state.after_stop(reason).profiles == state.profiles,
        state.after_stop(reason).selected == state.selected,
        state.after_stop(reason).screen == state.screen,
{
}

/// What is marked as stale stays otherwise as it was, and marking it again changes
/// nothing more.
pub proof fn law_stale_status_is_otherwise_the_same(state: StateModel)
    ensures
        ({
            let after = state.marked_stale();
            &&& (after.status is Some <==> state.status is Some)
            &&& state.status matches Some(before) ==> after.status == Some(StatusModel { stale: true, ..before })
            &&& state.status is Some ==> after.repaint
            &&& state.status is None ==> after == state
            &&& after.profiles == state.profiles
            &&& after.selected == state.selected
            &&& after.connection == state.connection
            &&& after.screen == state.screen
            &&& after.marked_stale() == after
        }),
{
}

/// An import adds the profile of the URI where it carries one and none of the profiles
/// is of the same server; otherwise it says why not, and changes nothing.
pub proof fn law_imports_are_of_new_servers(
    state: StateModel,
    uri: Seq<char>,
    source: Seq<char>,
    trusted: Set<Seq<char>>,
)
    ensures
        match profile_of_uri(uri) {
            Err(error) => state.import_error(uri) == Some(error) && state.after_import(uri, source, trusted) == state,
            Ok(profile) => if exists|i: int|
                0 <= i < state.profiles.len() && (#[trigger] state.profiles[i]).profile.server_id
                    == profile.server_id {
                state.import_error(uri) == Some(ErrorModel::DuplicateServer) && state.after_import(
                    uri,
                    source,
                    trusted,
                ) == state
            } else {
                let after = state.after_import(uri, source, trusted);
                &&& state.import_error(uri) is None
                &&& after.profiles.len() == state.profiles.len() + 1
                &&& after.profiles.last().profile == profile
                &&& after.profiles.last().source == source
                &&& after.profiles.drop_last() == state.profiles
                &&& state.profiles.len() <= usize::MAX ==> after.selected == Some(state.profiles.len() as usize)
                &&& forall|package: Seq<char>| #[trigger]
                    after.profiles.last().pending.contains(package) ==> !trusted.contains(package)
            }
        },
{
    if let Ok(profile) = profile_of_uri(uri) {
        law_untrusted_packages_wait(profile.modules, trusted);
        if state.import_error(uri) is None {
            let after = state.after_import(uri, source, trusted);
            assert(after.profiles.drop_last() =~= state.profiles);
            assert(after.profiles.last().pending == untrusted(profile.modules, trusted));
            assert forall|package: Seq<char>| #[trigger]
                after.profiles.last().pending.contains(package) implies !trusted.contains(package) by {
                assert(untrusted(profile.modules, trusted).contains(package));
            }
        }
    }
}

/// A package is approved where it waits in the profile at the selected index, and then
/// no longer waits there; otherwise it is said why not, and nothing changes.
pub proof fn law_approvals_are_of_waiting_packages(state: StateModel, package: Seq<char>)
    ensures
        ({
            let after = state.after_approval(package);
            match state.selected {
                Some(index) => if index >= state.profiles.len() {
                    state.approval_error(package) == Some(ErrorModel::Selection) && after == state
                } else if !state.profiles[index as int].pending.contains(package) {
                    state.approval_error(package) == Some(ErrorModel::PackageApproval) && after == state
                } else {
                    &&& state.approval_error(package) is None
                    &&& after.profiles[index as int].pending == state.profiles[index as int].pending.remove(package)
                    &&& after.approval_error(package) == Some(ErrorModel::PackageApproval)
                },
                None => state.approval_error(package) == Some(ErrorModel::Selection) && after == state,
            }
        }),
{
}

/// A profile is selected where there is one at the index, and the connection and its
/// status begin anew; otherwise it is said that there is none, and nothing changes.
pub proof fn law_selected_profiles_are_there(state: StateModel, index: usize)
    ensures
        ({
            let after = state.after_selection(index);
            &&& index >= state.profiles.len() ==> state.selection_error(index) == Some(ErrorModel::Selection) && after
                == state
            &&& index < state.profiles.len() ==> {
                &&& state.selection_error(index) is None
                &&& after.selected == Some(index)
                &&& after.connection is Disconnected
                &&& after.status is None
                &&& after.repaint
                &&& after.profiles == state.profiles
                &&& after.screen == state.screen
            }
        }),
{
}

/// Connecting begins where a profile is selected none of whose packages waits for
/// approval, on the screen of the connection; otherwise it is said why not, and nothing
/// changes.
pub proof fn law_connecting_begins_with_an_approved_profile(state: StateModel)
    ensures
        ({
            let after = state.after_begin();
            &&& match state.selected {
                Some(index) => if index >= state.profiles.len() {
                    state.connecting_error() == Some(ErrorModel::Selection)
                } else if exists|package: Seq<char>| state.profiles[index as int].pending.contains(package) {
                    state.connecting_error() == Some(ErrorModel::PackageApproval)
                } else {
                    state.connecting_error() is None
                },
                None => state.connecting_error() == Some(ErrorModel::Selection),
            }
            &&& state.connecting_error() is Some ==> after == state
            &&& state.connecting_error() is None ==> {
                &&& after.connection is Connecting
                &&& after.screen == Screen::Connection
                &&& after.repaint
                &&& after.profiles == state.profiles
                &&& after.selected == state.selected
                &&& after.status == state.status
            }
        }),
{
    if let Some(index) = state.selected {
        if index < state.profiles.len() {
            let pending = state.profiles[index as int].pending;
            if !(exists|package: Seq<char>| pending.contains(package)) {
                assert(pending =~= Set::<Seq<char>>::empty());
            }
        }
    }
}

/// A screen that is asked for is shown, and drawn anew where another one was; asking
/// whether the application must be drawn is answered once.
pub proof fn law_drawing_is_asked_for_once(state: StateModel, screen: Screen)
    ensures
        state.showing(screen).screen == screen,
        state.showing(screen).repaint <==> state.repaint || state.screen != screen,
        state.showing(screen).profiles == state.profiles,
        state.showing(screen).selected == state.selected,
        state.showing(screen).connection == state.connection,
        state.showing(screen).status == state.status,
        !state.drawn().repaint,
        state.drawn().screen == state.screen,
        state.drawn().profiles == state.profiles,
        state.drawn().selected == state.selected,
        state.drawn().connection == state.connection,
        state.drawn().status == state.status,
{
}

}
