//! What a session does with what it is told.
use vstd::prelude::*;

use crate::error::ErrorModel;
use crate::laws::application::law_untrusted_packages_wait;
use crate::paths::child;
use crate::profile::{ProfileModel, ProvisionModel};
use crate::session::{
    is_toml_file, looked_at, reaction_to, restorable, CommandModel, EngineEvent, Reaction, SessionModel, StartOrigin,
    UserEvent,
};
use crate::state::{untrusted, ConnectionModel, StatusModel};
use crate::ui::UiAction;
use crate::uri::{profile_of_uri, text_of_provision, uri_of_profile};

verus! {

/// Whether one of the profiles of a session is of a server.
pub open spec fn knows_server(session: SessionModel, server_id: Seq<char>) -> bool {
    exists|i: int|
        0 <= i < session.state.profiles.len() && (#[trigger] session.state.profiles[i]).profile.server_id == server_id
}

/// Whether a session is another one with one more profile, which is selected and
/// each package of which waits for approval; nothing else differs.
pub open spec fn gained(after: SessionModel, before: SessionModel, profile: ProfileModel, source: Seq<char>) -> bool {
    let count = before.state.profiles.len();
    let added = after.state.profiles[count as int];
    &&& after.state.profiles.len() == count + 1
    &&& added.profile == profile
    &&& added.source == source
    &&& forall|package: Seq<char>| #[trigger]
        added.pending.contains(package) <==> exists|i: int|
            0 <= i < profile.modules.len() && (#[trigger] profile.modules[i]).package == package
    &&& forall|i: int| 0 <= i < count ==> #[trigger] after.state.profiles[i] == before.state.profiles[i]
    &&& count <= usize::MAX ==> after.state.selected == Some(count as usize)
    &&& after.state.connection == before.state.connection
    &&& after.state.status == before.state.status
    &&& after.state.screen == before.state.screen
    &&& after.state.repaint
    &&& after.vpn_fd == before.vpn_fd
    &&& after.advanced_config == before.advanced_config
}

/// Whether a session is another one in which something was refused for a reason;
/// nothing else differs.
pub open spec fn refused(after: SessionModel, before: SessionModel, reason: Seq<char>) -> bool {
    &&& after.state.connection == ConnectionModel::Denied(reason)
    &&& after.state.repaint
    &&& after.state.profiles == before.state.profiles
    &&& after.state.selected == before.state.selected
    &&& after.state.status == before.state.status
    &&& after.state.screen == before.state.screen
    &&& after.vpn_fd == before.vpn_fd
    &&& after.advanced_config == before.advanced_config
}

proof fn lemma_gained(session: SessionModel, profile: ProfileModel, source: Seq<char>)
    ensures
        gained(
            SessionModel { state: session.state.imported(profile, source, Set::empty()), ..session },
            session,
            profile,
            source,
        ),
{
    let none = Set::<Seq<char>>::empty();
    law_untrusted_packages_wait(profile.modules, none);
    let state = session.state.imported(profile, source, none);
    let added = state.profiles[session.state.profiles.len() as int];
    assert(added.pending == untrusted(profile.modules, none));
    assert forall|package: Seq<char>| #[trigger]
        added.pending.contains(package) <==> exists|i: int|
            0 <= i < profile.modules.len() && (#[trigger] profile.modules[i]).package == package by {
        assert(untrusted(profile.modules, none).contains(package) <==> !none.contains(package) && exists|i: int|
            0 <= i < profile.modules.len() && (#[trigger] profile.modules[i]).package == package);
    }
}

/// A URI that carries a profile of a server that is not known yet adds that profile;
/// any other URI is refused, with the reason, and adds nothing.
pub proof fn law_imports_add_the_profile_of_the_uri(session: SessionModel, uri: Seq<char>)
    ensures
        match profile_of_uri(uri) {
            Ok(profile) => if knows_server(session, profile.server_id) {
                refused(session.imported(uri), session, "server_id is already imported"@)
            } else {
                gained(session.imported(uri), session, profile, "manual import"@)
            },
            Err(error) => refused(session.imported(uri), session, error.message()),
        },
{
    if let Ok(profile) = profile_of_uri(uri) {
        lemma_gained(session, profile, "manual import"@);
    }
}

/// On a desktop a URI is imported at once. On Android nothing is added before the
/// credential of the profile was stored, under the server that it is for; a server
/// that is known already, or a URI that carries no profile, is refused at once.
pub proof fn law_android_stores_the_credential_first(session: SessionModel, uri: Seq<char>)
    ensures
        !session.android ==> session.after_import(uri) == (session.imported(uri), CommandModel::Idle),
        session.android ==> match profile_of_uri(uri) {
            Ok(profile) => if knows_server(session, profile.server_id) {
                session.after_import(uri).1 is Idle && refused(
                    session.after_import(uri).0,
                    session,
                    "server_id is already imported"@,
                )
            } else {
                session.after_import(uri) == (
                    session,
                    CommandModel::StoreCredential {
                        server_id: profile.server_id,
                        credential: profile.credential,
                        uri,
                    },
                )
            },
            Err(error) => session.after_import(uri).1 is Idle && refused(
                session.after_import(uri).0,
                session,
                error.message(),
            ),
        },
{
}

/// Once the credential of a profile was stored, the rest of the profile is written
/// under the root, to a file that is named after its server: with the credential,
/// what is written makes the profile again. Where it was not stored, that is said.
pub proof fn law_stored_profiles_are_written(session: SessionModel, uri: Seq<char>, stored: bool)
    ensures
        match profile_of_uri(uri) {
            Ok(profile) => if stored {
                match session.after_store(uri, stored).1 {
                    CommandModel::WriteProfile { uri: carried, path, contents } => {
                        &&& session.after_store(uri, stored).0 == session
                        &&& carried == uri
                        &&& path == child(child(session.root, "profiles"@), profile.server_id + ".toml"@)
                        &&& exists|kept: ProvisionModel| #[trigger]
                            text_of_provision(kept) == Ok::<Seq<char>, ErrorModel>(contents) && kept.with(
                                profile.credential,
                            ) == profile
                    },
                    CommandModel::Idle => text_of_provision(profile.metadata()) is Err,
                    _ => false,
                }
            } else {
                session.after_store(uri, stored).1 is Idle && refused(
                    session.after_store(uri, stored).0,
                    session,
                    "Android Keystore rejected the credential"@,
                )
            },
            Err(error) => session.after_store(uri, stored).1 is Idle && refused(
                session.after_store(uri, stored).0,
                session,
                error.message(),
            ),
        },
{
    if let Ok(profile) = profile_of_uri(uri) {
        assert(profile.metadata().with(profile.credential) == profile);
    }
}

/// A profile that the platform keeps is added when the application starts, as its
/// URI carries it, unless its server is known already. One that has no URI, or whose
/// URI cannot be read, changes nothing.
pub proof fn law_kept_profiles_are_restored(session: SessionModel, profile: ProfileModel)
    ensures
        match uri_of_profile(profile) {
            Ok(uri) => match profile_of_uri(uri) {
                Ok(read) => if knows_server(session, read.server_id) {
                    session.restored(profile) == session
                } else {
                    gained(session.restored(profile), session, read, "Android Keystore"@)
                },
                Err(_) => session.restored(profile) == session,
            },
            Err(_) => session.restored(profile) == session,
        },
{
    if let Ok(uri) = uri_of_profile(profile) {
        if let Ok(read) = profile_of_uri(uri) {
            lemma_gained(session, read, "Android Keystore"@);
        }
    }
}

/// Nothing that the user does changes where the application runs, its root, or the
/// file descriptor that the platform gave; and of the profiles only an import and an
/// approval change any.
pub proof fn law_actions_stay_in_their_bounds(session: SessionModel, action: UiAction)
    ensures
        ({
            let after = session.after_action(action).0;
            &&& after.root == session.root
            &&& after.android == session.android
            &&& after.libraries == session.libraries
            &&& after.vpn_fd == session.vpn_fd
            &&& after.import_uri == session.import_uri
            &&& !(action is Import || action is ApprovePackage) ==> after.state.profiles == session.state.profiles
            &&& !(action is Import || action is Select) ==> after.state.selected == session.state.selected
            &&& !(action is Select) ==> after.state.status == session.state.status
            &&& !(action is Export) ==> after.advanced_config == session.advanced_config
        }),
{
}

/// A screen is shown when the user asks for it; nothing else changes, and it is
/// drawn anew only where another one was shown.
pub proof fn law_screens_are_shown_when_asked_for(session: SessionModel, action: UiAction)
    requires
        action is SetScreen,
    ensures
        ({
            let (after, command) = session.after_action(action);
            let screen = action->SetScreen_0;
            &&& command is Idle
            &&& after.state.screen == screen
            &&& after.state.repaint == (session.state.repaint || session.state.screen != screen)
            &&& after.state.profiles == session.state.profiles
            &&& after.state.selected == session.state.selected
            &&& after.state.connection == session.state.connection
            &&& after.state.status == session.state.status
        }),
{
}

/// A profile that is selected is the one at the index that the user gave: the
/// connection and its status begin anew. An index that no profile has changes
/// nothing.
pub proof fn law_selecting_begins_anew(session: SessionModel, action: UiAction)
    requires
        action is Select,
    ensures
        ({
            let (after, command) = session.after_action(action);
            let index = action->Select_0;
            &&& command is Idle
            &&& index < session.state.profiles.len() ==> {
                &&& after.state.selected == Some(index)
                &&& after.state.selection() == Some(session.state.profiles[index as int])
                &&& after.state.connection is Disconnected
                &&& after.state.status is None
                &&& after.state.repaint
                &&& after.state.profiles == session.state.profiles
                &&& after.state.screen == session.state.screen
            }
            &&& index >= session.state.profiles.len() ==> after == session
        }),
{
}

/// A package that the user approves no longer waits in the selected profile; each
/// other package waits where it did, and a package that did not wait changes
/// nothing.
pub proof fn law_approving_is_of_the_selected_profile(session: SessionModel, action: UiAction)
    requires
        action is ApprovePackage,
    ensures
        ({
            let (after, command) = session.after_action(action);
            let package = action->ApprovePackage_0@;
            let before = session.state;
            &&& command is Idle
            &&& after.state.profiles.len() == before.profiles.len()
            &&& after.state.connection == before.connection
            &&& forall|i: int, other: Seq<char>|
                0 <= i < before.profiles.len() ==> (#[trigger] after.state.profiles[i].pending.contains(other)
                    <==> before.profiles[i].pending.contains(other) && !(before.selected == Some(i as usize) && i
                    <= usize::MAX && other == package))
            &&& forall|i: int|
                0 <= i < before.profiles.len() ==> (#[trigger] after.state.profiles[i]).profile
                    == before.profiles[i].profile && after.state.profiles[i].source == before.profiles[i].source
        }),
{
}

/// Connecting and importing are what the user asks for by those names; to disconnect
/// is to stop the engine, and changes nothing before it has stopped.
pub proof fn law_actions_do_what_they_are_named_for(session: SessionModel, action: UiAction)
    ensures
        action is Connect ==> session.after_action(action) == session.after_connect(),
        action matches UiAction::Import(uri) ==> session.after_action(action) == session.after_import(uri@),
        action is Disconnect ==> session.after_action(action) == (session, CommandModel::Shutdown),
{
}

/// An export shows the URI of the profile at the selected index, and nothing where
/// it has none; the state stays as it is.
pub proof fn law_exports_show_the_selected_profile(session: SessionModel, action: UiAction)
    requires
        action is Export,
    ensures
        ({
            let (after, command) = session.after_action(action);
            &&& command is Idle
            &&& after.state == session.state
            &&& match session.state.selected {
                Some(index) => if index < session.state.profiles.len() {
                    match uri_of_profile(session.state.profiles[index as int].profile) {
                        Ok(uri) => after.advanced_config == uri,
                        Err(_) => after.advanced_config.len() == 0,
                    }
                } else {
                    after == session
                },
                None => after == session,
            }
        }),
{
}

/// The connection follows the engine: it connects while the engine starts, is there
/// while it runs, and stops with it, for the reason that it gives. Nothing else that
/// the engine says changes anything.
pub proof fn law_connection_follows_the_engine(session: SessionModel, event: EngineEvent)
    ensures
        ({
            let after = session.after_engine(event);
            &&& after.state.connection == match event {
                EngineEvent::Starting => ConnectionModel::Connecting,
                EngineEvent::Running => ConnectionModel::Connected,
                EngineEvent::Stopped => ConnectionModel::Stopped("engine stopped"@),
                EngineEvent::EngineFailed => ConnectionModel::Stopped("engine failed"@),
                EngineEvent::ModuleError(message) => ConnectionModel::Stopped(message@),
                EngineEvent::Failed(message) => ConnectionModel::Stopped(message@),
                EngineEvent::Ready => session.state.connection,
                EngineEvent::Other => session.state.connection,
            }
            &&& after.state.connection is Stopped && !(event is Ready || event is Other) ==> (
            after.state.status matches Some(status) ==> status.stale)
            &&& match (session.state.status, after.state.status) {
                (Some(before), Some(status)) => (StatusModel { stale: before.stale, ..status }) == before,
                (None, None) => true,
                _ => false,
            }
            &&& event is Running ==> after.state.repaint && after.state.status == session.state.status
            &&& event is Ready || event is Other ==> after == session
            &&& after.state.profiles == session.state.profiles
            &&& after.state.selected == session.state.selected
            &&& after.state.screen == session.state.screen
            &&& after.vpn_fd == session.vpn_fd
            &&& after.advanced_config == session.advanced_config
        }),
{
}

/// What is refused, stopped or cannot be started leaves the profiles and what is
/// selected as they are, and says the reason that was given: a start that the user
/// asked for is denied, one that the platform made possible is stopped.
pub proof fn law_reasons_are_said(session: SessionModel, origin: StartOrigin, reason: Seq<char>)
    ensures
        refused(session.denied(reason), session, reason),
        session.stopped(reason).state.connection == ConnectionModel::Stopped(reason),
        session.stopped(reason).state.profiles == session.state.profiles,
        session.stopped(reason).state.selected == session.state.selected,
        session.stopped(reason).vpn_fd == session.vpn_fd,
        session.stopped(reason).state.status matches Some(status) ==> status.stale,
        session.start_failed(origin, reason) == match origin {
            StartOrigin::User => session.denied(reason),
            StartOrigin::Platform => session.stopped(reason),
        },
{
}

/// A session begins with no profile, no connection and no file descriptor, where it is
/// told to.
pub proof fn law_sessions_begin_empty(root: Seq<char>, android: bool, libraries: Option<Seq<char>>)
    ensures
        ({
            let session = SessionModel::begun(root, android, libraries);
            &&& session.root == root
            &&& session.android == android
            &&& session.libraries == libraries
            &&& session.vpn_fd is None
            &&& session.import_uri.len() == 0
            &&& session.advanced_config.len() == 0
            &&& session.state.profiles.len() == 0
            &&& session.state.connection is Disconnected
        }),
{
}

/// Once the file of a profile was written, the profile of its URI is added; where it
/// could not be written, nothing is, and the reason is said.
pub proof fn law_written_profiles_are_added(session: SessionModel, uri: Seq<char>, reason: Seq<char>)
    ensures
        refused(session.after_write(uri, Some(reason)), session, reason),
        match profile_of_uri(uri) {
            Ok(profile) => if knows_server(session, profile.server_id) {
                refused(session.after_write(uri, None), session, "server_id is already imported"@)
            } else {
                gained(session.after_write(uri, None), session, profile, "manual import"@)
            },
            Err(error) => refused(session.after_write(uri, None), session, error.message()),
        },
{
    law_imports_add_the_profile_of_the_uri(session, uri);
}

/// What went well changes nothing; what did not is said: a VPN that could not be asked
/// for is refused, and an engine that could not be launched is denied to the user, or
/// stopped where the platform made the start possible.
pub proof fn law_failures_of_the_platform_are_said(session: SessionModel, origin: StartOrigin, reason: Seq<char>)
    ensures
        session.after_request(true) == session,
        refused(session.after_request(false), session, "VPN permission request failed"@),
        session.after_launch(origin, None) == session,
        session.after_launch(origin, Some(reason)).state.connection == match origin {
            StartOrigin::User => ConnectionModel::Denied(reason),
            StartOrigin::Platform => ConnectionModel::Stopped(reason),
        },
        session.after_launch(origin, Some(reason)).state.profiles == session.state.profiles,
        session.after_launch(origin, Some(reason)).state.selected == session.state.selected,
{
}

/// A profile is restored with the credential that the platform keeps for it, and not
/// without one.
pub proof fn law_restored_profiles_have_their_credential(
    session: SessionModel,
    profile: ProfileModel,
    credential: Seq<char>,
)
    ensures
        session.after_restore(profile.metadata(), None) == session,
        session.after_restore(profile.metadata(), Some(credential)) == session.restored(
            ProfileModel { credential, ..profile },
        ),
        session.after_restore(profile.metadata(), Some(profile.credential)) == session.restored(profile),
{
    assert(profile.metadata().with(credential) == (ProfileModel { credential, ..profile }));
    assert(profile.metadata().with(profile.credential) == profile);
}

/// The loop draws the application when it is to be drawn at once, and waits as long as
/// it is told to otherwise; what the engine and the platform said is taken over.
pub proof fn law_loop_does_what_it_is_woken_for(event: UserEvent, delay: u128)
    ensures
        reaction_to(UserEvent::Repaint(0)) is Redraw,
        delay > 0 ==> reaction_to(UserEvent::Repaint(delay)) == Reaction::WaitFor(delay),
        reaction_to(UserEvent::Runtime) is DrainEngine,
        event matches UserEvent::Platform(said) ==> reaction_to(event) == Reaction::Platform(said),
        reaction_to(event) is Redraw <==> event == UserEvent::Repaint(0),
{
}

/// Of the files in the directory of the profiles, those are looked at that end in
/// `.toml` after a name, among the first sixty-four, in their order.
pub proof fn law_restored_files_are_named_toml(names: Seq<Seq<char>>)
    requires
        names.len() <= usize::MAX,
    ensures
        forall|index: usize| #[trigger]
            restorable(names, looked_at(names)).contains(index) <==> index < names.len() && index < 64 && exists|
                name: Seq<char>,
            |
                name.len() > 0 && names[index as int] == #[trigger] (name + ".toml"@),
        forall|i: int, j: int|
            0 <= i < j < restorable(names, looked_at(names)).len() ==> #[trigger] restorable(names, looked_at(names))[i]
                < #[trigger] restorable(names, looked_at(names))[j],
{
    let count = looked_at(names);
    lemma_restorable(names, count);
    assert forall|index: usize| #[trigger]
        restorable(names, count).contains(index) <==> index < names.len() && index < 64 && exists|name: Seq<char>|
            name.len() > 0 && names[index as int] == #[trigger] (name + ".toml"@) by {
        lemma_toml_name(names[index as int]);
    }
}

proof fn lemma_toml_name(file: Seq<char>)
    ensures
        is_toml_file(file) <==> exists|name: Seq<char>| name.len() > 0 && file == #[trigger] (name + ".toml"@),
{
    reveal_strlit(".toml");
    assert(".toml"@.len() == 5);
    if is_toml_file(file) {
        let name = file.take(file.len() - 5);
        assert(".toml"@ =~= file.skip(file.len() - 5));
        assert(file =~= name + ".toml"@);
    }
    if exists|name: Seq<char>| name.len() > 0 && file == #[trigger] (name + ".toml"@) {
        let name = choose|name: Seq<char>| name.len() > 0 && file == #[trigger] (name + ".toml"@);
        assert(file.subrange(file.len() - 5, file.len() as int) =~= ".toml"@);
    }
}

proof fn lemma_restorable(names: Seq<Seq<char>>, count: nat)
    requires
        count <= names.len() <= usize::MAX,
    ensures
        forall|index: usize| #[trigger]
            restorable(names, count).contains(index) <==> index < count && is_toml_file(names[index as int]),
        forall|i: int, j: int|
            0 <= i < j < restorable(names, count).len() ==> #[trigger] restorable(names, count)[i]
                < #[trigger] restorable(names, count)[j],
    decreases count,
{
    if count > 0 {
        let shorter = (count - 1) as nat;
        lemma_restorable(names, shorter);
        let before = restorable(names, shorter);
        let after = restorable(names, count);
        assert forall|index: usize| #[trigger]
            after.contains(index) <==> index < count && is_toml_file(names[index as int]) by {
            if after.contains(index) {
                let k = choose|k: int| 0 <= k < after.len() && after[k] == index;
                if k < before.len() {
                    assert(before[k] == index);
                    assert(before.contains(index));
                }
            }
            if index < count && is_toml_file(names[index as int]) {
                if index < shorter {
                    assert(before.contains(index));
                    let k = choose|k: int| 0 <= k < before.len() && before[k] == index;
                    assert(after[k] == index);
                } else {
                    assert(after[before.len() as int] == index);
                }
            }
        }
        assert forall|i: int, j: int| 0 <= i < j < after.len() implies #[trigger] after[i] < #[trigger] after[j] by {
            assert(before.contains(before[i]));
        }
    }
}

}
