//! What a session asks for, and what with.
use vstd::prelude::*;

use crate::client::{ClientModel, FileModel};
use crate::profile::{ModuleClass, ModuleModel, ProfileModel};
use crate::session::{
    is_tunnel, secret_files, started_profile, tunnel_options, with_descriptor, CommandModel, EngineSignal,
    NativeEvent, SessionModel, StartOrigin,
};
use crate::state::{ConnectionModel, Screen, StatusModel};
use crate::value::{get, lemma_get_put, put, ValueModel};

verus! {

/// Whether a package is a version of the tunnel adapter.
pub open spec fn tunnel_package(package: Seq<char>) -> bool {
    exists|version: Seq<char>| package == #[trigger] ("owenewans/adapter-tun@"@ + version)
}

/// Whether options are others with what a tunnel adapter is told of a file
/// descriptor, and nothing else changed.
pub open spec fn told_of_descriptor(
    after: Seq<(Seq<char>, ValueModel)>,
    before: Seq<(Seq<char>, ValueModel)>,
    fd: i32,
) -> bool {
    &&& get(after, "mode"@) == Some(ValueModel::Text("android-fd"@))
    &&& get(after, "fd"@) == Some(ValueModel::Integer(fd as i64))
    &&& get(after, "mtu"@) == Some(ValueModel::Integer(1_280))
    &&& get(after, "packet_queue_bytes"@) == Some(ValueModel::Integer(262_144))
    &&& forall|key: Seq<char>|
        key != "mode"@ && key != "fd"@ && key != "mtu"@ && key != "packet_queue_bytes"@ ==> #[trigger] get(after, key)
            == get(before, key)
}

/// Whether a profile is another one with a credential and, where there is a file
/// descriptor, with tunnel adapters that are told of it; nothing else differs.
pub open spec fn started_from(
    profile: ProfileModel,
    chosen: ProfileModel,
    credential: Seq<char>,
    vpn_fd: Option<i32>,
) -> bool {
    &&& profile.wire_version == chosen.wire_version
    &&& profile.server_id == chosen.server_id
    &&& profile.endpoint == chosen.endpoint
    &&& profile.server_pin == chosen.server_pin
    &&& profile.credential == credential
    &&& profile.modules.len() == chosen.modules.len()
    &&& forall|i: int|
        0 <= i < chosen.modules.len() ==> {
            let before = #[trigger] chosen.modules[i];
            let after = profile.modules[i];
            &&& after.instance == before.instance
            &&& after.package == before.package
            &&& after.class == before.class
            &&& if vpn_fd is Some && before.class == ModuleClass::Adapter && tunnel_package(before.package) {
                told_of_descriptor(after.options, before.options, vpn_fd->0)
            } else {
                after.options == before.options
            }
        }
}

proof fn lemma_tunnel_package(module: ModuleModel)
    ensures
        is_tunnel(module) <==> module.class == ModuleClass::Adapter && tunnel_package(module.package),
{
    let prefix = "owenewans/adapter-tun@"@;
    if prefix.is_prefix_of(module.package) {
        let version = module.package.skip(prefix.len() as int);
        assert(module.package =~= prefix + version);
    }
    if tunnel_package(module.package) {
        let version = choose|version: Seq<char>| module.package == #[trigger] (prefix + version);
        assert(prefix =~= module.package.take(prefix.len() as int));
    }
}

proof fn lemma_tunnel_options(options: Seq<(Seq<char>, ValueModel)>, fd: i32)
    ensures
        told_of_descriptor(tunnel_options(options, fd), options, fd),
{
    reveal_strlit("mode");
    reveal_strlit("fd");
    reveal_strlit("mtu");
    reveal_strlit("packet_queue_bytes");
    assert("mode"@.len() == 4 && "fd"@.len() == 2 && "mtu"@.len() == 3 && "packet_queue_bytes"@.len() == 18);
    let mode = ValueModel::Text("android-fd"@);
    let descriptor = ValueModel::Integer(fd as i64);
    let size = ValueModel::Integer(1_280);
    let queue = ValueModel::Integer(262_144);
    let first = put(options, "mode"@, mode);
    let second = put(first, "fd"@, descriptor);
    let third = put(second, "mtu"@, size);
    let last = put(third, "packet_queue_bytes"@, queue);
    lemma_get_put(options, "mode"@, mode, "mode"@);
    lemma_get_put(first, "fd"@, descriptor, "mode"@);
    lemma_get_put(second, "mtu"@, size, "mode"@);
    lemma_get_put(second, "mtu"@, size, "fd"@);
    lemma_get_put(third, "packet_queue_bytes"@, queue, "mode"@);
    lemma_get_put(third, "packet_queue_bytes"@, queue, "fd"@);
    lemma_get_put(third, "packet_queue_bytes"@, queue, "mtu"@);
    assert forall|key: Seq<char>|
        key != "mode"@ && key != "fd"@ && key != "mtu"@ && key != "packet_queue_bytes"@ implies #[trigger] get(last, key)
        == get(options, key) by {
        lemma_get_put(options, "mode"@, mode, key);
        lemma_get_put(first, "fd"@, descriptor, key);
        lemma_get_put(second, "mtu"@, size, key);
        lemma_get_put(third, "packet_queue_bytes"@, queue, key);
    }
}

/// What a start makes of a profile is that profile, with the credential that the
/// platform keeps where it keeps one, and with what tunnel adapters are told.
proof fn lemma_started_from(android: bool, vpn_fd: Option<i32>, chosen: ProfileModel, credential: Option<Seq<char>>)
    ensures
        started_profile(android, vpn_fd, chosen, credential) matches Ok(started) ==> started_from(
            started,
            chosen,
            if android {
                credential->0
            } else {
                chosen.credential
            },
            vpn_fd,
        ),
{
    if let Ok(started) = started_profile(android, vpn_fd, chosen, credential) {
        assert forall|i: int| 0 <= i < chosen.modules.len() implies {
            let before = #[trigger] chosen.modules[i];
            let after = started.modules[i];
            &&& after.instance == before.instance
            &&& after.package == before.package
            &&& after.class == before.class
            &&& if vpn_fd is Some && before.class == ModuleClass::Adapter && tunnel_package(before.package) {
                told_of_descriptor(after.options, before.options, vpn_fd->0)
            } else {
                after.options == before.options
            }
        } by {
            let before = chosen.modules[i];
            lemma_tunnel_package(before);
            if let Some(fd) = vpn_fd {
                assert(started.modules[i] == with_descriptor(before, fd));
                lemma_tunnel_options(before.options, fd);
            }
        }
    }
}

/// What connecting asks for is asked of the profile at the selected index. On a
/// desktop it is started at once: its modules are installed where libraries come
/// with the application, and else its configuration is generated. On Android the
/// credential is loaded first, and a VPN is asked for before that where a tunnel
/// adapter has no file descriptor yet.
pub proof fn law_connecting_starts_the_selected_profile(session: SessionModel, index: usize)
    requires
        session.state.selected == Some(index),
        index < session.state.profiles.len(),
        session.state.profiles[index as int].pending == Set::<Seq<char>>::empty(),
    ensures
        ({
            let (after, command) = session.after_connect();
            let chosen = session.state.profiles[index as int].profile;
            let waits = session.vpn_fd is None && exists|i: int|
                0 <= i < chosen.modules.len() && (#[trigger] chosen.modules[i]).class == ModuleClass::Adapter
                    && tunnel_package(chosen.modules[i].package);
            &&& match command {
                CommandModel::RequestVpn => session.android && waits,
                CommandModel::LoadCredential { profile, origin } => session.android && !waits && profile == chosen
                    && origin == StartOrigin::User,
                CommandModel::Install { profile, origin, directory } => !session.android && session.libraries == Some(
                    directory,
                ) && origin == StartOrigin::User && started_from(profile, chosen, chosen.credential, session.vpn_fd),
                CommandModel::Generate { profile, origin } => !session.android && session.libraries is None && origin
                    == StartOrigin::User && started_from(profile, chosen, chosen.credential, session.vpn_fd),
                _ => false,
            }
            &&& after.state.connection is Connecting
            &&& after.state.screen == Screen::Connection
            &&& after.state.repaint
            &&& after.state.profiles == session.state.profiles
            &&& after.state.selected == session.state.selected
            &&& after.state.status == session.state.status
            &&& after.vpn_fd == session.vpn_fd
        }),
{
    let chosen = session.state.profiles[index as int].profile;
    lemma_started_from(session.android, session.vpn_fd, chosen, None);
    assert forall|i: int| 0 <= i < chosen.modules.len() implies (is_tunnel(#[trigger] chosen.modules[i]) <==> (
    chosen.modules[i].class == ModuleClass::Adapter && tunnel_package(chosen.modules[i].package))) by {
        lemma_tunnel_package(chosen.modules[i]);
    }
}

/// Connecting is refused, and says why, where nothing is selected or a package of
/// the selected profile waits for approval: the profiles stay as they are, and
/// nothing is asked for.
pub proof fn law_connecting_is_refused(session: SessionModel)
    ensures
        (session.state.selected is None || session.state.selected->0 >= session.state.profiles.len()) ==> {
            &&& session.after_connect().1 is Idle
            &&& session.after_connect().0.state.connection == ConnectionModel::Denied("profile selection is invalid"@)
            &&& session.after_connect().0.state.profiles == session.state.profiles
        },
        (session.state.selected matches Some(index) && index < session.state.profiles.len() && exists|package: Seq<char>|
            session.state.profiles[index as int].pending.contains(package)) ==> {
            &&& session.after_connect().1 is Idle
            &&& session.after_connect().0.state.connection == ConnectionModel::Denied(
                "native package requires approval"@,
            )
            &&& session.after_connect().0.state.profiles == session.state.profiles
        },
{
}

/// When the platform gives a file descriptor, it is kept, and the profile at the
/// selected index is started with it.
pub proof fn law_platform_starts_the_selected_profile(session: SessionModel, fd: i32, index: usize)
    requires
        fd >= 0,
        session.state.selected == Some(index),
        index < session.state.profiles.len(),
    ensures
        ({
            let (after, command) = session.after_platform(NativeEvent::VpnReady(fd));
            let chosen = session.state.profiles[index as int].profile;
            &&& after.vpn_fd == Some(fd)
            &&& after.state == session.state
            &&& match command {
                CommandModel::LoadCredential { profile, origin } => session.android && profile == chosen && origin
                    == StartOrigin::Platform,
                CommandModel::Install { profile, origin, directory } => !session.android && session.libraries == Some(
                    directory,
                ) && origin == StartOrigin::Platform && started_from(profile, chosen, chosen.credential, Some(fd)),
                CommandModel::Generate { profile, origin } => !session.android && session.libraries is None && origin
                    == StartOrigin::Platform && started_from(profile, chosen, chosen.credential, Some(fd)),
                _ => false,
            }
        }),
{
    lemma_started_from(session.android, Some(fd), session.state.profiles[index as int].profile, None);
}

/// What the platform says otherwise: where it takes the permission away, or gives no
/// descriptor, the descriptor is forgotten, the connection stops and the engine is
/// told; a change of the network is passed on and changes nothing.
pub proof fn law_platform_takes_the_descriptor_away(session: SessionModel, event: NativeEvent)
    requires
        event matches NativeEvent::VpnReady(fd) ==> fd < 0,
    ensures
        ({
            let (after, command) = session.after_platform(event);
            match event {
                NativeEvent::NetworkChanged => after == session && command == CommandModel::Signal(
                    EngineSignal::NetworkChanged,
                ),
                _ => {
                    &&& after.vpn_fd is None
                    &&& after.state.connection == ConnectionModel::Stopped("VPN permission revoked"@)
                    &&& after.state.profiles == session.state.profiles
                    &&& after.state.selected == session.state.selected
                    &&& session.state.status matches Some(before) ==> after.state.status == Some(
                        StatusModel { stale: true, ..before },
                    )
                    &&& command == CommandModel::Signal(EngineSignal::VpnPermissionRevoked)
                },
            }
        }),
{
}

/// Once a credential was loaded, the profile that it was loaded for goes on with it:
/// on Android with the credential that the platform keeps, elsewhere with its own.
/// A start that cannot go on says why, to whoever asked for it.
pub proof fn law_loaded_credential_goes_with_the_profile(
    session: SessionModel,
    chosen: ProfileModel,
    origin: StartOrigin,
    credential: Option<Seq<char>>,
)
    ensures
        ({
            let (after, command) = session.after_load(chosen, origin, credential);
            let key = if session.android {
                credential->0
            } else {
                chosen.credential
            };
            &&& match command {
                CommandModel::Install { profile, origin: carried, directory } => carried == origin
                    && session.libraries == Some(directory) && started_from(profile, chosen, key, session.vpn_fd)
                    && after == session,
                CommandModel::Generate { profile, origin: carried } => carried == origin && session.libraries is None
                    && started_from(profile, chosen, key, session.vpn_fd) && after == session,
                CommandModel::Idle => session.android && (credential is None || !(ProfileModel {
                    credential: credential->0,
                    ..chosen
                }).valid()),
                _ => false,
            }
            &&& session.android && credential is None ==> says_why(
                after,
                session,
                origin,
                "credential is unavailable in Android Keystore"@,
            ) && command is Idle
            &&& session.android && credential is Some && !(ProfileModel { credential: credential->0, ..chosen }).valid()
                ==> says_why(after, session, origin, "profile value is invalid"@) && command is Idle
        }),
{
    lemma_started_from(session.android, session.vpn_fd, chosen, credential);
}

/// Whether a session is another one in which a start failed for a reason: what the
/// user asked for is denied, and what the platform made possible is stopped.
pub open spec fn says_why(after: SessionModel, before: SessionModel, origin: StartOrigin, reason: Seq<char>) -> bool {
    &&& after.state.connection == match origin {
        StartOrigin::User => ConnectionModel::Denied(reason),
        StartOrigin::Platform => ConnectionModel::Stopped(reason),
    }
    &&& after.state.profiles == before.state.profiles
    &&& after.state.selected == before.state.selected
    &&& after.state.screen == before.state.screen
    &&& after.state.repaint
    &&& after.advanced_config == before.advanced_config
    &&& after.vpn_fd == before.vpn_fd
}

/// Each step of a start hands on to the next what it was given: the profile to the
/// generator, what was generated to the disk, and the main file with the secret
/// files to the engine. A step that fails ends the start and says why.
pub proof fn law_starts_go_on_with_what_they_have(
    session: SessionModel,
    profile: ProfileModel,
    client: ClientModel,
    main: Seq<char>,
    origin: StartOrigin,
    reason: Seq<char>,
)
    ensures
        session.after_install(profile, origin, None) == (session, CommandModel::Generate { profile, origin }),
        session.after_generate(origin, Ok(client)).1 == (CommandModel::Persist { client, origin }),
        session.after_generate(origin, Ok(client)).0.advanced_config == client.main_toml,
        session.after_generate(origin, Ok(client)).0.state == session.state,
        session.after_persist(client, origin, Ok(main)).0 == session,
        session.after_persist(client, origin, Ok(main)).1 matches CommandModel::Launch {
            main: launched,
            cleanup,
            origin: carried,
        } && launched == main && carried == origin && forall|path: Seq<char>| #[trigger]
            cleanup.contains(path) <==> exists|i: int|
                0 <= i < client.files.len() && (#[trigger] client.files[i]).secret && client.files[i].path == path,
        session.after_install(profile, origin, Some(reason)).1 is Idle,
        says_why(session.after_install(profile, origin, Some(reason)).0, session, origin, reason),
        session.after_generate(origin, Err(reason)).1 is Idle,
        says_why(session.after_generate(origin, Err(reason)).0, session, origin, reason),
        session.after_persist(client, origin, Err(reason)).1 is Idle,
        says_why(session.after_persist(client, origin, Err(reason)).0, session, origin, reason),
{
    law_secret_files_are_those_marked_secret(client.files);
}

/// The files that are listed as secret are those that are marked so, each of them
/// and no other.
pub proof fn law_secret_files_are_those_marked_secret(files: Seq<FileModel>)
    ensures
        forall|path: Seq<char>| #[trigger]
            secret_files(files).contains(path) <==> exists|i: int|
                0 <= i < files.len() && (#[trigger] files[i]).secret && files[i].path == path,
        secret_files(files).len() <= files.len(),
        (forall|i: int| 0 <= i < files.len() ==> (#[trigger] files[i]).secret) ==> secret_files(files)
            == files.map_values(|file: FileModel| file.path),
    decreases files.len(),
{
    if files.len() > 0 {
        let rest = files.drop_last();
        let last = files.last();
        law_secret_files_are_those_marked_secret(rest);
        let before = secret_files(rest);
        let after = secret_files(files);
        assert forall|path: Seq<char>| #[trigger]
            after.contains(path) <==> exists|i: int|
                0 <= i < files.len() && (#[trigger] files[i]).secret && files[i].path == path by {
            if after.contains(path) {
                let k = choose|k: int| 0 <= k < after.len() && after[k] == path;
                if k < before.len() {
                    assert(before[k] == path);
                    assert(before.contains(path));
                    let i = choose|i: int| 0 <= i < rest.len() && (#[trigger] rest[i]).secret && rest[i].path == path;
                    assert(files[i].secret && files[i].path == path);
                } else {
                    assert(files[files.len() - 1].secret && files[files.len() - 1].path == path);
                }
            }
            if exists|i: int| 0 <= i < files.len() && (#[trigger] files[i]).secret && files[i].path == path {
                let i = choose|i: int| 0 <= i < files.len() && (#[trigger] files[i]).secret && files[i].path == path;
                if i < rest.len() {
                    assert(rest[i].secret && rest[i].path == path);
                    assert(before.contains(path));
                    let k = choose|k: int| 0 <= k < before.len() && before[k] == path;
                    assert(after[k] == path);
                } else {
                    assert(after[before.len() as int] == path);
                }
            }
        }
        if forall|i: int| 0 <= i < files.len() ==> (#[trigger] files[i]).secret {
            assert forall|i: int| 0 <= i < rest.len() implies (#[trigger] rest[i]).secret by {
                assert(files[i].secret);
            }
            assert(files[files.len() - 1].secret);
            assert(after =~= files.map_values(|file: FileModel| file.path));
        }
    } else {
        assert(secret_files(files) =~= files.map_values(|file: FileModel| file.path));
    }
}

/// The secret files are listed in the order of the files: those of some files come
/// before those of the files that follow.
pub proof fn law_secret_files_keep_their_order(front: Seq<FileModel>, back: Seq<FileModel>)
    ensures
        secret_files(front + back) == secret_files(front) + secret_files(back),
    decreases back.len(),
{
    if back.len() == 0 {
        assert(front + back =~= front);
        assert(secret_files(front) + secret_files(back) =~= secret_files(front));
    } else {
        law_secret_files_keep_their_order(front, back.drop_last());
        assert((front + back).drop_last() =~= front + back.drop_last());
        assert((front + back).last() == back.last());
        assert(secret_files(front + back) =~= secret_files(front) + secret_files(back));
    }
}

}
