use snolc_ng::session::{
    react, restore_candidates, secret_paths, Command, EngineEvent, EngineSignal, Reaction, StartOrigin, Starting,
};
use snolc_ng::ui::{
    approval_label, connection_button, connection_label, profile_rows, screen_label, status_lines,
};
use snolc_ng::{
    generate_client_config, AppState, ConnectionState, ModuleClass, NativeEvent, OptionTable, OptionValue, PackageSet,
    PlatformHooks, Profile, ProfileError, ProfileModule, ProvisionProfile, Screen, Secret, ServerStatus, Session,
    UiAction, UiDraft, UserEvent,
};

fn module(instance: &str, package: &str, class: ModuleClass) -> ProfileModule {
    ProfileModule { instance: instance.into(), package: package.into(), class, options: OptionTable::new() }
}

fn profile(server_id: &str) -> Profile {
    Profile {
        wire_version: 1,
        server_id: server_id.into(),
        endpoint: "203.0.113.1:443".into(),
        modules: vec![
            module("tun", "owenewans/adapter-tun@0.0.1", ModuleClass::Adapter),
            module("noise", "owenewans/protection-noise@0.0.1", ModuleClass::Protection),
            module("tcp", "owenewans/carrier-tcp@0.0.1", ModuleClass::Carrier),
            module("policy", "owenewans/policy-local@0.0.1", ModuleClass::Policy),
        ],
        server_pin: "server-pin".into(),
        credential: Secret::new("credential".into()),
    }
}

fn uri(server_id: &str) -> String {
    profile(server_id).to_uri().unwrap()
}

fn android() -> Session {
    Session::new("/data", PlatformHooks::android("/native".into()))
}

fn desktop() -> Session {
    Session::new("/home", PlatformHooks::desktop())
}

fn approve_all(session: &mut Session) {
    for package in [
        "owenewans/adapter-tun@0.0.1",
        "owenewans/protection-noise@0.0.1",
        "owenewans/carrier-tcp@0.0.1",
        "owenewans/policy-local@0.0.1",
    ] {
        assert!(matches!(session.apply(UiAction::ApprovePackage(package.into())), Command::Idle));
    }
}

fn denied(session: &Session) -> &str {
    match &session.state.connection {
        ConnectionState::Denied(reason) => reason,
        _ => panic!("not denied"),
    }
}

fn stopped(session: &Session) -> &str {
    match &session.state.connection {
        ConnectionState::Stopped(reason) => reason,
        _ => panic!("not stopped"),
    }
}

fn status(revision: u64) -> ServerStatus {
    ServerStatus {
        used_bytes: 12,
        limit_bytes: None,
        upload_bytes_per_second: Some(10),
        download_bytes_per_second: None,
        expires_at: Some("2030-01-01".into()),
        revision,
        reason: Some("trial".into()),
        stale: false,
    }
}

#[test]
fn a_desktop_imports_and_connects_once_packages_are_approved() {
    let mut session = desktop();
    assert!(matches!(session.apply(UiAction::Connect), Command::Idle));
    assert_eq!(denied(&session), "profile selection is invalid");
    assert!(matches!(session.apply(UiAction::Import(uri("a"))), Command::Idle));
    assert_eq!(session.state.profiles[0].source, "manual import");
    assert_eq!(session.state.selected, Some(0));
    assert!(matches!(session.apply(UiAction::Connect), Command::Idle));
    assert_eq!(denied(&session), "native package requires approval");
    approve_all(&mut session);
    match session.apply(UiAction::Connect) {
        Command::Generate { starting } => {
            assert!(starting.profile == profile("a"));
            assert_eq!(starting.origin, StartOrigin::User);
        }
        _ => panic!("not started"),
    }
    assert_eq!(session.state.connection, ConnectionState::Connecting);
    assert_eq!(session.state.screen, Screen::Connection);
    assert!(matches!(session.apply(UiAction::Disconnect), Command::Shutdown));
    session.shutdown_failed("busy".into());
    assert_eq!(stopped(&session), "busy");
}

#[test]
fn imports_that_are_refused_say_why() {
    let mut session = desktop();
    session.apply(UiAction::Import("x".into()));
    assert_eq!(denied(&session), "profile URI scheme is invalid");
    session.apply(UiAction::Import(uri("a")));
    session.apply(UiAction::Import(uri("a")));
    assert_eq!(denied(&session), "server_id is already imported");
    assert_eq!(session.state.profiles.len(), 1);
    session.apply(UiAction::Import(uri("b")));
    assert_eq!(session.state.profiles.len(), 2);
    assert_eq!(session.state.selected, Some(1));
}

#[test]
fn android_stores_the_credential_and_the_rest_apart() {
    let mut session = android();
    match session.apply(UiAction::Import(uri("a"))) {
        Command::StoreCredential { server_id, credential, uri: carried } => {
            assert_eq!(server_id, "a");
            assert_eq!(credential.expose(), "credential");
            assert_eq!(carried, uri("a"));
        }
        _ => panic!("not stored"),
    }
    assert!(session.state.profiles.is_empty());
    assert!(matches!(session.credential_stored(uri("a"), false), Command::Idle));
    assert_eq!(denied(&session), "Android Keystore rejected the credential");
    match session.credential_stored(uri("a"), true) {
        Command::WriteProfile { uri: carried, path, contents } => {
            assert_eq!(carried, uri("a"));
            assert_eq!(path, "/data/profiles/a.toml");
            assert!(!contents.contains("credential"));
            assert_eq!(
                ProvisionProfile::parse_toml(&contents).unwrap(),
                ProvisionProfile::from_profile(&profile("a"))
            );
        }
        _ => panic!("not written"),
    }
    session.profile_written(uri("a"), Some("disk full".into()));
    assert_eq!(denied(&session), "disk full");
    assert!(session.state.profiles.is_empty());
    session.profile_written(uri("a"), None);
    assert_eq!(session.state.profiles.len(), 1);
    assert!(matches!(session.apply(UiAction::Import(uri("a"))), Command::Idle));
    assert_eq!(denied(&session), "server_id is already imported");
}

#[test]
fn android_asks_for_a_vpn_before_a_tunnel_is_started() {
    let mut session = android();
    session.profile_written(uri("a"), None);
    approve_all(&mut session);
    assert!(matches!(session.apply(UiAction::Connect), Command::RequestVpn));
    session.vpn_requested(true);
    assert_eq!(session.state.connection, ConnectionState::Connecting);
    session.vpn_requested(false);
    assert_eq!(denied(&session), "VPN permission request failed");
    let starting = match session.platform_event(NativeEvent::VpnReady(5)) {
        Command::LoadCredential { starting } => {
            assert_eq!(starting.origin, StartOrigin::Platform);
            starting
        }
        _ => panic!("not started"),
    };
    assert_eq!(session.vpn_fd, Some(5));
    let started = match session.credential_loaded(starting, Some("kept".into())) {
        Command::Install { starting, directory } => {
            assert_eq!(starting.origin, StartOrigin::Platform);
            assert_eq!(directory, "/native");
            starting.profile
        }
        _ => panic!("not installed"),
    };
    assert_eq!(started.credential.expose(), "kept");
    assert!(started.validate().is_ok());
    let options = &started.modules[0].options;
    assert_eq!(options.len(), 4);
    assert_eq!(options.get("mode"), Some(&OptionValue::Text("android-fd".into())));
    assert_eq!(options.get("fd"), Some(&OptionValue::Integer(5)));
    assert_eq!(options.get("mtu"), Some(&OptionValue::Integer(1_280)));
    assert_eq!(options.get("packet_queue_bytes"), Some(&OptionValue::Integer(262_144)));
    assert_eq!(started.modules[1].options.len(), 0);
    assert!(matches!(session.apply(UiAction::Connect), Command::LoadCredential { .. }));
    session.engine_launched(StartOrigin::User, Some("no".into()));
    assert_eq!(denied(&session), "no");
    session.engine_launched(StartOrigin::Platform, Some("no".into()));
    assert_eq!(stopped(&session), "no");
}

#[test]
fn a_start_goes_from_step_to_step_until_one_fails() {
    let starting = |origin| Starting { profile: profile("a"), origin };
    let generated = || generate_client_config(&profile("a"), "/home", |_| None).unwrap();
    let mut session = desktop();
    assert!(matches!(session.credential_loaded(starting(StartOrigin::User), None), Command::Generate { .. }));
    assert!(matches!(session.modules_installed(starting(StartOrigin::User), None), Command::Generate { .. }));
    match session.config_generated(StartOrigin::User, Ok(generated())) {
        Command::Persist { generated: carried, .. } => assert_eq!(carried, generated()),
        _ => panic!("not written"),
    }
    assert_eq!(session.draft.advanced_config, generated().main_toml);
    match session.config_written(&generated(), StartOrigin::User, Ok("/home/config/snolc.toml".into())) {
        Command::Launch { main, cleanup, origin } => {
            assert_eq!(main, "/home/config/snolc.toml");
            assert_eq!(
                cleanup,
                ["/home/secrets/server-noise-key.hex", "/home/config/modules/policy.toml"]
            );
            assert_eq!(origin, StartOrigin::User);
        }
        _ => panic!("not launched"),
    }
    session.state.connected();
    session.engine_launched(StartOrigin::User, None);
    assert_eq!(session.state.connection, ConnectionState::Connected);
    assert!(matches!(
        session.modules_installed(starting(StartOrigin::User), Some("one".into())),
        Command::Idle
    ));
    assert_eq!(denied(&session), "one");
    assert!(matches!(session.config_generated(StartOrigin::Platform, Err("two".into())), Command::Idle));
    assert_eq!(stopped(&session), "two");
    assert!(matches!(
        session.config_written(&generated(), StartOrigin::User, Err("three".into())),
        Command::Idle
    ));
    assert_eq!(denied(&session), "three");
    let mut session = android();
    assert!(matches!(session.credential_loaded(starting(StartOrigin::Platform), None), Command::Idle));
    assert_eq!(stopped(&session), "credential is unavailable in Android Keystore");
}

#[test]
fn android_starts_with_the_credential_that_it_keeps() {
    let session = android();
    assert_eq!(
        session.prepare_start(profile("a"), None).err().unwrap(),
        "credential is unavailable in Android Keystore"
    );
    assert_eq!(session.prepare_start(profile("a"), Some("".into())).err().unwrap(), "profile value is invalid");
    let session = desktop();
    assert!(session.prepare_start(profile("a"), None).unwrap() == profile("a"));
}

#[test]
fn the_platform_takes_the_vpn_away() {
    let mut session = android();
    assert!(matches!(session.platform_event(NativeEvent::VpnReady(3)), Command::Idle));
    assert_eq!(stopped(&session), "profile selection is invalid");
    assert_eq!(session.vpn_fd, Some(3));
    for event in [NativeEvent::VpnReady(-1), NativeEvent::VpnPermissionRevoked] {
        session.vpn_fd = Some(3);
        assert!(matches!(
            session.platform_event(event),
            Command::Signal(EngineSignal::VpnPermissionRevoked)
        ));
        assert_eq!(session.vpn_fd, None);
        assert_eq!(stopped(&session), "VPN permission revoked");
    }
    assert!(matches!(
        session.platform_event(NativeEvent::NetworkChanged),
        Command::Signal(EngineSignal::NetworkChanged)
    ));
}

#[test]
fn the_engine_moves_the_connection() {
    let mut session = desktop();
    session.state.take_repaint_request();
    session.engine_event(EngineEvent::Starting);
    assert_eq!(session.state.connection, ConnectionState::Connecting);
    session.engine_event(EngineEvent::Ready);
    session.engine_event(EngineEvent::Other);
    assert!(!session.state.take_repaint_request());
    session.engine_event(EngineEvent::Running);
    assert_eq!(session.state.connection, ConnectionState::Connected);
    assert!(session.state.take_repaint_request());
    session.engine_event(EngineEvent::Stopped);
    assert_eq!(stopped(&session), "engine stopped");
    session.engine_event(EngineEvent::EngineFailed);
    assert_eq!(stopped(&session), "engine failed");
    session.engine_event(EngineEvent::ModuleError("broken".into()));
    assert_eq!(stopped(&session), "broken");
    session.engine_event(EngineEvent::Failed("gone".into()));
    assert_eq!(stopped(&session), "gone");
}

#[test]
fn the_user_selects_exports_and_changes_screens() {
    let mut session = desktop();
    session.apply(UiAction::Export);
    assert_eq!(session.draft.advanced_config, "");
    session.apply(UiAction::Import(uri("a")));
    session.apply(UiAction::Import(uri("b")));
    session.state.apply_status(status(1));
    session.apply(UiAction::Select(0));
    assert_eq!(session.state.selected, Some(0));
    assert!(session.state.status.is_none());
    session.apply(UiAction::Select(7));
    assert_eq!(session.state.selected, Some(0));
    session.apply(UiAction::Export);
    assert_eq!(session.draft.advanced_config, uri("a"));
    session.state.profiles[0].profile.wire_version = 9;
    session.apply(UiAction::Export);
    assert_eq!(session.draft.advanced_config, "");
    session.state.take_repaint_request();
    session.apply(UiAction::SetScreen(Screen::Profiles));
    assert!(!session.state.take_repaint_request());
    session.apply(UiAction::SetScreen(Screen::Advanced));
    assert_eq!(session.state.screen, Screen::Advanced);
    assert!(session.state.take_repaint_request());
    session.apply(UiAction::ApprovePackage("owner/none@1".into()));
    assert!(!session.state.take_repaint_request());
}

#[test]
fn profiles_that_the_platform_keeps_are_restored() {
    let names: Vec<String> = ["a.toml", ".toml", "b.txt", "toml", "..toml", "c.TOML"].map(String::from).to_vec();
    let candidates: Vec<&str> = restore_candidates(&names).into_iter().map(|i| names[i].as_str()).collect();
    assert_eq!(candidates, ["a.toml", "..toml"]);
    let many: Vec<String> = (0..70).map(|i| format!("{i}.toml")).collect();
    assert_eq!(restore_candidates(&many).len(), 64);
    let mut session = android();
    let metadata = || ProvisionProfile::from_profile(&profile("a"));
    session.restore_profile(metadata(), None);
    session.restore_profile(metadata(), Some("".into()));
    assert!(session.state.profiles.is_empty());
    session.restore_profile(metadata(), Some("kept".into()));
    session.restore_profile(metadata(), Some("other".into()));
    assert_eq!(session.state.profiles.len(), 1);
    assert_eq!(session.state.profiles[0].source, "Android Keystore");
    assert_eq!(session.state.profiles[0].profile.credential.expose(), "kept");
}

#[test]
fn secret_files_are_listed_in_order() {
    let generated = generate_client_config(&profile("a"), "/home", |_| None).unwrap();
    assert_eq!(
        secret_paths(&generated),
        ["/home/secrets/server-noise-key.hex", "/home/config/modules/policy.toml"]
    );
}

#[test]
fn the_event_loop_is_woken() {
    assert_eq!(react(UserEvent::Repaint(0)), Reaction::Redraw);
    assert_eq!(react(UserEvent::Repaint(7)), Reaction::WaitFor(7));
    assert_eq!(react(UserEvent::Runtime), Reaction::DrainEngine);
    assert_eq!(
        react(UserEvent::Platform(NativeEvent::NetworkChanged)),
        Reaction::Platform(NativeEvent::NetworkChanged)
    );
}

#[test]
fn operations_on_nothing_selected_are_refused() {
    let mut state = AppState::default();
    assert!(matches!(state.approve_package("x"), Err(ProfileError::Selection)));
    assert!(matches!(state.begin_connect(), Err(ProfileError::Selection)));
    assert!(matches!(state.select(0), Err(ProfileError::Selection)));
    assert!(matches!(state.selected_profile(), Err(ProfileError::Selection)));
    state.selected = Some(3);
    assert!(matches!(state.selected_profile(), Err(ProfileError::Selection)));
    assert!(matches!(
        state.import_profile("x", "s".into(), &PackageSet::new()),
        Err(ProfileError::Scheme)
    ));
    assert_eq!(state.import_profile(&uri("a"), "s".into(), &PackageSet::new()).unwrap(), 0);
    assert!(matches!(
        state.import_profile(&uri("a"), "s".into(), &PackageSet::new()),
        Err(ProfileError::DuplicateServer)
    ));
    assert!(matches!(state.approve_package("x"), Err(ProfileError::PackageApproval)));
    assert!(state.has_server("a"));
    assert!(!state.has_server("b"));
}

#[test]
fn status_goes_forward_and_grows_stale() {
    let mut state = AppState::default();
    state.take_repaint_request();
    state.mark_stale();
    assert!(!state.take_repaint_request());
    state.apply_status(status(5));
    state.apply_status(status(4));
    assert_eq!(state.status.as_ref().unwrap().revision, 5);
    state.apply_status(status(5));
    assert!(!state.status.as_ref().unwrap().stale);
    state.take_repaint_request();
    state.mark_stale();
    assert!(state.status.as_ref().unwrap().stale);
    assert!(state.take_repaint_request());
    state.apply_status(status(6));
    state.denied("no".into());
    assert!(!state.status.as_ref().unwrap().stale);
    state.stopped("end".into());
    assert!(state.status.as_ref().unwrap().stale);
}

#[test]
fn packages_are_listed_in_order_without_repetition() {
    let mut set = PackageSet::new();
    assert!(set.is_empty());
    for name in ["b", "a", "c", "a"] {
        set.insert(name);
    }
    assert_eq!(set.list(), &["a", "b", "c"]);
    assert!(set.contains("b"));
    assert!(set.remove("b"));
    assert!(!set.remove("b"));
    assert_eq!(set.list(), &["a", "c"]);
}

#[test]
fn the_interface_shows_the_state() {
    assert_eq!(screen_label(Screen::Profiles), "Profiles");
    assert_eq!(screen_label(Screen::Connection), "Connection");
    assert_eq!(screen_label(Screen::Advanced), "Advanced");
    assert_eq!(connection_label(&ConnectionState::Disconnected), "disconnected");
    assert_eq!(connection_label(&ConnectionState::Connecting), "connecting");
    assert_eq!(connection_label(&ConnectionState::Connected), "connected");
    assert_eq!(connection_label(&ConnectionState::Denied("x".into())), "denied: x");
    assert_eq!(connection_label(&ConnectionState::Stopped("y".into())), "stopped: y");
    assert_eq!(connection_button(&ConnectionState::Disconnected), ("Connect", UiAction::Connect));
    assert_eq!(connection_button(&ConnectionState::Connected), ("Disconnect", UiAction::Disconnect));
    assert_eq!(
        status_lines(&status(1)),
        ["used_bytes: 12", "limit_bytes: unlimited", "rate: 10/0 B/s", "expires_at: 2030-01-01", "reason: trial"]
    );
    let mut plain = status(1);
    plain.limit_bytes = Some(u64::MAX);
    plain.expires_at = None;
    plain.reason = None;
    assert_eq!(
        status_lines(&plain),
        ["used_bytes: 12", "limit_bytes: 18446744073709551615", "rate: 10/0 B/s"]
    );
    let mut state = AppState::default();
    state.import_profile(&uri("a"), "clipboard".into(), &PackageSet::new()).unwrap();
    state.import_profile(&uri("b"), "file".into(), &PackageSet::new()).unwrap();
    let rows = profile_rows(&state);
    assert_eq!(rows.len(), 2);
    assert!(!rows[0].selected && rows[1].selected);
    assert_eq!(rows[0].server_id, "a");
    assert_eq!(rows[0].endpoint, "endpoint: 203.0.113.1:443");
    assert_eq!(rows[0].source, "source: clipboard");
    assert_eq!(
        rows[0].pending,
        [
            "owenewans/adapter-tun@0.0.1",
            "owenewans/carrier-tcp@0.0.1",
            "owenewans/policy-local@0.0.1",
            "owenewans/protection-noise@0.0.1",
        ]
    );
    assert_eq!(approval_label("o/p@1"), "approval required: o/p@1");
}

#[test]
fn an_import_takes_what_was_typed() {
    let mut draft = UiDraft::default();
    assert_eq!(draft.take_import(), None);
    draft.import_uri = "snolc://profile/x".into();
    draft.advanced_config = "kept".into();
    assert_eq!(draft.take_import(), Some(UiAction::Import("snolc://profile/x".into())));
    assert_eq!(draft.import_uri, "");
    assert_eq!(draft.advanced_config, "kept");
}
