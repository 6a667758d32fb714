use sha2::{Digest, Sha256};
use snolc_ng::install::{hash_contents, InstallAction};
use snolc_ng::text::encode_hex;
use snolc_ng::{
    bundled_library_name, generate_client_config, install_bundled_modules, parse_subscription, persist_client_config,
    AccessProvisioning, AppState, ConnectionState, ModuleClass, OptionTable, OptionValue, PackageSet, Profile,
    ProfileError, ProfileModule, ProvisionProfile, Secret, ServerStatus, MAX_PROFILE_BYTES, MAX_SUBSCRIPTION_PROFILES,
};

fn profile() -> Profile {
    Profile {
        wire_version: 1,
        server_id: "node-1".into(),
        endpoint: "203.0.113.1:443".into(),
        modules: vec![
            module("tun", ModuleClass::Adapter),
            module("noise", ModuleClass::Protection),
            module("tcp", ModuleClass::Carrier),
            module("policy", ModuleClass::Policy),
        ],
        server_pin: "server-pin".into(),
        credential: Secret::new("credential".into()),
    }
}

fn provision_profile() -> ProvisionProfile {
    let profile = profile();
    ProvisionProfile {
        wire_version: profile.wire_version,
        server_id: profile.server_id.clone(),
        endpoint: profile.endpoint.clone(),
        modules: profile.modules.clone(),
        server_pin: profile.server_pin.clone(),
    }
}

fn module(instance: &str, class: ModuleClass) -> ProfileModule {
    ProfileModule {
        instance: instance.into(),
        package: format!("owenewans/{instance}@0.0.1"),
        class,
        options: OptionTable::new(),
    }
}

fn subscription(uris: Vec<String>) -> String {
    let mut document = toml::Table::new();
    let uris = uris.into_iter().map(toml::Value::String).collect();
    document.insert("profiles".into(), toml::Value::Array(uris));
    toml::to_string(&document).unwrap()
}

#[test]
fn uri_round_trip_uses_hostless_base64url_without_padding() {
    let profile = profile();
    let uri = profile.to_uri().unwrap();
    assert!(uri.starts_with("snolc://profile/"));
    assert!(!uri.contains('='));
    assert!(Profile::from_uri(&uri).unwrap() == profile);
}

#[test]
fn rejects_admin_paths_unknown_fields_and_oversized_input() {
    let mut profile = profile();
    profile.modules[0].options.insert("server_public_key_file", OptionValue::Text("/etc/passwd".into()));
    assert!(matches!(profile.validate(), Err(ProfileError::Value)));
    assert!(matches!(Profile::from_uri("https://profile/value"), Err(ProfileError::Scheme)));
    let unknown = "wire_version = 1\nunknown = true\n";
    assert!(Profile::parse_toml(unknown).is_err());
    assert!(matches!(Profile::parse_toml(&"x".repeat(MAX_PROFILE_BYTES + 1)), Err(ProfileError::Size)));
}

#[test]
fn secret_debug_is_redacted() {
    assert_eq!(profile().credential.redacted(), "[redacted]");
}

#[test]
fn provision_profile_serialization_excludes_the_credential() {
    let profile = profile();
    let metadata = ProvisionProfile::from_profile(&profile);
    let encoded = metadata.to_toml().unwrap();
    assert!(!encoded.contains(profile.credential.expose()));
    assert!(!encoded.contains("credential"));
    assert_eq!(ProvisionProfile::parse_toml(&encoded).unwrap(), metadata);
}

#[test]
fn provisioning_registers_only_the_digest_and_returns_one_profile() {
    let user_id = "00112233445566778899aabbccddeeff";
    let provisioning = AccessProvisioning::new(provision_profile(), user_id, "panel", 7).unwrap();
    let request: toml::Value = toml::from_str(std::str::from_utf8(provisioning.request()).unwrap()).unwrap();
    assert_eq!(request["method"].as_str(), Some("credential.add"));
    assert_eq!(request["client_id"].as_str(), Some("panel"));
    assert_eq!(request["seq"].as_integer(), Some(7));
    assert_eq!(request["user_id"].as_str(), Some(user_id));
    let digest = request["credential_sha256"].as_str().unwrap().to_owned();
    assert_eq!(digest.len(), 64);

    let access = provisioning
        .finish(format!("status = \"ok\"\nrevision = 2\nuser_id = \"{user_id}\"\n").as_bytes())
        .unwrap();
    let profile = Profile::from_uri(&access.uri).unwrap();
    assert_eq!(access.user_id, user_id);
    assert_eq!(access.revision, 2);
    assert_eq!(profile.credential.expose().len(), 64);
    let pairs = profile.credential.expose().as_bytes().chunks_exact(2);
    assert!(pairs.remainder().is_empty());
    let credential = pairs
        .map(|pair| {
            let pair = std::str::from_utf8(pair).unwrap();
            u8::from_str_radix(pair, 16).unwrap()
        })
        .collect::<Vec<_>>();
    assert_eq!(encode_hex(&Sha256::digest(credential)), digest);
    assert!(!access.uri.contains(profile.credential.expose()));
}

#[test]
fn provisioning_rejects_mismatched_or_extended_control_responses() {
    let user_id = "00112233445566778899aabbccddeeff";
    let provisioning = AccessProvisioning::new(provision_profile(), user_id, "panel", 1).unwrap();
    assert!(matches!(
        provisioning
            .finish(b"status = \"ok\"\nrevision = 2\nuser_id = \"ffeeddccbbaa99887766554433221100\"\n"),
        Err(ProfileError::ControlResponse)
    ));

    let provisioning = AccessProvisioning::new(provision_profile(), user_id, "panel", 2).unwrap();
    assert!(matches!(
        provisioning.finish(
            b"status = \"ok\"\nrevision = 2\nuser_id = \"00112233445566778899aabbccddeeff\"\nsecret = \"leak\"\n"
        ),
        Err(ProfileError::ControlResponse)
    ));
}

#[test]
fn subscription_limits_count_and_reuses_profile_parser() {
    let uri = profile().to_uri().unwrap();
    let input = subscription(vec![uri]);
    assert_eq!(parse_subscription(input.as_bytes()).unwrap().len(), 1);
    let profiles = vec![profile().to_uri().unwrap(); MAX_SUBSCRIPTION_PROFILES + 1];
    let input = subscription(profiles);
    assert!(matches!(parse_subscription(input.as_bytes()), Err(ProfileError::Subscription)));
}

#[test]
fn generated_client_config_passes_runtime_parser_and_keeps_paths_local() {
    let mut profile = profile();
    profile.modules[1].package = "owenewans/protection-noise@0.0.1".into();
    profile.modules[2].package = "owenewans/carrier-tcp@0.0.1".into();
    profile.modules[3].package = "owenewans/policy-local@0.0.1".into();
    let generated = generate_client_config(&profile, "/tmp/snolcNG-client", |_| None).unwrap();
    assert!(!generated.main_toml.contains(profile.credential.expose()));
    assert!(generated.files.iter().any(|file| file.path.ends_with("/server-noise-key.hex") && file.secret));
    assert!(generated.files.iter().any(|file| {
        file.path.ends_with("/policy.toml")
            && file.secret
            && String::from_utf8_lossy(&file.contents).contains(profile.credential.expose())
    }));
}

#[test]
fn persisted_client_config_is_atomic_and_private() {
    let root = "/tmp/snolcNG-persist";
    let mut profile = profile();
    profile.modules[1].package = "owenewans/protection-noise@0.0.1".into();
    profile.modules[2].package = "owenewans/carrier-tcp@0.0.1".into();
    profile.modules[3].package = "owenewans/policy-local@0.0.1".into();
    let generated = generate_client_config(&profile, root, |_| None).unwrap();
    let plan = persist_client_config(&generated, root).unwrap();
    assert_eq!(plan.root, root);
    assert_eq!(plan.root_mode & 0o777, 0o700);
    for write in &plan.writes {
        assert_eq!(write.mode & 0o777, 0o600);
        assert!(!write.path.ends_with(".tmp"));
    }
    assert_eq!(plan.main_path, generated.main_path);
    assert_eq!(plan.writes.len(), generated.files.len() + 1);
    let main = plan.writes.last().unwrap();
    assert_eq!(main.path, generated.main_path);
    assert_eq!(main.contents, generated.main_toml.as_bytes());
    let pin = plan.writes.iter().find(|write| write.path == "/tmp/snolcNG-persist/secrets/server-noise-key.hex");
    assert_eq!(pin.unwrap().contents, b"server-pin\n");
    assert!(matches!(persist_client_config(&generated, "/tmp/other"), Err(ProfileError::Path)));
    assert!(matches!(persist_client_config(&generated, "tmp"), Err(ProfileError::Path)));
}

#[test]
fn bundled_modules_get_content_addressed_locks() {
    let mut profile = profile();
    let names = ["adapter-tun", "protection-noise", "carrier-tcp", "policy-local"];
    for (module, name) in profile.modules.iter_mut().zip(names) {
        module.package = format!("owenewans/{name}@0.0.1");
    }
    let mut installation = install_bundled_modules(&profile, "/data/root", "/data/native", "android-test").unwrap();
    let made = InstallAction::MakeDirectory { path: "/data/root/packages".into(), mode: 0o700 };
    assert_eq!(installation.action().unwrap(), made);
    installation.file_written();
    for module in &profile.modules {
        let (identity, version) = module.package.rsplit_once('@').unwrap();
        let (owner, name) = identity.split_once('/').unwrap();
        let contents = format!("module:{name}");
        let hash = hash_contents(contents.as_bytes());
        let file = bundled_library_name(name).unwrap();
        let stored = format!("/data/root/packages/store/bundled/{owner}/{name}/{version}/android-test/{hash}/{file}");
        let native = format!("/data/native/{file}");
        assert_eq!(installation.action().unwrap(), InstallAction::ReadSource(native.clone()));
        installation.file_read(Some(contents.as_bytes())).unwrap();
        assert_eq!(installation.action().unwrap(), InstallAction::ReadLibrary(stored.clone()));
        installation.file_read(None).unwrap();
        match installation.action().unwrap() {
            InstallAction::CopyLibrary { source, library, mode } => {
                assert_eq!(source, native);
                assert_eq!(library, stored);
                assert_eq!(mode & 0o777, 0o400);
            }
            _ => panic!("not copied"),
        }
        installation.file_written();
        let lock = match installation.action().unwrap() {
            InstallAction::WriteLock { path, contents, .. } => {
                assert_eq!(path, format!("/data/root/packages/locks/{owner}/{name}/{version}.toml"));
                contents
            }
            _ => panic!("not locked"),
        };
        installation.file_written();
        let lock: toml::Value = toml::from_str(&lock).unwrap();
        assert_eq!(lock["package"].as_str(), Some(module.package.as_str()));
        assert_eq!(lock["content_sha256"].as_str().unwrap().len(), 64);
        assert_eq!(lock["content_sha256"].as_str(), Some(hash.as_str()));
        assert_eq!(lock["library"].as_str(), Some(stored.as_str()));
        assert_eq!(lock["target"].as_str(), Some("android-test"));
    }
    assert_eq!(installation.action().unwrap(), InstallAction::Finished);
}

#[test]
fn app_state_requires_package_approval_and_marks_disconnected_status_stale() {
    let profile = profile();
    let uri = profile.to_uri().unwrap();
    let mut app = AppState::default();
    let mut trusted = PackageSet::new();
    trusted.insert("owenewans/tun@0.0.1");
    trusted.insert("owenewans/noise@0.0.1");
    trusted.insert("owenewans/tcp@0.0.1");
    app.import_profile(&uri, "clipboard".into(), &trusted).unwrap();
    assert!(matches!(app.begin_connect(), Err(ProfileError::PackageApproval)));
    app.approve_package("owenewans/policy@0.0.1").unwrap();
    app.begin_connect().unwrap();
    app.connected();
    app.apply_status(ServerStatus {
        used_bytes: 12,
        limit_bytes: Some(100),
        upload_bytes_per_second: Some(10),
        download_bytes_per_second: Some(20),
        expires_at: None,
        revision: 2,
        reason: None,
        stale: true,
    });
    app.apply_status(ServerStatus {
        used_bytes: 1,
        limit_bytes: Some(100),
        upload_bytes_per_second: None,
        download_bytes_per_second: None,
        expires_at: None,
        revision: 1,
        reason: None,
        stale: false,
    });
    assert_eq!(app.status.as_ref().unwrap().used_bytes, 12);
    app.stopped("revoked".into());
    assert!(app.status.as_ref().unwrap().stale);
    assert!(matches!(app.connection, ConnectionState::Stopped(ref reason) if reason == "revoked"));
    assert!(app.take_repaint_request());
    assert!(!app.take_repaint_request());
}
