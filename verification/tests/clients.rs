use std::collections::HashMap;

use snolc_ng::atomic::{atomic_copy, atomic_write, FileStep};
use snolc_ng::client::{draft_client_config, settle_client_config};
use snolc_ng::deploy::persist_client_config;
use snolc_ng::install::{android_target, hash_contents, install_bundled_modules, place_bundled_module, InstallAction};
use snolc_ng::node::{find_field, Node, Shape};
use snolc_ng::paths::{child_path, file_place, is_absolute, is_within, temporary_name};
use snolc_ng::provisioning::{check_fields, read_response};
use snolc_ng::{
    bundled_library_name, generate_client_config, AccessProvisioning, EngineCheck, GeneratedClient, GeneratedFile,
    ModuleClass, OptionTable, OptionValue, Profile, ProfileError, ProfileModule, ProvisionProfile, Secret,
};

fn module(instance: &str, package: &str, class: ModuleClass) -> ProfileModule {
    ProfileModule { instance: instance.into(), package: package.into(), class, options: OptionTable::new() }
}

fn profile() -> Profile {
    Profile {
        wire_version: 1,
        server_id: "node-1".into(),
        endpoint: "203.0.113.1:443".into(),
        modules: vec![
            module("tun", "owenewans/adapter-tun@0.0.1", ModuleClass::Adapter),
            module("noise", "owenewans/protection-noise@0.0.1", ModuleClass::Protection),
            module("tcp", "owenewans/carrier-tcp@0.0.1", ModuleClass::Carrier),
            module("policy", "owenewans/policy-local@0.0.1", ModuleClass::Policy),
        ],
        server_pin: "server-pin".into(),
        credential: Secret::new("top-secret".into()),
    }
}

fn contents(generated: &GeneratedClient, path: &str) -> String {
    let file = generated.files.iter().find(|file| file.path == path).unwrap();
    String::from_utf8(file.contents.clone()).unwrap()
}

const USER: &str = "00112233445566778899aabbccddeeff";

#[test]
fn the_files_of_a_client_tell_its_engine_what_the_profile_says() {
    let generated = generate_client_config(&profile(), "/c", |_| None).unwrap();
    let paths: Vec<&str> = generated.files.iter().map(|file| file.path.as_str()).collect();
    assert_eq!(
        paths,
        [
            "/c/config/modules/tun.toml",
            "/c/secrets/server-noise-key.hex",
            "/c/config/modules/noise.toml",
            "/c/config/modules/tcp.toml",
            "/c/config/modules/policy.toml",
        ]
    );
    let secret: Vec<bool> = generated.files.iter().map(|file| file.secret).collect();
    assert_eq!(secret, [false, true, false, false, true]);
    assert_eq!(contents(&generated, "/c/secrets/server-noise-key.hex"), "server-pin\n");
    assert_eq!(
        contents(&generated, "/c/config/modules/tun.toml"),
        "instance = \"tun\"\npackage = \"owenewans/adapter-tun@0.0.1\"\nrole = \"client\"\nwire_version = 1\n\n[options]\n"
    );
    let noise: toml::Value = toml::from_str(&contents(&generated, "/c/config/modules/noise.toml")).unwrap();
    assert_eq!(noise["options"]["mode"].as_str(), Some("client"));
    assert_eq!(noise["options"]["server_public_key_file"].as_str(), Some("/c/secrets/server-noise-key.hex"));
    let tcp: toml::Value = toml::from_str(&contents(&generated, "/c/config/modules/tcp.toml")).unwrap();
    assert_eq!(tcp["options"]["mode"].as_str(), Some("connect"));
    assert_eq!(tcp["options"]["endpoint_ip"].as_str(), Some("203.0.113.1:443"));
    let policy: toml::Value = toml::from_str(&contents(&generated, "/c/config/modules/policy.toml")).unwrap();
    assert_eq!(policy["options"]["server_id"].as_str(), Some("node-1"));
    assert_eq!(policy["options"]["credential_transport"].as_str(), Some("protected"));
    assert_eq!(policy["options"]["storage"]["path"].as_str(), Some("/c/state/policy-client.redb"));
    assert_eq!(policy["options"]["client"]["credential"]["source"].as_str(), Some("toml"));
    assert_eq!(policy["options"]["client"]["credential"]["value"].as_str(), Some("top-secret"));
}

#[test]
fn the_main_file_of_a_client_is_fixed_but_for_its_paths() {
    let generated = generate_client_config(&profile(), "/c/", |_| None).unwrap();
    assert_eq!(generated.main_path, "/c/config/snolc.toml");
    assert_eq!(
        generated.main_toml,
        "wire_version = 1\n\n[control]\nmode = \"off\"\n\n[engine]\nconnect_timeout_ms = 15000\n\
         handshake_timeout_ms = 15000\nmax_commands = 64\nmax_events = 256\nmax_flows = 32\n\
         max_ingress_packets_per_tick = 32\nmax_io_chunk = 16384\nmax_managed_bytes = 33554432\n\
         max_pending_opens = 8\nmax_pending_sessions = 2\nmax_sessions = 2\nshutdown_timeout_ms = 5000\n\n\
         [logging]\nfile = \"/c/state/snolc.log\"\nflush_interval_ms = 1000\n\
         levels = [\"warning\", \"error\", \"debug\"]\nlimit = \"8mb\"\nmax_record_bytes = 2048\nmode = \"file\"\n\
         on_io_error = \"event\"\nqueue_bytes = 65536\nsource = \"toml\"\n\n\
         [paths]\npackages = \"/c/packages\"\nstate = \"/c/state\"\n\n\
         [stack]\nipv4 = true\nipv6 = true\nmax_udp_payload_bytes = 65507\nmtu = 1280\n\
         packet_queue_bytes = 262144\nreassembly_slots = 4\nreassembly_timeout_ms = 15000\n\
         tcp_socket_rx_bytes = 16384\ntcp_socket_tx_bytes = 16384\nudp_metadata_slots = 8\n\
         udp_socket_rx_bytes = 131072\nudp_socket_tx_bytes = 131072\n\n\
         [[tunnels]]\nadapters = [\"/c/config/modules/tun.toml\"]\ncarrier = \"/c/config/modules/tcp.toml\"\n\
         name = \"main\"\npolicy = \"/c/config/modules/policy.toml\"\n\
         protection = \"/c/config/modules/noise.toml\"\nrole = \"client\"\n\n\
         [yamux]\nmax_streams_per_session = 17\nread_after_close = true\nreceive_window_bytes = 4456448\n\
         split_send_size = 16384\n"
    );
}

#[test]
fn the_credential_stays_in_secret_files() {
    let left = generate_client_config(&profile(), "/c", |_| None).unwrap();
    let mut other = profile();
    other.credential = Secret::new("another".into());
    let right = generate_client_config(&other, "/c", |_| None).unwrap();
    assert_eq!(left.main_toml, right.main_toml);
    assert_eq!(left.files.len(), right.files.len());
    for (left, right) in left.files.iter().zip(&right.files) {
        assert_eq!(left.path, right.path);
        assert!(left.secret || left.contents == right.contents);
    }
    assert!(left != right);
}

#[test]
fn the_storage_of_a_policy_is_kept_where_it_is_a_table() {
    let mut kept = profile();
    let mut storage = OptionTable::new();
    storage.insert("size", OptionValue::Integer(7));
    kept.modules[3].options.insert("storage", OptionValue::Table(storage));
    let generated = generate_client_config(&kept, "/c", |_| None).unwrap();
    let policy: toml::Value = toml::from_str(&contents(&generated, "/c/config/modules/policy.toml")).unwrap();
    assert_eq!(policy["options"]["storage"]["size"].as_integer(), Some(7));
    assert_eq!(policy["options"]["storage"]["path"].as_str(), Some("/c/state/policy-client.redb"));
    let mut broken = profile();
    broken.modules[3].options.insert("storage", OptionValue::Integer(7));
    assert!(matches!(generate_client_config(&broken, "/c", |_| None), Err(ProfileError::Value)));
    assert!(matches!(generate_client_config(&profile(), "c", |_| None), Err(ProfileError::Path)));
    broken.wire_version = 3;
    assert!(matches!(generate_client_config(&broken, "c", |_| None), Err(ProfileError::Value)));
}

#[test]
fn a_draft_lists_what_the_engine_must_accept() {
    let draft = draft_client_config(&profile(), "/c");
    let paths: Vec<(&str, bool)> = draft.checks.iter().map(|check| (check.path.as_str(), check.main)).collect();
    assert_eq!(
        paths,
        [
            ("/c/config/modules/tun.toml", false),
            ("/c/config/modules/noise.toml", false),
            ("/c/config/modules/tcp.toml", false),
            ("/c/config/modules/policy.toml", false),
            ("/c/config", true),
        ]
    );
    let settled = settle_client_config(draft, None).unwrap();
    assert_eq!(settled, generate_client_config(&profile(), "/c", |_| None).unwrap());
    let draft = draft_client_config(&profile(), "/c");
    assert_eq!(draft.checks[4].text, settled.main_toml);
    assert!(matches!(
        settle_client_config(draft, Some("bad".into())),
        Err(ProfileError::Generated(message)) if message == "bad"
    ));
    let mut broken = profile();
    broken.modules[3].options.insert("storage", OptionValue::Integer(7));
    let draft = draft_client_config(&broken, "/c");
    assert_eq!(draft.checks.len(), 3);
    assert!(matches!(settle_client_config(draft, Some("bad".into())), Err(ProfileError::Generated(_))));
}

#[test]
fn what_the_engine_refuses_first_is_the_error() {
    let refuse = |part: &'static str| {
        move |check: &EngineCheck| if check.text.contains(part) { Some(check.path.clone()) } else { None }
    };
    let generate = |profile: &Profile, part| generate_client_config(profile, "/c", refuse(part));
    for (part, path) in [
        ("carrier-tcp", "/c/config/modules/tcp.toml"),
        ("role", "/c/config/modules/tun.toml"),
        ("yamux", "/c/config"),
    ] {
        match generate(&profile(), part) {
            Err(ProfileError::Generated(message)) => assert_eq!(message, path),
            _ => panic!("accepted"),
        }
    }
    assert!(generate(&profile(), "nowhere").is_ok());
    let mut broken = profile();
    broken.modules[3].options.insert("storage", OptionValue::Integer(7));
    assert!(matches!(generate(&broken, "role"), Err(ProfileError::Generated(_))));
    assert!(matches!(generate(&broken, "nowhere"), Err(ProfileError::Value)));
    assert!(matches!(generate_client_config(&profile(), "c", refuse("role")), Err(ProfileError::Path)));
}

#[test]
fn a_second_installation_leaves_the_same_files() {
    let run = |files: &mut HashMap<String, Vec<u8>>| {
        let mut installation = install_bundled_modules(&profile(), "/r", "/n", "t").unwrap();
        let mut copied = 0;
        loop {
            match installation.action().unwrap() {
                InstallAction::MakeDirectory { .. } => installation.file_written(),
                InstallAction::ReadSource(path) | InstallAction::ReadLibrary(path) => {
                    installation.file_read(files.get(&path).map(|contents| contents.as_slice())).unwrap();
                }
                InstallAction::CopyLibrary { source, library, .. } => {
                    let contents = files[&source].clone();
                    files.insert(library, contents);
                    installation.file_written();
                    copied += 1;
                }
                InstallAction::WriteLock { path, contents, .. } => {
                    files.insert(path, contents.into_bytes());
                    installation.file_written();
                }
                InstallAction::Finished => return copied,
            }
        }
    };
    let mut files: HashMap<String, Vec<u8>> = HashMap::new();
    for name in ["adapter_tun", "protection_noise", "carrier_tcp", "policy_local"] {
        files.insert(format!("/n/libsnolc_{name}.so"), name.as_bytes().to_vec());
    }
    assert_eq!(run(&mut files), 4);
    let left = files.clone();
    assert_eq!(left.len(), 12);
    assert_eq!(run(&mut files), 0);
    assert_eq!(files, left);
}

#[test]
fn files_of_a_client_stay_under_its_root_and_apart() {
    let generated = generate_client_config(&profile(), "/c/./d//", |_| None).unwrap();
    let plan = persist_client_config(&generated, "/c/d").unwrap();
    let mut paths: Vec<&str> = plan.writes.iter().map(|write| write.path.as_str()).collect();
    paths.sort();
    paths.dedup();
    assert_eq!(paths.len(), plan.writes.len());
    let mut escaped = generated;
    escaped.files.push(GeneratedFile { path: "/c/other".into(), contents: Vec::new(), secret: false });
    assert!(matches!(persist_client_config(&escaped, "/c/d"), Err(ProfileError::Path)));
}

#[test]
fn paths_are_told_apart_by_their_components() {
    assert!(is_absolute("/"));
    assert!(!is_absolute(""));
    assert!(!is_absolute("a/b"));
    assert_eq!(child_path("/a", "b"), "/a/b");
    assert_eq!(child_path("/a/", "b"), "/a/b");
    assert_eq!(child_path("/", "b"), "/b");
    assert!(is_within("/a/b/c", "/a/b"));
    assert!(is_within("/a/b", "/a/b/"));
    assert!(is_within("/a//./b/c", "/a/b"));
    assert!(is_within("/a", "/"));
    assert!(!is_within("/a/bc", "/a/b"));
    assert!(!is_within("/a", "/a/b"));
    assert!(!is_within("a/b", "/a"));
    assert!(!is_within("a/b", "a"));
}

#[test]
fn temporary_names_tell_writes_apart() {
    assert_eq!(temporary_name("snolc.toml", 4321, 10), ".snolc.toml.4321-10.tmp");
    assert_eq!(temporary_name("x", 0, u64::MAX), ".x.0-18446744073709551615.tmp");
    assert_ne!(temporary_name("x", 1, 12), temporary_name("x", 11, 2));
}

#[test]
fn files_are_written_under_a_temporary_name_first() {
    let plan = atomic_write("/a/b.toml", 0o600, 9, 4).unwrap();
    assert_eq!(plan.directory, "/a");
    assert_eq!(plan.directory_mode, 0o700);
    let file = plan.file.unwrap();
    assert_eq!(file.temporary, "/a/.b.toml.9-4.tmp");
    assert_eq!(
        file.steps,
        [
            FileStep::CreateNew("/a/.b.toml.9-4.tmp".into()),
            FileStep::SetMode("/a/.b.toml.9-4.tmp".into(), 0o600),
            FileStep::WriteContents,
            FileStep::SyncFile,
            FileStep::Rename("/a/.b.toml.9-4.tmp".into(), "/a/b.toml".into()),
            FileStep::SetMode("/a/b.toml".into(), 0o600),
            FileStep::SyncDirectory("/a".into()),
        ]
    );
    assert_eq!(file.on_failure, [FileStep::Remove("/a/.b.toml.9-4.tmp".into())]);
    let plan = atomic_copy("/n/l.so", "/l.so", 0o400, 9, 5).unwrap();
    let file = plan.file.unwrap();
    assert_eq!(file.on_failure, [FileStep::Remove("/.l.so.9-5.tmp".into())]);
    assert_eq!(
        file.steps,
        [
            FileStep::OpenSource("/n/l.so".into()),
            FileStep::CreateNew("/.l.so.9-5.tmp".into()),
            FileStep::CopyContents,
            FileStep::SyncFile,
            FileStep::Rename("/.l.so.9-5.tmp".into(), "/l.so".into()),
            FileStep::SetMode("/l.so".into(), 0o400),
            FileStep::SyncDirectory("/".into()),
        ]
    );
    assert!(matches!(atomic_write("/", 0o600, 1, 1), Err(ProfileError::Path)));
    for (path, directory) in [("/a/..", "/a"), ("..", ""), (".", ""), ("/a/./..", "/a"), ("./..", "."), ("/..", "/")] {
        let plan = atomic_write(path, 0o600, 1, 1).unwrap();
        assert_eq!((plan.directory.as_str(), plan.directory_mode), (directory, 0o700), "{path}");
        assert_eq!(plan.file, Err(ProfileError::Path));
        assert_eq!(atomic_copy("/n", path, 0o400, 1, 1).unwrap(), atomic_write(path, 0o600, 1, 1).unwrap());
    }
    assert!(matches!(atomic_copy("/a", "", 0o600, 1, 1), Err(ProfileError::Path)));
    for (path, directory, name) in [
        ("/a/b/./", "/a", "b"),
        ("b", "", "b"),
        ("/a/.//b", "/a", "b"),
        ("//b", "/", "b"),
        ("./b", ".", "b"),
        ("/a/../b", "/a/..", "b"),
        ("/a/...", "/a", "..."),
    ] {
        assert_eq!(file_place(path), Some((directory.to_owned(), Some(name.to_owned()))), "{path}");
        let std = std::path::Path::new(path);
        assert_eq!(std.parent().unwrap().to_str(), Some(directory));
        assert_eq!(std.file_name().unwrap().to_str(), Some(name));
    }
    for path in ["", "/", "//", "/.", "/./"] {
        assert_eq!(file_place(path), None);
        assert_eq!(std::path::Path::new(path).parent(), None);
    }
}

#[test]
fn bundled_modules_are_installed_once_each() {
    let mut profile = profile();
    profile.modules.push(module("second", "owenewans/adapter-tun@0.0.1", ModuleClass::Adapter));
    profile.modules.push(module("foreign", "someone/adapter-tun@0.0.1", ModuleClass::Adapter));
    profile.modules.push(module("unknown", "owenewans/adapter-none@0.0.1", ModuleClass::Adapter));
    let bundled = install_bundled_modules(&profile, "/r", "/n/", "t").unwrap().modules;
    let names: Vec<&str> = bundled.iter().map(|module| module.name.as_str()).collect();
    assert_eq!(names, ["adapter-tun", "protection-noise", "carrier-tcp", "policy-local"]);
    assert_eq!(bundled[0].source, "/n/libsnolc_adapter_tun.so");
    assert_eq!(bundled[0].owner, "owenewans");
    assert_eq!(bundled[0].version, "0.0.1");
    assert!(matches!(install_bundled_modules(&profile, "r", "/n", "t"), Err(ProfileError::Path)));
    assert!(matches!(install_bundled_modules(&profile, "/r", "n", "t"), Err(ProfileError::Path)));
    profile.modules.clear();
    assert!(matches!(install_bundled_modules(&profile, "r", "n", "t"), Err(ProfileError::Value)));
}

#[test]
fn bundled_libraries_and_targets_have_names() {
    let names =
        ["adapter-socks5", "adapter-http-connect", "adapter-direct", "protection-dummy", "carrier-ssh", "policy-dummy"];
    for name in names {
        let library = format!("libsnolc_{}.so", name.replace('-', "_"));
        assert_eq!(bundled_library_name(name), Some(library.as_str()));
    }
    assert_eq!(bundled_library_name("adapter"), None);
    assert_eq!(android_target("aarch64"), "aarch64-linux-android");
    assert_eq!(android_target("arm"), "armv7-linux-androideabi");
    assert_eq!(android_target("x86_64"), "android-test");
}

#[test]
fn a_library_is_copied_kept_or_refused_by_its_digest() {
    let hash = hash_contents(b"abc");
    assert_eq!(hash, "ba7816bf8f01cfea414140de5dae2223b00361a396177a9cb410ff61f20015ad");
    let begin = || {
        let mut installation = install_bundled_modules(&profile(), "/r", "/n", "t").unwrap();
        let made = InstallAction::MakeDirectory { path: "/r/packages".into(), mode: 0o700 };
        assert_eq!(installation.action().unwrap(), made);
        installation.file_written();
        installation
    };
    let mut missing = begin();
    assert!(matches!(missing.file_read(None), Err(ProfileError::BundledModule)));
    let mut kept = begin();
    kept.file_read(Some(b"abc")).unwrap();
    let placement = place_bundled_module(&kept.modules[0], "/r", "t", &hash).unwrap();
    assert_eq!(placement.store, format!("/r/packages/store/bundled/owenewans/adapter-tun/0.0.1/t/{hash}"));
    assert_eq!(kept.action().unwrap(), InstallAction::ReadLibrary(placement.library));
    kept.file_read(Some(b"abc")).unwrap();
    assert!(matches!(kept.action().unwrap(), InstallAction::WriteLock { .. }));
    assert!(matches!(kept.file_read(Some(b"abc")), Err(ProfileError::BundledModule)));
    kept.file_written();
    assert_eq!(kept.action().unwrap(), InstallAction::ReadSource("/n/libsnolc_protection_noise.so".into()));
    kept.file_written();
    assert_eq!(kept.index, 1);
    let mut changed = begin();
    changed.file_read(Some(b"abc")).unwrap();
    assert!(matches!(changed.file_read(Some(b"abd")), Err(ProfileError::BundledModule)));
    let mut copied = begin();
    copied.file_read(Some(b"abc")).unwrap();
    copied.file_read(None).unwrap();
    assert!(matches!(copied.action().unwrap(), InstallAction::CopyLibrary { mode: 0o400, .. }));
}

#[test]
fn a_request_carries_the_digest_of_the_credential() {
    let metadata = ProvisionProfile::from_profile(&profile());
    let provisioning = AccessProvisioning::with_secret(metadata, USER, "panel", u64::MAX, [0; 32]).unwrap();
    assert_eq!(
        std::str::from_utf8(provisioning.request()).unwrap(),
        "method = \"credential.add\"\nclient_id = \"panel\"\nseq = 18446744073709551615\n\
         user_id = \"00112233445566778899aabbccddeeff\"\n\
         credential_sha256 = \"66687aadf862bd776c8fc18b8e9f8e20089714856ee233b3902a591d0d5f2925\"\n"
    );
    let response = format!("user_id = \"{USER}\"\nrevision = 18446744073709551615\nstatus = \"ok\"\n");
    let access = provisioning.finish(response.as_bytes()).unwrap();
    assert_eq!(access.revision, u64::MAX);
    let read = Profile::from_uri(&access.uri).unwrap();
    assert_eq!(read.credential.expose(), "0".repeat(64));
}

#[test]
fn a_credential_is_asked_for_with_valid_input_only() {
    let ask = |user: &str, client: &str, seq: u64| {
        AccessProvisioning::new(ProvisionProfile::from_profile(&profile()), user, client, seq).err()
    };
    assert_eq!(ask(USER, "panel", 1), None);
    assert_eq!(ask("0011", "panel", 1), Some(ProfileError::Provisioning));
    assert_eq!(ask(&USER.to_uppercase(), "panel", 1), Some(ProfileError::Provisioning));
    assert_eq!(ask(USER, "", 1), Some(ProfileError::Provisioning));
    assert_eq!(ask(USER, "a b", 1), Some(ProfileError::Provisioning));
    assert_eq!(ask(USER, "panel", 0), Some(ProfileError::Provisioning));
    let mut broken = profile();
    broken.server_pin.clear();
    let metadata = ProvisionProfile::from_profile(&broken);
    assert_eq!(AccessProvisioning::new(metadata, "", "", 0).err(), Some(ProfileError::Value));
}

#[test]
fn credentials_are_random() {
    let ask = || AccessProvisioning::new(ProvisionProfile::from_profile(&profile()), USER, "panel", 1).unwrap();
    assert_ne!(ask().request(), ask().request());
}

#[test]
fn a_response_says_that_the_credential_of_the_user_was_added() {
    let read = |text: &str| read_response(text.as_bytes(), USER);
    assert_eq!(read(&format!("status = 'ok'\nrevision = 0x10\nuser_id = '{USER}'")), Some(16));
    assert_eq!(read(&format!("status = 'no'\nrevision = 1\nuser_id = '{USER}'")), None);
    assert_eq!(read(&format!("status = 'ok'\nrevision = 0\nuser_id = '{USER}'")), None);
    assert_eq!(read(&format!("status = 'ok'\nrevision = -1\nuser_id = '{USER}'")), None);
    assert_eq!(read(&format!("status = 'ok'\nrevision = 18446744073709551616\nuser_id = '{USER}'")), None);
    assert_eq!(read(&format!("status = 'ok'\nrevision = '1'\nuser_id = '{USER}'")), None);
    assert_eq!(read("status = 'ok'\nrevision = 1\nuser_id = 'x'"), None);
    assert_eq!(read(&format!("status = 'ok'\nrevision = 1\nuser_id = '{USER}'\nx = 1")), None);
    assert_eq!(read(&format!("status = 'ok'\nuser_id = '{USER}'")), None);
    assert_eq!(read(""), None);
    assert_eq!(read("status"), None);
    assert_eq!(read_response(&[0xff], USER), None);
    let padded = format!("status = 'ok'\nrevision = 1\nuser_id = '{USER}'\n#");
    let fill = 16_384 - padded.len();
    assert_eq!(read(&format!("{padded}{}", "x".repeat(fill))), Some(1));
    assert_eq!(read(&format!("{padded}{}", "x".repeat(fill + 1))), None);
}

#[test]
fn fields_are_found_by_their_keys() {
    let node = |shape| Node { shape, options: None };
    let fields = vec![
        ("status".to_owned(), node(Shape::Text("ok".into()))),
        ("revision".to_owned(), node(Shape::Number(3))),
        ("user_id".to_owned(), node(Shape::Text("u".into()))),
    ];
    assert!(matches!(find_field(&fields, "revision"), Some(Node { shape: Shape::Number(3), .. })));
    assert!(find_field(&fields, "other").is_none());
    assert_eq!(check_fields(&fields, "u"), Some(3));
    assert_eq!(check_fields(&fields, "v"), None);
    let fields = vec![("status".to_owned(), node(Shape::Other))];
    assert_eq!(check_fields(&fields, "u"), None);
}
