use snolc_ng::document::{print_table, MAX_DEPTH};
use snolc_ng::format::{decode_profile, decode_provision, MAX_OPTION_TABLES};
use snolc_ng::node::{read_document, Node, Shape};
use snolc_ng::options::contains_privileged_option;
use snolc_ng::profile::{valid_name, valid_package};
use snolc_ng::subscription::{accept_length, prepare_fetch, subscription_from_document, MAX_SUBSCRIPTION_BYTES};
use snolc_ng::tree::read_unsigned;
use snolc_ng::uri::{frame_uri, MAX_ENCODED_PROFILE_BYTES};
use snolc_ng::{
    parse_subscription, ModuleClass, OptionTable, OptionValue, Profile, ProfileError, ProfileModule, ProvisionProfile,
    Secret, MAX_PROFILE_BYTES,
};

fn module(instance: &str, class: ModuleClass) -> ProfileModule {
    ProfileModule {
        instance: instance.into(),
        package: format!("owenewans/{instance}@0.0.1"),
        class,
        options: OptionTable::new(),
    }
}

fn profile() -> Profile {
    Profile {
        wire_version: 1,
        server_id: "node-1".into(),
        endpoint: "203.0.113.1:443".into(),
        modules: vec![
            module("tun", ModuleClass::Adapter),
            module("noise", ModuleClass::Protection),
            module("tcp", ModuleClass::Carrier),
            module("policy", ModuleClass::Policy),
        ],
        server_pin: "server-pin".into(),
        credential: Secret::new("credential".into()),
    }
}

fn document(text: &str) -> Vec<(String, Node)> {
    read_document(text).unwrap()
}

fn options(text: &str) -> OptionTable {
    let mut whole = toml::Table::new();
    whole.insert("options".into(), toml::Value::Table(toml::from_str(text).unwrap()));
    document(&toml::to_string(&whole).unwrap()).remove(0).1.options.unwrap()
}

fn valid_with(change: impl Fn(&mut Profile)) -> bool {
    let mut profile = profile();
    change(&mut profile);
    match profile.validate() {
        Ok(()) => true,
        Err(error) => {
            assert_eq!(error, ProfileError::Value);
            false
        }
    }
}

const HEAD: &str = "wire_version = 1\nserver_id = \"node-1\"\nendpoint = \"e\"\nserver_pin = \"p\"\ncredential = \"c\"\n";

#[test]
fn names_are_short_ascii_words() {
    assert!(valid_name("a"));
    assert!(valid_name("Node_1-b"));
    assert!(valid_name(&"x".repeat(64)));
    assert!(!valid_name(&"x".repeat(65)));
    assert!(!valid_name(""));
    assert!(!valid_name("a b"));
    assert!(!valid_name("a/b"));
    assert!(!valid_name("a.b"));
    assert!(!valid_name("\u{e9}"));
}

#[test]
fn packages_have_an_owner_a_name_and_a_version() {
    assert!(valid_package("owner/name@1"));
    assert!(valid_package("o.w-n_er/na.me@1.0.0+build"));
    assert!(!valid_package("owner/name"));
    assert!(!valid_package("name@1"));
    assert!(!valid_package("/name@1"));
    assert!(!valid_package("owner/@1"));
    assert!(!valid_package("owner/name@"));
    assert!(!valid_package("owner/a/b@1"));
    assert!(!valid_package("own+er/name@1"));
    assert!(!valid_package("owner/name@1@2"));
    assert!(!valid_package("owner/name@1/2"));
}

#[test]
fn a_profile_is_valid_within_its_limits() {
    assert!(valid_with(|_| {}));
    assert!(!valid_with(|p| p.wire_version = 2));
    assert!(!valid_with(|p| p.server_id = "".into()));
    assert!(!valid_with(|p| p.endpoint = "".into()));
    assert!(valid_with(|p| p.endpoint = "e".repeat(512)));
    assert!(!valid_with(|p| p.endpoint = "e".repeat(513)));
    assert!(!valid_with(|p| p.endpoint = "\u{e9}".repeat(257)));
    assert!(!valid_with(|p| p.server_pin = "".into()));
    assert!(!valid_with(|p| p.server_pin = "p".repeat(513)));
    assert!(!valid_with(|p| p.credential = Secret::new("".into())));
    assert!(valid_with(|p| p.credential = Secret::new("c".repeat(1024))));
    assert!(!valid_with(|p| p.credential = Secret::new("c".repeat(1025))));
}

#[test]
fn a_profile_has_one_module_of_each_class_but_adapters() {
    assert!(!valid_with(|p| p.modules.clear()));
    assert!(!valid_with(|p| {
        p.modules.remove(0);
    }));
    assert!(!valid_with(|p| {
        p.modules.remove(1);
    }));
    assert!(!valid_with(|p| {
        p.modules.remove(2);
    }));
    assert!(!valid_with(|p| {
        p.modules.remove(3);
    }));
    assert!(valid_with(|p| p.modules.push(module("second", ModuleClass::Adapter))));
    assert!(!valid_with(|p| p.modules.push(module("second", ModuleClass::Policy))));
    assert!(!valid_with(|p| p.modules.push(module("tun", ModuleClass::Adapter))));
    assert!(!valid_with(|p| p.modules[0].instance = "a/b".into()));
    assert!(!valid_with(|p| p.modules[0].package = "owner".into()));
    assert!(valid_with(|p| {
        for i in 0..12 {
            p.modules.push(module(&format!("a{i}"), ModuleClass::Adapter));
        }
    }));
    assert!(!valid_with(|p| {
        for i in 0..13 {
            p.modules.push(module(&format!("a{i}"), ModuleClass::Adapter));
        }
    }));
}

#[test]
fn privileged_options_are_found_in_tables_and_in_tables_of_arrays() {
    for text in [
        "path = 1",
        "FILE = 1",
        "directory = 1",
        "Socket = 1",
        "command = 1",
        "script = 1",
        "packages = 1",
        "state = 1",
        "log = 1",
        "key_path = 1",
        "Key_File = 1",
        "a_directory = 1",
        "[a.b]\nlog = 1",
        "[[a]]\nx = 1\n[[a]]\nscript = 1",
        "a = [1, { path = 1 }]",
    ] {
        assert!(contains_privileged_option(&options(text)), "{text}");
    }
    for text in ["", "pathx = 1", "mode = \"path\"", "file_ = 1", "a = [[{ path = 1 }]]", "[a]\nb = [1]"] {
        assert!(!contains_privileged_option(&options(text)), "{text}");
    }
}

#[test]
fn a_profile_is_written_in_the_order_of_its_fields() {
    let mut profile = profile();
    profile.modules.truncate(1);
    profile.modules[0].options = options("b = 2\na = \"x\"\n[t]\nz = true\n");
    let metadata = ProvisionProfile::from_profile(&profile);
    assert_eq!(
        metadata.to_toml().unwrap(),
        "wire_version = 1\nserver_id = \"node-1\"\nendpoint = \"203.0.113.1:443\"\nserver_pin = \"server-pin\"\n\n\
         [[modules]]\ninstance = \"tun\"\npackage = \"owenewans/tun@0.0.1\"\nclass = \"adapter\"\n\n\
         [modules.options]\na = \"x\"\nb = 2\n\n[modules.options.t]\nz = true\n"
    );
}

#[test]
fn a_uri_carries_the_bytes_of_a_text_in_base64() {
    assert_eq!(frame_uri("a").unwrap(), "snolc://profile/YQ");
    assert_eq!(frame_uri("a?>").unwrap(), "snolc://profile/YT8-");
    assert_eq!(frame_uri("\u{fffd}").unwrap(), "snolc://profile/77-9");
    assert!(frame_uri(&"x".repeat(MAX_PROFILE_BYTES)).is_ok());
    assert!(matches!(frame_uri(&"x".repeat(MAX_PROFILE_BYTES + 1)), Err(ProfileError::Size)));
}

#[test]
fn a_uri_that_is_no_profile_says_why() {
    let read = |uri: &str| Profile::from_uri(uri).err().unwrap();
    assert_eq!(read(""), ProfileError::Scheme);
    assert_eq!(read("SNOLC://profile/YQ"), ProfileError::Scheme);
    assert_eq!(read("snolc://profile/"), ProfileError::Size);
    assert_eq!(read("snolc://profile/YQ=="), ProfileError::Size);
    assert_eq!(read("snolc://profile/\u{e9}"), ProfileError::Size);
    assert_eq!(read(&format!("snolc://profile/{}", "A".repeat(MAX_ENCODED_PROFILE_BYTES + 1))), ProfileError::Size);
    assert_eq!(read(&format!("snolc://profile/{}", "A".repeat(MAX_ENCODED_PROFILE_BYTES))), ProfileError::Size);
    assert_eq!(read("snolc://profile/!!!!"), ProfileError::Base64);
    assert_eq!(read("snolc://profile/A"), ProfileError::Base64);
    assert_eq!(read("snolc://profile/_w"), ProfileError::Utf8);
    assert!(matches!(read("snolc://profile/YQ"), ProfileError::Toml(_)));
    assert!(matches!(read(&frame_uri("wire_version = 1").unwrap()), ProfileError::Toml(_)));
    let mut invalid = profile();
    invalid.wire_version = 2;
    assert_eq!(invalid.to_uri().err().unwrap(), ProfileError::Value);
}

#[test]
fn bytes_are_read_as_the_text_that_they_stand_for() {
    let text = format!(
        "{HEAD}modules = [['a', 'o/a@1', 'adapter', {{}}], ['p', 'o/p@1', 'protection', {{}}], \
         ['c', 'o/c@1', 'carrier', {{}}], ['q', 'o/q@1', 'policy', {{}}]]\n"
    );
    let read = Profile::from_bytes(text.as_bytes()).unwrap();
    assert!(read == Profile::parse_toml(&text).unwrap());
    assert_eq!(read.modules[2].class, ModuleClass::Carrier);
    assert_eq!(read.modules[0].instance, "a");
    assert_eq!(Profile::from_bytes(&[0xff]).err().unwrap(), ProfileError::Utf8);
    assert_eq!(Profile::from_bytes(&[]).err().unwrap(), ProfileError::Size);
    assert_eq!(Profile::from_bytes(&vec![b'x'; MAX_PROFILE_BYTES + 1]).err().unwrap(), ProfileError::Size);
}

#[test]
fn modules_are_tables_or_arrays_and_classes_names_or_tables() {
    let one = |module: &str| {
        let table = document(&format!("{HEAD}modules = [{module}]\n"));
        decode_profile(&table).map(|profile| profile.modules[0].clone())
    };
    let named = one("{ instance = 'a', package = 'o/a@1', class = 'adapter', options = { x = 1 } }").unwrap();
    assert_eq!(named.options, options("x = 1"));
    assert_eq!(one("['a', 'o/a@1', 'adapter', { x = 1 }]").unwrap(), named);
    assert_eq!(one("['a', 'o/a@1', 'adapter', { x = 1 }, 5]").unwrap(), named);
    assert_eq!(one("['a', 'o/a@1', { adapter = {} }, { x = 1 }]").unwrap(), named);
    assert_eq!(one("['a', 'o/a@1', { adapter = [] }, { x = 1 }]").unwrap(), named);
    for broken in [
        "['a', 'o/a@1', 'adapter']",
        "['a', 'o/a@1', 'Adapter', {}]",
        "['a', 'o/a@1', { adapter = 1 }, {}]",
        "['a', 'o/a@1', { adapter = {}, carrier = {} }, {}]",
        "[1, 'o/a@1', 'adapter', {}]",
        "['a', 'o/a@1', 'adapter', 5]",
        "{ instance = 'a', package = 'o/a@1', class = 'adapter' }",
        "{ instance = 'a', package = 'o/a@1', class = 'adapter', options = {}, more = 1 }",
        "5",
    ] {
        assert!(one(broken).is_none(), "{broken}");
    }
}

#[test]
fn a_document_has_the_fields_of_a_profile_and_no_other() {
    let whole = format!("{HEAD}modules = []\n");
    assert!(decode_profile(&document(&whole)).is_some());
    assert!(decode_provision(&document(&whole)).is_none());
    assert!(decode_profile(&document(&format!("{whole}more = 1\n"))).is_none());
    for line in ["wire_version", "server_id", "endpoint", "modules", "server_pin", "credential"] {
        let text: String = whole.lines().filter(|text| !text.starts_with(line)).map(|text| format!("{text}\n")).collect();
        assert!(decode_profile(&document(&text)).is_none(), "{line}");
    }
    assert!(decode_profile(&document(&whole.replace("wire_version = 1", "wire_version = 4294967295"))).is_some());
    assert!(decode_profile(&document(&whole.replace("wire_version = 1", "wire_version = 4294967296"))).is_none());
    assert!(decode_profile(&document(&whole.replace("wire_version = 1", "wire_version = -1"))).is_none());
    assert!(decode_profile(&document(&whole.replace("wire_version = 1", "wire_version = 1.0"))).is_none());
    assert!(decode_profile(&document(&whole.replace("modules = []", "modules = 1"))).is_none());
    let zero = decode_profile(&document(&whole.replace("wire_version = 1", "wire_version = -0"))).unwrap();
    assert_eq!(zero.wire_version, 0);
    let listed = "modules = [['tun', 'o/p@1', 'adapter', {}, 99999999999999999999]]";
    let listed = decode_profile(&document(&whole.replace("modules = []", listed))).unwrap();
    assert_eq!(listed.modules[0], ProfileModule { package: "o/p@1".into(), ..module("tun", ModuleClass::Adapter) });
}

#[test]
fn options_of_every_kind_are_carried_by_a_uri() {
    let mut profile = profile();
    profile.modules[0].options = options(
        "text = \"a\\\"b'c\\n\\u0000\"\nlist = [1, 'two', [true], {}]\nreal = 1.5\nlarge = 1e300\nnone = nan\n\
         day = 1979-05-27\nmoment = 1979-05-27T07:32:00.25-08:00\n\"odd key\" = -9223372036854775808\n[t.u]\nx = []\n",
    );
    let uri = profile.to_uri().unwrap();
    let read = Profile::from_uri(&uri).unwrap();
    assert_eq!(read.to_uri().unwrap(), uri);
    assert_eq!(read.modules[0].options.len(), 9);
    assert_eq!(read.modules[0].options.get("text"), profile.modules[0].options.get("text"));
    assert_eq!(read.modules[0].options.get("moment"), profile.modules[0].options.get("moment"));
    assert_eq!(read.modules[0].options.get("odd key"), Some(&OptionValue::Integer(i64::MIN)));
}

#[test]
fn options_are_read_back_up_to_a_depth() {
    let nested = |depth: usize| {
        let mut table = OptionTable::new();
        for _ in 1..depth {
            let mut outer = OptionTable::new();
            outer.insert("a", OptionValue::Table(table));
            table = outer;
        }
        let mut profile = profile();
        profile.modules[0].options = table;
        profile
    };
    let deep = nested(MAX_OPTION_TABLES);
    assert!(Profile::from_uri(&deep.to_uri().unwrap()).unwrap() == deep);
    let deeper = nested(MAX_OPTION_TABLES + 1);
    assert!(matches!(Profile::from_uri(&deeper.to_uri().unwrap()), Err(ProfileError::Toml(_))));
    let listed = |depth: usize| {
        let mut profile = nested(MAX_OPTION_TABLES);
        let list = (0..depth).fold(OptionValue::Integer(1), |inner, _| OptionValue::Array(vec![inner]));
        profile.modules[1].options.insert("list", list);
        profile
    };
    let deep = listed(MAX_DEPTH);
    assert!(Profile::from_uri(&deep.to_uri().unwrap()).unwrap() == deep);
    let deeper = listed(MAX_DEPTH + 1);
    assert!(matches!(Profile::from_uri(&deeper.to_uri().unwrap()), Err(ProfileError::Toml(_))));
}

const MARKER: &str = "$__toml_private_datetime";

#[test]
fn options_may_have_the_key_that_marks_a_date_time() {
    let mut marked = profile();
    marked.modules[0].options.insert(MARKER, OptionValue::Text("1979-05-27".into()));
    marked.modules[0].options.insert("a", OptionValue::Integer(1));
    marked.modules[1].options.insert(MARKER, OptionValue::Integer(2));
    assert!(Profile::from_uri(&marked.to_uri().unwrap()).unwrap() == marked);
    let metadata = ProvisionProfile::from_profile(&marked);
    assert!(ProvisionProfile::parse_toml(&metadata.to_toml().unwrap()).unwrap() == metadata);
    let time = || OptionValue::Text("1979-05-27".into());
    let table = || OptionValue::Table(OptionTable::new());
    let listed = |item: OptionValue| OptionValue::Array(vec![item]);
    let pair = |key: &str, value: OptionValue, marked: OptionValue| {
        let mut pair = OptionTable::new();
        pair.insert(MARKER, marked);
        pair.insert(key, value);
        OptionValue::Table(pair)
    };
    let with = |value: OptionValue| {
        let mut profile = profile();
        profile.modules[0].options.insert("t", value);
        profile
    };
    for kept in [
        pair("!", OptionValue::Integer(1), time()),
        pair("!", listed(OptionValue::Integer(1)), time()),
        pair("!", OptionValue::Array(Vec::new()), time()),
        pair("!", table(), table()),
        pair("!", listed(table()), listed(table())),
        pair("b", OptionValue::Integer(1), table()),
        pair("b", listed(OptionValue::Integer(1)), listed(table())),
        OptionValue::Array(vec![OptionValue::Integer(1), pair("!", table(), time())]),
        listed(listed(pair("!", listed(table()), table()))),
        listed(pair("b", OptionValue::Integer(1), table())),
    ] {
        let kept = with(kept);
        assert!(Profile::from_uri(&kept.to_uri().unwrap()).unwrap() == kept);
    }
    for timed in [
        pair("b", OptionValue::Integer(1), time()),
        pair("!", table(), time()),
        pair("!", listed(table()), time()),
        pair("b", table(), table()),
        OptionValue::Array(vec![OptionValue::Integer(1), pair("b", OptionValue::Integer(1), table())]),
        listed(pair("b", table(), listed(table()))),
    ] {
        let timed = with(timed);
        let read = Profile::from_uri(&timed.to_uri().unwrap());
        assert!(read.map_or(true, |read| read != timed));
    }
    let read = Profile::from_uri(&with(pair("b", OptionValue::Integer(1), time())).to_uri().unwrap()).unwrap();
    assert!(matches!(read.modules[0].options.get("t"), Some(OptionValue::Literal(_))));
}

#[test]
fn a_date_time_for_options_is_a_table_of_its_text() {
    let read = document("options = 1979-05-27\n").remove(0).1;
    assert_eq!(read.shape, Shape::Other);
    let options = read.options.unwrap();
    assert_eq!(options.len(), 1);
    assert_eq!(options.get(MARKER), Some(&OptionValue::Text("1979-05-27".into())));
    assert!(document("options = 1\n").remove(0).1.options.is_none());
    assert!(document("[options]\nx = 9223372036854775808\n").remove(0).1.options.is_none());
}

#[test]
fn integers_are_read_by_their_digits() {
    assert_eq!(read_unsigned("18446744073709551615", 10), Some(u64::MAX));
    assert_eq!(read_unsigned("18446744073709551616", 10), None);
    assert_eq!(read_unsigned("+7", 10), Some(7));
    assert_eq!(read_unsigned("-0", 10), Some(0));
    assert_eq!(read_unsigned("-7", 10), None);
    assert_eq!(read_unsigned("fF", 16), Some(255));
    assert_eq!(read_unsigned("12", 2), None);
    assert_eq!(read_unsigned("", 10), None);
    assert_eq!(read_unsigned("-", 10), None);
    for (text, shape) in [
        ("a = 1_000", Shape::Number(1000)),
        ("a = +5", Shape::Number(5)),
        ("a = 0xff", Shape::Number(255)),
        ("a = 0o17", Shape::Number(15)),
        ("a = 0b101", Shape::Number(5)),
        ("a = -1", Shape::Other),
        ("a = 1.5", Shape::Other),
        ("a = true", Shape::Other),
        ("a = 'x'", Shape::Text("x".into())),
    ] {
        assert_eq!(document(text).remove(0).1.shape, shape, "{text}");
    }
}

#[test]
fn a_profile_that_is_too_long_has_no_uri() {
    let mut profile = profile();
    profile.modules[0].options.insert("x", OptionValue::Text("y".repeat(MAX_PROFILE_BYTES)));
    assert_eq!(profile.to_uri().err().unwrap(), ProfileError::Size);
}

#[test]
fn tables_are_kept_in_the_order_of_their_keys() {
    let mut table = options("b = 1\na = 2\n\u{e9} = 3\nB = 4\n".replace('\u{e9}', "\"\u{e9}\"").as_str());
    table.insert("aa", OptionValue::Boolean(true));
    table.insert("b", OptionValue::Integer(5));
    let keys: Vec<&str> = (0..table.len()).map(|i| table.key_at(i).as_str()).collect();
    assert_eq!(keys, ["B", "a", "aa", "b", "\u{e9}"]);
    assert_eq!(table.get("b"), Some(&OptionValue::Integer(5)));
    assert_eq!(table.get("c"), None);
    assert_eq!(print_table(&table).unwrap(), "B = 4\na = 2\naa = true\nb = 5\n\"\u{e9}\" = 3\n");
    assert!(read_document("a = ").is_err());
}

#[test]
fn a_subscription_that_lists_no_profiles_says_why() {
    let read = |input: &[u8]| parse_subscription(input).err().unwrap();
    assert_eq!(read(b""), ProfileError::Size);
    assert_eq!(read(&vec![b'#'; MAX_SUBSCRIPTION_BYTES + 1]), ProfileError::Size);
    assert_eq!(read(&[0xff]), ProfileError::Utf8);
    assert!(matches!(read(b"profiles = "), ProfileError::Toml(_)));
    assert!(matches!(read(b"profiles = 1"), ProfileError::Toml(_)));
    assert!(matches!(read(b"profiles = [1]"), ProfileError::Toml(_)));
    assert!(matches!(read(b"other = []"), ProfileError::Toml(_)));
    assert!(matches!(read(b"profiles = []\nother = 1"), ProfileError::Toml(_)));
    assert_eq!(read(b"profiles = []"), ProfileError::Subscription);
    assert_eq!(read(b"profiles = ['http://x']"), ProfileError::Scheme);
    let uri = profile().to_uri().unwrap();
    let mixed = format!("profiles = ['{uri}', 'snolc://profile/', 'x']");
    assert_eq!(subscription_from_document(&document(&mixed)).err().unwrap(), ProfileError::Size);
    let two = format!("profiles = ['{uri}', '{uri}']");
    let profiles = parse_subscription(two.as_bytes()).unwrap();
    assert_eq!(profiles.len(), 2);
    assert!(profiles.iter().all(|read| *read == profile()));
}

#[test]
fn a_subscription_is_fetched_over_https_with_a_bearer() {
    let bearer = Secret::new("token".into());
    let plan = prepare_fetch("https://host/list", &bearer).unwrap();
    assert_eq!(plan.url, "https://host/list");
    assert_eq!(plan.bearer.expose(), "token");
    assert_eq!(plan.redirects, 5);
    assert_eq!(plan.limit, 1_048_577);
    assert!(matches!(prepare_fetch("http://host/list", &bearer), Err(ProfileError::Subscription)));
    assert!(matches!(prepare_fetch("https://host", &Secret::new("".into())), Err(ProfileError::Subscription)));
    assert!(accept_length(None).is_ok());
    assert!(accept_length(Some(1_048_576)).is_ok());
    assert!(matches!(accept_length(Some(1_048_577)), Err(ProfileError::Size)));
}

#[test]
fn errors_say_what_went_wrong() {
    assert_eq!(ProfileError::Size.message(), "profile size is invalid");
    assert_eq!(ProfileError::Scheme.message(), "profile URI scheme is invalid");
    assert_eq!(ProfileError::Toml("x".into()).message(), "profile TOML is invalid: x");
    assert_eq!(ProfileError::TomlEncode("x".into()).message(), "profile TOML cannot be encoded: x");
    assert_eq!(ProfileError::Network("x".into()).message(), "network request failed: x");
    assert_eq!(ProfileError::Io("x".into()).message(), "subscription I/O failed: x");
    assert_eq!(ProfileError::Generated("x".into()).message(), "generated configuration is invalid: x");
    assert_eq!(ProfileError::BundledModule.message(), "bundled native module is unavailable or invalid");
    assert_eq!(ProfileError::ControlResponse.message(), "policy control response is invalid");
}
