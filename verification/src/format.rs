//! The TOML form of profiles.
use vstd::prelude::*;

use crate::document::{
    close_value, distinct, document_fits, fits, lemma_canonical_ordered, lemma_in_order_distinct, options_of, ordered,
    printable, release_table, says, sectioned, toml_array, toml_entries, toml_value, values_untimed, Opened, MAX_DEPTH,
};
use crate::node::{
    entry_nodes, field, find_field, item_nodes, lemma_entry_nodes, lemma_field, lemma_item_nodes,
    lemma_nodes_of_entries, lemma_nodes_of_items, node_of, nodes_of_entries, nodes_of_items, optional_node, Node,
    NodeModel, Shape, ShapeModel,
};
use crate::profile::{
    module_models, ModuleClass, ModuleModel, Profile, ProfileModel, ProfileModule, ProvisionModel, ProvisionProfile,
};
use crate::secret::Secret;
use crate::state::optional_text;
use crate::text::same;
use crate::tree::TreeModel;
use crate::value::{canonical, canonical_entries, ValueModel};

verus! {

/// The name of a class in a document.
pub open spec fn class_name(class: ModuleClass) -> Seq<char> {
    match class {
        ModuleClass::Adapter => "adapter"@,
        ModuleClass::Protection => "protection"@,
        ModuleClass::Carrier => "carrier"@,
        ModuleClass::Policy => "policy"@,
    }
}

/// A module as a document holds it.
pub open spec fn module_document(module: ModuleModel) -> ValueModel {
    ValueModel::Table(
        seq![
            ("instance"@, ValueModel::Text(module.instance)),
            ("package"@, ValueModel::Text(module.package)),
            ("class"@, ValueModel::Text(class_name(module.class))),
            ("options"@, ValueModel::Table(module.options)),
        ],
    )
}

/// Modules as a document holds them.
pub open spec fn modules_document(modules: Seq<ModuleModel>) -> ValueModel {
    ValueModel::Array(modules.map_values(|module: ModuleModel| module_document(module)))
}

/// The document of a profile without its credential.
pub open spec fn provision_document(profile: ProvisionModel) -> Seq<(Seq<char>, ValueModel)> {
    seq![
        ("wire_version"@, ValueModel::Integer(profile.wire_version as i64)),
        ("server_id"@, ValueModel::Text(profile.server_id)),
        ("endpoint"@, ValueModel::Text(profile.endpoint)),
        ("modules"@, modules_document(profile.modules)),
        ("server_pin"@, ValueModel::Text(profile.server_pin)),
    ]
}

/// The document of a profile.
pub open spec fn profile_document(profile: ProfileModel) -> Seq<(Seq<char>, ValueModel)> {
    provision_document(profile.metadata()).push(("credential"@, ValueModel::Text(profile.credential)))
}

/// The class of a name.
pub open spec fn class_of_name(name: Seq<char>) -> Option<ModuleClass> {
    if name == "adapter"@ {
        Some(ModuleClass::Adapter)
    } else if name == "protection"@ {
        Some(ModuleClass::Protection)
    } else if name == "carrier"@ {
        Some(ModuleClass::Carrier)
    } else if name == "policy"@ {
        Some(ModuleClass::Policy)
    } else {
        None
    }
}

/// Whether a value is an array or a table with nothing in it.
pub open spec fn is_hollow(node: NodeModel) -> bool {
    match node.shape {
        ShapeModel::Array(items) => items.len() == 0,
        ShapeModel::Table(entries) => entries.len() == 0,
        _ => false,
    }
}

/// The class that a value stands for: its name, or a table whose one key is the
/// name, with nothing under it.
pub open spec fn class_of_node(node: NodeModel) -> Option<ModuleClass> {
    match node.shape {
        ShapeModel::Text(name) => class_of_name(name),
        ShapeModel::Table(entries) => if entries.len() == 1 && is_hollow(entries[0].1) {
            class_of_name(entries[0].0)
        } else {
            None
        },
        _ => None,
    }
}

/// The text that a value is, if it is one.
pub open spec fn text_of_node(node: Option<NodeModel>) -> Option<Seq<char>> {
    match node {
        Some(node) => match node.shape {
            ShapeModel::Text(text) => Some(text),
            _ => None,
        },
        None => None,
    }
}

/// The module of an instance name, a package, a class and options.
pub open spec fn module_of_parts(
    instance: Option<NodeModel>,
    package: Option<NodeModel>,
    class: Option<NodeModel>,
    options: Option<NodeModel>,
) -> Option<ModuleModel> {
    match (text_of_node(instance), text_of_node(package), class, options) {
        (Some(instance), Some(package), Some(class), Some(options)) => match (class_of_node(class), options.options) {
            (Some(class), Some(options)) => Some(ModuleModel { instance, package, class, options }),
            _ => None,
        },
        _ => None,
    }
}

/// Whether a key may stand in a module.
pub open spec fn module_key(key: Seq<char>) -> bool {
    key == "instance"@ || key == "package"@ || key == "class"@ || key == "options"@
}

/// The module that a value stands for: a table of its four parts, or an array
/// that begins with them in the order of the fields.
pub open spec fn module_of_node(node: NodeModel) -> Option<ModuleModel> {
    match node.shape {
        ShapeModel::Table(entries) => if forall|i: int|
            0 <= i < entries.len() ==> module_key((#[trigger] entries[i]).0) {
            module_of_parts(
                field(entries, "instance"@),
                field(entries, "package"@),
                field(entries, "class"@),
                field(entries, "options"@),
            )
        } else {
            None
        },
        ShapeModel::Array(items) => if items.len() >= 4 {
            module_of_parts(Some(items[0]), Some(items[1]), Some(items[2]), Some(items[3]))
        } else {
            None
        },
        _ => None,
    }
}

/// The modules that the items of an array stand for, if each is one.
pub open spec fn modules_of_items(items: Seq<NodeModel>) -> Option<Seq<ModuleModel>> {
    if forall|i: int| 0 <= i < items.len() ==> module_of_node(#[trigger] items[i]) is Some {
        Some(items.map_values(|item: NodeModel| module_of_node(item)->0))
    } else {
        None
    }
}

/// The modules that a value stands for.
pub open spec fn modules_of_node(node: Option<NodeModel>) -> Option<Seq<ModuleModel>> {
    match node {
        Some(node) => match node.shape {
            ShapeModel::Array(items) => modules_of_items(items),
            _ => None,
        },
        None => None,
    }
}

/// The version that a value stands for.
pub open spec fn version_of_node(node: Option<NodeModel>) -> Option<u32> {
    match node {
        Some(node) => match node.shape {
            ShapeModel::Number(number) => if number <= u32::MAX {
                Some(number as u32)
            } else {
                None
            },
            _ => None,
        },
        None => None,
    }
}

/// Whether a key may stand in a profile without its credential.
pub open spec fn provision_key(key: Seq<char>) -> bool {
    ||| key == "wire_version"@
    ||| key == "server_id"@
    ||| key == "endpoint"@
    ||| key == "modules"@
    ||| key == "server_pin"@
}

/// What a document says of a profile beside its credential.
pub open spec fn provision_fields(entries: Seq<(Seq<char>, NodeModel)>) -> Option<ProvisionModel> {
    match (
        version_of_node(field(entries, "wire_version"@)),
        text_of_node(field(entries, "server_id"@)),
        text_of_node(field(entries, "endpoint"@)),
        modules_of_node(field(entries, "modules"@)),
        text_of_node(field(entries, "server_pin"@)),
    ) {
        (Some(wire_version), Some(server_id), Some(endpoint), Some(modules), Some(server_pin)) => Some(
            ProvisionModel { wire_version, server_id, endpoint, modules, server_pin },
        ),
        _ => None,
    }
}

/// The profile without a credential that a document stands for: it has the five
/// fields and no other.
pub open spec fn decoded_provision(entries: Seq<(Seq<char>, NodeModel)>) -> Option<ProvisionModel> {
    if forall|i: int| 0 <= i < entries.len() ==> provision_key((#[trigger] entries[i]).0) {
        provision_fields(entries)
    } else {
        None
    }
}

/// The profile that a document stands for: it has the six fields and no other.
pub open spec fn decoded_profile(entries: Seq<(Seq<char>, NodeModel)>) -> Option<ProfileModel> {
    if forall|i: int|
        0 <= i < entries.len() ==> provision_key((#[trigger] entries[i]).0) || entries[i].0 == "credential"@ {
        match (provision_fields(entries), text_of_node(field(entries, "credential"@))) {
            (Some(metadata), Some(credential)) => Some(metadata.with(credential)),
            _ => None,
        }
    } else {
        None
    }
}

/// The class of a name.
fn find_class(name: &str) -> (class: Option<ModuleClass>)
    ensures
        class == class_of_name(name@),
{
    if same(name, "adapter") {
        Some(ModuleClass::Adapter)
    } else if same(name, "protection") {
        Some(ModuleClass::Protection)
    } else if same(name, "carrier") {
        Some(ModuleClass::Carrier)
    } else if same(name, "policy") {
        Some(ModuleClass::Policy)
    } else {
        None
    }
}

/// Reads a class.
fn decode_class(node: &Node) -> (class: Option<ModuleClass>)
    ensures
        class == class_of_node(node@),
{
    match &node.shape {
        Shape::Text(name) => find_class(name),
        Shape::Table(entries) => {
            proof {
                lemma_entry_nodes(entries@);
            }
            if entries.len() != 1 {
                return None;
            }
            assert(entry_nodes(entries@)[0] == (entries@[0].0@, entries@[0].1@));
            let hollow: bool = match &entries[0].1.shape {
                Shape::Array(items) => {
                    proof {
                        lemma_item_nodes(items@);
                    }
                    items.len() == 0
                },
                Shape::Table(inner) => {
                    proof {
                        lemma_entry_nodes(inner@);
                    }
                    inner.len() == 0
                },
                _ => false,
            };
            if hollow {
                find_class(&entries[0].0)
            } else {
                None
            }
        },
        _ => None,
    }
}

/// Reads a text.
fn decode_text(node: Option<&Node>) -> (text: Option<String>)
    ensures
        optional_text(text) == text_of_node(optional_node(node)),
{
    match node {
        Some(node) => match &node.shape {
            Shape::Text(text) => Some(text.clone()),
            _ => None,
        },
        None => None,
    }
}

/// Reads the parts of a module.
fn decode_parts(
    instance: Option<&Node>,
    package: Option<&Node>,
    class: Option<&Node>,
    options: Option<&Node>,
) -> (module: Option<ProfileModule>)
    ensures
        match module {
            Some(module) => module_of_parts(
                optional_node(instance),
                optional_node(package),
                optional_node(class),
                optional_node(options),
            ) == Some(module@),
            None => module_of_parts(
                optional_node(instance),
                optional_node(package),
                optional_node(class),
                optional_node(options),
            ) is None,
        },
{
    match (decode_text(instance), decode_text(package), class, options) {
        (Some(instance), Some(package), Some(class), Some(options)) => match (decode_class(class), &options.options) {
            (Some(class), Some(options)) => Some(
                ProfileModule { instance, package, class, options: options.copy() },
            ),
            _ => None,
        },
        _ => None,
    }
}

/// Tells whether each key of a table may stand in a module.
fn module_keys_known(entries: &Vec<(String, Node)>) -> (known: bool)
    ensures
        known == forall|i: int|
            0 <= i < entry_nodes(entries@).len() ==> module_key((#[trigger] entry_nodes(entries@)[i]).0),
{
    let ghost model = entry_nodes(entries@);
    proof {
        lemma_entry_nodes(entries@);
    }
    let mut i: usize = 0;
    while i < entries.len()
        invariant
            i <= entries.len(),
            model == entry_nodes(entries@),
            model.len() == entries.len(),
            forall|j: int| 0 <= j < entries@.len() ==> #[trigger] model[j] == (entries@[j].0@, entries@[j].1@),
            forall|j: int| 0 <= j < i ==> module_key((#[trigger] model[j]).0),
        decreases entries.len() - i,
    {
        let key = &entries[i].0;
        assert(model[i as int].0 == key@);
        if !same(key, "instance") && !same(key, "package") && !same(key, "class") && !same(key, "options") {
            assert(!module_key(model[i as int].0));
            return false;
        }
        i = i + 1;
    }
    true
}

/// Reads a module.
fn decode_module(node: &Node) -> (module: Option<ProfileModule>)
    ensures
        match module {
            Some(module) => module_of_node(node@) == Some(module@),
            None => module_of_node(node@) is None,
        },
{
    match &node.shape {
        Shape::Table(entries) => {
            if !module_keys_known(entries) {
                return None;
            }
            decode_parts(
                find_field(entries, "instance"),
                find_field(entries, "package"),
                find_field(entries, "class"),
                find_field(entries, "options"),
            )
        },
        Shape::Array(items) => {
            proof {
                lemma_item_nodes(items@);
            }
            if items.len() < 4 {
                return None;
            }
            decode_parts(Some(&items[0]), Some(&items[1]), Some(&items[2]), Some(&items[3]))
        },
        _ => None,
    }
}

/// Reads modules.
fn decode_modules(items: &Vec<Node>) -> (modules: Option<Vec<ProfileModule>>)
    ensures
        match modules {
            Some(modules) => modules_of_items(item_nodes(items@)) == Some(module_models(modules@)),
            None => modules_of_items(item_nodes(items@)) is None,
        },
{
    let ghost model = item_nodes(items@);
    proof {
        lemma_item_nodes(items@);
    }
    let mut modules: Vec<ProfileModule> = Vec::new();
    let mut i: usize = 0;
    while i < items.len()
        invariant
            i <= items.len(),
            model == item_nodes(items@),
            model.len() == items.len(),
            forall|j: int| 0 <= j < items@.len() ==> #[trigger] model[j] == items@[j]@,
            modules@.len() == i,
            forall|j: int| 0 <= j < i ==> module_of_node(#[trigger] model[j]) == Some(modules@[j]@),
        decreases items.len() - i,
    {
        assert(model[i as int] == items@[i as int]@);
        match decode_module(&items[i]) {
            Some(module) => {
                modules.push(module);
            },
            None => {
                assert(module_of_node(model[i as int]) is None);
                return None;
            },
        }
        i = i + 1;
    }
    proof {
        assert(model.map_values(|item: NodeModel| module_of_node(item)->0) =~= module_models(modules@));
    }
    Some(modules)
}

/// Reads a version.
fn decode_version(node: Option<&Node>) -> (version: Option<u32>)
    ensures
        version == version_of_node(optional_node(node)),
{
    match node {
        Some(node) => match &node.shape {
            Shape::Number(number) => if *number <= u32::MAX as u64 {
                Some(*number as u32)
            } else {
                None
            },
            _ => None,
        },
        None => None,
    }
}

/// Reads what a document says of a profile beside its credential.
fn decode_provision_fields(entries: &Vec<(String, Node)>) -> (profile: Option<ProvisionProfile>)
    ensures
        match profile {
            Some(profile) => provision_fields(entry_nodes(entries@)) == Some(profile@),
            None => provision_fields(entry_nodes(entries@)) is None,
        },
{
    let modules: Option<Vec<ProfileModule>> = match find_field(entries, "modules") {
        Some(node) => match &node.shape {
            Shape::Array(items) => decode_modules(items),
            _ => None,
        },
        None => None,
    };
    match (
        decode_version(find_field(entries, "wire_version")),
        decode_text(find_field(entries, "server_id")),
        decode_text(find_field(entries, "endpoint")),
        modules,
        decode_text(find_field(entries, "server_pin")),
    ) {
        (Some(wire_version), Some(server_id), Some(endpoint), Some(modules), Some(server_pin)) => Some(
            ProvisionProfile { wire_version, server_id, endpoint, modules, server_pin },
        ),
        _ => None,
    }
}

/// Tells whether a key may stand in a profile without its credential.
fn is_provision_key(key: &str) -> (known: bool)
    ensures
        known == provision_key(key@),
{
    same(key, "wire_version") || same(key, "server_id") || same(key, "endpoint") || same(key, "modules") || same(
        key,
        "server_pin",
    )
}

/// Reads a profile without a credential.
pub fn decode_provision(entries: &Vec<(String, Node)>) -> (profile: Option<ProvisionProfile>)
    ensures
        match profile {
            Some(profile) => decoded_provision(entry_nodes(entries@)) == Some(profile@),
            None => decoded_provision(entry_nodes(entries@)) is None,
        },
{
    let ghost model = entry_nodes(entries@);
    proof {
        lemma_entry_nodes(entries@);
    }
    let mut i: usize = 0;
    while i < entries.len()
        invariant
            i <= entries.len(),
            model == entry_nodes(entries@),
            model.len() == entries.len(),
            forall|j: int| 0 <= j < entries@.len() ==> #[trigger] model[j] == (entries@[j].0@, entries@[j].1@),
            forall|j: int| 0 <= j < i ==> provision_key((#[trigger] model[j]).0),
        decreases entries.len() - i,
    {
        assert(model[i as int].0 == entries@[i as int].0@);
        if !is_provision_key(&entries[i].0) {
            assert(!provision_key(model[i as int].0));
            return None;
        }
        i = i + 1;
    }
    decode_provision_fields(entries)
}

/// Reads a profile.
pub fn decode_profile(entries: &Vec<(String, Node)>) -> (profile: Option<Profile>)
    ensures
        match profile {
            Some(profile) => decoded_profile(entry_nodes(entries@)) == Some(profile@),
            None => decoded_profile(entry_nodes(entries@)) is None,
        },
{
    let ghost model = entry_nodes(entries@);
    proof {
        lemma_entry_nodes(entries@);
    }
    let mut i: usize = 0;
    while i < entries.len()
        invariant
            i <= entries.len(),
            model == entry_nodes(entries@),
            model.len() == entries.len(),
            forall|j: int| 0 <= j < entries@.len() ==> #[trigger] model[j] == (entries@[j].0@, entries@[j].1@),
            forall|j: int|
                0 <= j < i ==> provision_key((#[trigger] model[j]).0) || model[j].0 == "credential"@,
        decreases entries.len() - i,
    {
        let key = &entries[i].0;
        assert(model[i as int].0 == key@);
        if !is_provision_key(key) && !same(key, "credential") {
            assert(!provision_key(model[i as int].0));
            return None;
        }
        i = i + 1;
    }
    match (decode_provision_fields(entries), decode_text(find_field(entries, "credential"))) {
        (Some(metadata), Some(credential)) => Some(metadata.attach(Secret::new(credential))),
        _ => None,
    }
}

/// Whether the options of the modules are as the library keeps them: tables in
/// order, floats and date-times that documents hold.
pub open spec fn modules_ordered(modules: Seq<ModuleModel>) -> bool {
    forall|i: int| 0 <= i < modules.len() ==> ordered(ValueModel::Table((#[trigger] modules[i]).options))
}

/// A text as a value of the `toml` crate.
pub(crate) fn text_value(text: &str) -> (value: toml::Value)
    ensures
        toml_value(value) == ValueModel::Text(text@),
{
    close_value(Opened::Text(text.to_owned()))
}

/// The name of a class in a document.
fn encode_class(class: ModuleClass) -> (value: toml::Value)
    ensures
        toml_value(value) == ValueModel::Text(class_name(class)),
{
    match class {
        ModuleClass::Adapter => text_value("adapter"),
        ModuleClass::Protection => text_value("protection"),
        ModuleClass::Carrier => text_value("carrier"),
        ModuleClass::Policy => text_value("policy"),
    }
}

/// The four keys of a module differ.
proof fn lemma_module_keys(module: ModuleModel)
    ensures
        module_document(module) matches ValueModel::Table(entries) && distinct(entries),
{
    reveal_strlit("instance");
    reveal_strlit("package");
    reveal_strlit("class");
    reveal_strlit("options");
    assert("instance"@.len() == 8);
    assert("package"@.len() == 7 && "package"@[0] == 'p');
    assert("class"@.len() == 5);
    assert("options"@.len() == 7 && "options"@[0] == 'o');
    let entries = module_document(module)->Table_0;
    assert forall|i: int, j: int| 0 <= i < j < entries.len() implies #[trigger] entries[i].0
        != #[trigger] entries[j].0 by {
        assert(entries.len() == 4);
    }
}

/// Writes a module.
fn encode_module(module: &ProfileModule) -> (value: toml::Value)
    ensures
        toml_value(value) == module_document(module@),
        ordered(ValueModel::Table(module@.options)),
{
    let mut entries: Vec<(String, toml::Value)> = Vec::new();
    entries.push(("instance".to_owned(), text_value(&module.instance)));
    entries.push(("package".to_owned(), text_value(&module.package)));
    entries.push(("class".to_owned(), encode_class(module.class)));
    let options = release_table(&module.options);
    proof {
        lemma_in_order_distinct(module@.options);
    }
    entries.push(("options".to_owned(), close_value(Opened::Table(options))));
    proof {
        assert(ValueModel::Table(toml_entries(entries@)) == module_document(module@)) by {
            assert(toml_entries(entries@) =~= module_document(module@)->Table_0);
        }
        lemma_module_keys(module@);
    }
    close_value(Opened::Table(entries))
}

/// Writes modules.
fn encode_modules(modules: &Vec<ProfileModule>) -> (value: toml::Value)
    ensures
        toml_value(value) == modules_document(module_models(modules@)),
        modules_ordered(module_models(modules@)),
{
    let ghost model = module_models(modules@);
    let mut items: Vec<toml::Value> = Vec::new();
    let mut i: usize = 0;
    while i < modules.len()
        invariant
            i <= modules.len(),
            model == module_models(modules@),
            items@.len() == i,
            forall|j: int| 0 <= j < i ==> toml_value(#[trigger] items@[j]) == module_document(model[j]),
            forall|j: int| 0 <= j < i ==> ordered(ValueModel::Table((#[trigger] model[j]).options)),
        decreases modules.len() - i,
    {
        items.push(encode_module(&modules[i]));
        i = i + 1;
    }
    proof {
        assert(toml_array(items@) =~= model.map_values(|module: ModuleModel| module_document(module)));
    }
    close_value(Opened::Array(items))
}

/// Writes a profile without a credential.
pub(crate) fn encode_provision(profile: &ProvisionProfile) -> (entries: Vec<(String, toml::Value)>)
    ensures
        toml_entries(entries@) == provision_document(profile@),
        modules_ordered(profile@.modules),
{
    let mut entries: Vec<(String, toml::Value)> = Vec::new();
    entries.push(("wire_version".to_owned(), close_value(Opened::Integer(profile.wire_version as i64))));
    entries.push(("server_id".to_owned(), text_value(&profile.server_id)));
    entries.push(("endpoint".to_owned(), text_value(&profile.endpoint)));
    entries.push(("modules".to_owned(), encode_modules(&profile.modules)));
    entries.push(("server_pin".to_owned(), text_value(&profile.server_pin)));
    proof {
        assert(toml_entries(entries@) =~= provision_document(profile@));
    }
    entries
}

/// Writes a profile.
pub(crate) fn encode_profile(profile: &Profile) -> (entries: Vec<(String, toml::Value)>)
    ensures
        toml_entries(entries@) == profile_document(profile@),
        modules_ordered(profile@.modules),
{
    let mut entries: Vec<(String, toml::Value)> = Vec::new();
    entries.push(("wire_version".to_owned(), close_value(Opened::Integer(profile.wire_version as i64))));
    entries.push(("server_id".to_owned(), text_value(&profile.server_id)));
    entries.push(("endpoint".to_owned(), text_value(&profile.endpoint)));
    entries.push(("modules".to_owned(), encode_modules(&profile.modules)));
    entries.push(("server_pin".to_owned(), text_value(&profile.server_pin)));
    entries.push(("credential".to_owned(), text_value(profile.credential.expose())));
    proof {
        assert(toml_entries(entries@) =~= profile_document(profile@));
    }
    entries
}

/// The keys of a profile differ.
pub proof fn lemma_profile_keys(profile: ProfileModel)
    ensures
        distinct(profile_document(profile)),
        distinct(provision_document(profile.metadata())),
        !provision_key("credential"@),
{
    reveal_strlit("wire_version");
    reveal_strlit("server_id");
    reveal_strlit("endpoint");
    reveal_strlit("modules");
    reveal_strlit("server_pin");
    reveal_strlit("credential");
    assert("wire_version"@.len() == 12);
    assert("server_id"@.len() == 9);
    assert("endpoint"@.len() == 8);
    assert("modules"@.len() == 7);
    assert("server_pin"@.len() == 10 && "server_pin"@[0] == 's');
    assert("credential"@.len() == 10 && "credential"@[0] == 'c');
    let entries = profile_document(profile);
    assert forall|i: int, j: int| 0 <= i < j < entries.len() implies #[trigger] entries[i].0
        != #[trigger] entries[j].0 by {
        assert(entries.len() == 6);
    }
    let entries = provision_document(profile.metadata());
    assert forall|i: int, j: int| 0 <= i < j < entries.len() implies #[trigger] entries[i].0
        != #[trigger] entries[j].0 by {
        assert(entries.len() == 5);
    }
}

/// A class is read back from its name.
proof fn lemma_class_name(class: ModuleClass)
    ensures
        class_of_name(class_name(class)) == Some(class),
{
    reveal_strlit("adapter");
    reveal_strlit("protection");
    reveal_strlit("carrier");
    reveal_strlit("policy");
    assert("adapter"@.len() == 7 && "adapter"@[0] == 'a');
    assert("protection"@.len() == 10);
    assert("carrier"@.len() == 7 && "carrier"@[0] == 'c');
    assert("policy"@.len() == 6);
}

/// What is found under a key of a document that was written and parsed is what was
/// written there.
proof fn lemma_said_field(
    trees: Seq<(Seq<char>, TreeModel)>,
    entries: Seq<(Seq<char>, ValueModel)>,
    i: int,
) -> (tree: TreeModel)
    requires
        says(TreeModel::Table(trees), ValueModel::Table(entries), false),
        distinct(entries),
        0 <= i < entries.len(),
    ensures
        field(nodes_of_entries(trees), entries[i].0) == Some(node_of(tree)),
        says(tree, entries[i].1, false),
{
    let nodes = nodes_of_entries(trees);
    let key = entries[i].0;
    lemma_nodes_of_entries(trees);
    lemma_field(nodes, key);
    let j = choose|j: int| 0 <= j < trees.len() && #[trigger] trees[j].0 == entries[i].0;
    assert(nodes[j].0 == key);
    let node = field(nodes, key)->0;
    let k = choose|k: int| 0 <= k < nodes.len() && (#[trigger] nodes[k]).0 == key && nodes[k].1 == node;
    assert(nodes[k] == (trees[k].0, node_of(trees[k].1)));
    let found = choose|found: int|
        0 <= found < entries.len() && #[trigger] entries[found].0 == trees[k].0 && says(
            trees[k].1,
            entries[found].1,
            false,
        );
    assert(found == i) by {
        if found < i {
            assert(entries[found].0 != entries[i].0);
        }
        if i < found {
            assert(entries[i].0 != entries[found].0);
        }
    }
    trees[k].1
}

/// Each key of a document that was written and parsed is one that was written.
proof fn lemma_said_keys(trees: Seq<(Seq<char>, TreeModel)>, entries: Seq<(Seq<char>, ValueModel)>)
    requires
        says(TreeModel::Table(trees), ValueModel::Table(entries), false),
    ensures
        forall|j: int|
            0 <= j < nodes_of_entries(trees).len() ==> exists|i: int|
                0 <= i < entries.len() && (#[trigger] entries[i]).0 == (#[trigger] nodes_of_entries(trees)[j]).0,
{
    lemma_nodes_of_entries(trees);
    let whole = TreeModel::Table(trees);
    let document = ValueModel::Table(entries);
    assert(whole->Table_0 == trees && document->Table_0 == entries);
    assert(says(whole, document, false));
    assert forall|j: int| 0 <= j < nodes_of_entries(trees).len() implies exists|i: int|
        0 <= i < entries.len() && (#[trigger] entries[i]).0 == (#[trigger] nodes_of_entries(trees)[j]).0 by {
        assert(nodes_of_entries(trees)[j] == (trees[j].0, node_of(trees[j].1)));
        let value = trees[j].1;
        assert(0 <= j < trees.len());
        let i = choose|i: int|
            0 <= i < entries.len() && #[trigger] entries[i].0 == trees[j].0 && says(value, entries[i].1, false);
        assert(entries[i].0 == nodes_of_entries(trees)[j].0);
    }
}

/// A module is read back from the table that is written for it.
proof fn lemma_module_read_back(tree: TreeModel, module: ModuleModel)
    requires
        says(tree, module_document(module), false),
        ordered(ValueModel::Table(module.options)),
        values_untimed(module.options, false),
    ensures
        module_of_node(node_of(tree)) == Some(module),
{
    let entries = module_document(module)->Table_0;
    let trees = tree->Table_0;
    lemma_module_keys(module);
    lemma_class_name(module.class);
    lemma_canonical_ordered(ValueModel::Table(module.options));
    assert(canonical(ValueModel::Table(module.options)) == ValueModel::Table(canonical_entries(module.options)));
    let instance = lemma_said_field(trees, entries, 0);
    let package = lemma_said_field(trees, entries, 1);
    let class = lemma_said_field(trees, entries, 2);
    let options = lemma_said_field(trees, entries, 3);
    assert(entries[3].1 == ValueModel::Table(module.options));
    assert(options_of(options) == Some(module.options));
    lemma_said_keys(trees, entries);
    let nodes = nodes_of_entries(trees);
    assert(node_of(tree).shape == ShapeModel::Table(nodes));
    assert forall|j: int| 0 <= j < nodes.len() implies module_key((#[trigger] nodes[j]).0) by {
        let i = choose|i: int| 0 <= i < entries.len() && (#[trigger] entries[i]).0 == nodes[j].0;
        assert(0 <= i < 4);
    }
}

/// Whether no value in the options of the modules is taken for a date-time that is
/// none.
pub open spec fn modules_untimed(modules: Seq<ModuleModel>) -> bool {
    forall|i: int| 0 <= i < modules.len() ==> values_untimed((#[trigger] modules[i]).options, false)
}

/// Modules are read back from the array that is written for them.
proof fn lemma_modules_read_back(tree: TreeModel, modules: Seq<ModuleModel>)
    requires
        says(tree, modules_document(modules), false),
        modules_ordered(modules),
        modules_untimed(modules),
    ensures
        modules_of_node(Some(node_of(tree))) == Some(modules),
{
    let written = modules_document(modules)->Array_0;
    let trees = tree->Array_0;
    let items = nodes_of_items(trees);
    lemma_nodes_of_items(trees);
    assert(node_of(tree).shape == ShapeModel::Array(items));
    if modules.len() > 0 {
        assert(sectioned(written)) by {
            assert forall|i: int| 0 <= i < written.len() implies (#[trigger] written[i]) is Table by {
                assert(written[i] == module_document(modules[i]));
            }
        }
    }
    assert forall|i: int| 0 <= i < items.len() implies module_of_node(#[trigger] items[i]) == Some(modules[i]) by {
        assert(written[i] == module_document(modules[i]));
        assert(says(trees[i], written[i], !sectioned(written)));
        lemma_module_read_back(trees[i], modules[i]);
    }
    assert(items.map_values(|item: NodeModel| module_of_node(item)->0) =~= modules);
}

/// A number that was written is read back.
proof fn lemma_version_read_back(tree: TreeModel, version: u32)
    requires
        says(tree, ValueModel::Integer(version as i64), false),
    ensures
        version_of_node(Some(node_of(tree))) == Some(version),
{
}

/// What a profile says beside its credential is read back from a document that holds
/// it.
proof fn lemma_fields_read_back(
    trees: Seq<(Seq<char>, TreeModel)>,
    entries: Seq<(Seq<char>, ValueModel)>,
    profile: ProvisionModel,
)
    requires
        says(TreeModel::Table(trees), ValueModel::Table(entries), false),
        distinct(entries),
        entries.len() >= 5,
        entries.take(5) == provision_document(profile),
        modules_ordered(profile.modules),
        modules_untimed(profile.modules),
    ensures
        provision_fields(nodes_of_entries(trees)) == Some(profile),
{
    let written = provision_document(profile);
    assert(entries.take(5)[0] == written[0] && entries[0] == entries.take(5)[0]);
    assert(entries.take(5)[1] == written[1] && entries[1] == entries.take(5)[1]);
    assert(entries.take(5)[2] == written[2] && entries[2] == entries.take(5)[2]);
    assert(entries.take(5)[3] == written[3] && entries[3] == entries.take(5)[3]);
    assert(entries.take(5)[4] == written[4] && entries[4] == entries.take(5)[4]);
    let version = lemma_said_field(trees, entries, 0);
    let server_id = lemma_said_field(trees, entries, 1);
    let endpoint = lemma_said_field(trees, entries, 2);
    let modules = lemma_said_field(trees, entries, 3);
    let server_pin = lemma_said_field(trees, entries, 4);
    lemma_version_read_back(version, profile.wire_version);
    lemma_modules_read_back(modules, profile.modules);
}

/// A profile is read back from the document that is written for it, whatever the
/// order of the entries there.
pub proof fn lemma_profile_read_back(trees: Seq<(Seq<char>, TreeModel)>, profile: ProfileModel)
    requires
        says(TreeModel::Table(trees), ValueModel::Table(profile_document(profile)), false),
        modules_ordered(profile.modules),
        modules_untimed(profile.modules),
    ensures
        decoded_profile(nodes_of_entries(trees)) == Some(profile),
{
    let entries = profile_document(profile);
    lemma_profile_keys(profile);
    assert(entries.take(5) =~= provision_document(profile.metadata()));
    lemma_fields_read_back(trees, entries, profile.metadata());
    let credential = lemma_said_field(trees, entries, 5);
    lemma_said_keys(trees, entries);
    let nodes = nodes_of_entries(trees);
    assert forall|j: int| 0 <= j < nodes.len() implies provision_key((#[trigger] nodes[j]).0) || nodes[j].0
        == "credential"@ by {
        let i = choose|i: int| 0 <= i < entries.len() && (#[trigger] entries[i]).0 == nodes[j].0;
        assert(0 <= i < 6);
    }
}

/// A profile without its credential is read back from the document that is
/// written for it, whatever the order of the entries there.
pub proof fn lemma_provision_read_back(trees: Seq<(Seq<char>, TreeModel)>, profile: ProvisionModel)
    requires
        says(TreeModel::Table(trees), ValueModel::Table(provision_document(profile)), false),
        modules_ordered(profile.modules),
        modules_untimed(profile.modules),
    ensures
        decoded_provision(nodes_of_entries(trees)) == Some(profile),
{
    let entries = provision_document(profile);
    assert(profile.with(Seq::empty()).metadata() == profile);
    lemma_profile_keys(profile.with(Seq::empty()));
    assert(entries.take(5) =~= entries);
    lemma_fields_read_back(trees, entries, profile);
    lemma_said_keys(trees, entries);
    let nodes = nodes_of_entries(trees);
    assert forall|j: int| 0 <= j < nodes.len() implies provision_key((#[trigger] nodes[j]).0) by {
        let i = choose|i: int| 0 <= i < entries.len() && (#[trigger] entries[i]).0 == nodes[j].0;
        assert(0 <= i < 5);
    }
}

/// How many tables may stand inside each other in the options of a module, the
/// options themselves counted, for a profile to be read back.
pub const MAX_OPTION_TABLES: usize = 79;

/// Whether the options of the modules are not nested deeper than what is read.
pub open spec fn modules_fit(modules: Seq<ModuleModel>) -> bool {
    forall|i: int|
        0 <= i < modules.len() ==> fits(ValueModel::Table((#[trigger] modules[i]).options), MAX_OPTION_TABLES as nat)
}

/// What holds of the options of the modules holds of the document.
proof fn lemma_modules_document(modules: Seq<ModuleModel>)
    requires
        modules_ordered(modules),
    ensures
        printable(modules_document(modules)),
        modules_fit(modules) ==> fits(modules_document(modules), MAX_DEPTH as nat),
{
    let items = modules_document(modules)->Array_0;
    assert forall|i: int| 0 <= i < items.len() implies printable(#[trigger] items[i]) && items[i] is Table && (
    modules_fit(modules) ==> fits(items[i], MAX_DEPTH as nat)) by {
        let module = modules[i];
        let entries = items[i]->Table_0;
        assert(items[i] == module_document(module));
        lemma_canonical_ordered(ValueModel::Table(module.options));
        assert forall|j: int| 0 <= j < entries.len() implies printable((#[trigger] entries[j]).1) && (modules_fit(
            modules,
        ) ==> fits(entries[j].1, MAX_OPTION_TABLES as nat)) by {
            assert(0 <= j < 4);
        }
    }
}

/// What holds of the options of the modules holds of the document of a profile.
pub proof fn lemma_profile_document(profile: ProfileModel)
    requires
        modules_ordered(profile.modules),
    ensures
        printable(ValueModel::Table(profile_document(profile))),
        modules_fit(profile.modules) ==> document_fits(profile_document(profile)),
{
    let entries = profile_document(profile);
    lemma_modules_document(profile.modules);
    assert forall|j: int| 0 <= j < entries.len() implies printable((#[trigger] entries[j]).1) && (modules_fit(
        profile.modules,
    ) ==> fits(entries[j].1, MAX_DEPTH as nat)) by {
        assert(0 <= j < 6);
    }
}

/// What holds of the options of the modules holds of the document of a profile
/// without its credential.
pub proof fn lemma_provision_document(profile: ProvisionModel)
    requires
        modules_ordered(profile.modules),
    ensures
        printable(ValueModel::Table(provision_document(profile))),
        modules_fit(profile.modules) ==> document_fits(provision_document(profile)),
{
    let entries = provision_document(profile);
    lemma_modules_document(profile.modules);
    assert forall|j: int| 0 <= j < entries.len() implies printable((#[trigger] entries[j]).1) && (modules_fit(
        profile.modules,
    ) ==> fits(entries[j].1, MAX_DEPTH as nat)) by {
        assert(0 <= j < 5);
    }
}

}
