//! The configuration of a client: the files that its engine reads.
use vstd::prelude::*;

use crate::document::{
    document_fits, lemma_nested_canonical, lemma_nested_deeper, lemma_shallow_fits, lemma_table_nested, nested_within,
    print_table, reads_back, toml_text, MAX_DEPTH,
};
use crate::error::ProfileError;
use crate::paths::{child, child_path};
use crate::text::text_views;
use crate::tree::toml_document;
use crate::value::{
    array_model, canonical, canonical_entries, canonical_items, lemma_array_model, lemma_canonical_sorted,
    pair_models, sorted, table_of, OptionTable, OptionValue, ValueModel,
};

verus! {

/// The table with the limits of the engine.
pub open spec fn engine_entries() -> Seq<(Seq<char>, ValueModel)> {
    seq![
        ("max_sessions"@, ValueModel::Integer(2)),
        ("max_flows"@, ValueModel::Integer(32)),
        ("max_pending_sessions"@, ValueModel::Integer(2)),
        ("max_pending_opens"@, ValueModel::Integer(8)),
        ("max_managed_bytes"@, ValueModel::Integer(33_554_432)),
        ("max_commands"@, ValueModel::Integer(64)),
        ("max_events"@, ValueModel::Integer(256)),
        ("max_io_chunk"@, ValueModel::Integer(16_384)),
        ("max_ingress_packets_per_tick"@, ValueModel::Integer(32)),
        ("connect_timeout_ms"@, ValueModel::Integer(15_000)),
        ("handshake_timeout_ms"@, ValueModel::Integer(15_000)),
        ("shutdown_timeout_ms"@, ValueModel::Integer(5_000)),
    ]
}

fn engine_table() -> (table: OptionTable)
    ensures
        table@ == canonical_entries(engine_entries()),
{
    let entries: Vec<(&str, OptionValue)> = vec![
        ("max_sessions", OptionValue::Integer(2)),
        ("max_flows", OptionValue::Integer(32)),
        ("max_pending_sessions", OptionValue::Integer(2)),
        ("max_pending_opens", OptionValue::Integer(8)),
        ("max_managed_bytes", OptionValue::Integer(33_554_432)),
        ("max_commands", OptionValue::Integer(64)),
        ("max_events", OptionValue::Integer(256)),
        ("max_io_chunk", OptionValue::Integer(16_384)),
        ("max_ingress_packets_per_tick", OptionValue::Integer(32)),
        ("connect_timeout_ms", OptionValue::Integer(15_000)),
        ("handshake_timeout_ms", OptionValue::Integer(15_000)),
        ("shutdown_timeout_ms", OptionValue::Integer(5_000)),
    ];
    proof {
        lemma_table_of(pair_models(entries@), engine_entries());
    }
    table_of(entries)
}

/// The table of entries whose values are in order is the table in order.
pub proof fn lemma_table_of(given: Seq<(Seq<char>, ValueModel)>, entries: Seq<(Seq<char>, ValueModel)>)
    requires
        given.len() == entries.len(),
        forall|i: int|
            0 <= i < entries.len() ==> (#[trigger] entries[i]).0 == given[i].0 && canonical(entries[i].1) == given[i].1,
    ensures
        sorted(given) == canonical_entries(entries),
{
    lemma_canonical_sorted(entries);
    assert(given =~= entries.map_values(|entry: (Seq<char>, ValueModel)| (entry.0, canonical(entry.1))));
}

/// The table with the limits of the network stack.
pub open spec fn stack_entries() -> Seq<(Seq<char>, ValueModel)> {
    seq![
        ("ipv4"@, ValueModel::Boolean(true)),
        ("ipv6"@, ValueModel::Boolean(true)),
        ("mtu"@, ValueModel::Integer(1_280)),
        ("tcp_socket_rx_bytes"@, ValueModel::Integer(16_384)),
        ("tcp_socket_tx_bytes"@, ValueModel::Integer(16_384)),
        ("udp_socket_rx_bytes"@, ValueModel::Integer(131_072)),
        ("udp_socket_tx_bytes"@, ValueModel::Integer(131_072)),
        ("udp_metadata_slots"@, ValueModel::Integer(8)),
        ("packet_queue_bytes"@, ValueModel::Integer(262_144)),
        ("max_udp_payload_bytes"@, ValueModel::Integer(65_507)),
        ("reassembly_slots"@, ValueModel::Integer(4)),
        ("reassembly_timeout_ms"@, ValueModel::Integer(15_000)),
    ]
}

fn stack_table() -> (table: OptionTable)
    ensures
        table@ == canonical_entries(stack_entries()),
{
    let entries: Vec<(&str, OptionValue)> = vec![
        ("ipv4", OptionValue::Boolean(true)),
        ("ipv6", OptionValue::Boolean(true)),
        ("mtu", OptionValue::Integer(1_280)),
        ("tcp_socket_rx_bytes", OptionValue::Integer(16_384)),
        ("tcp_socket_tx_bytes", OptionValue::Integer(16_384)),
        ("udp_socket_rx_bytes", OptionValue::Integer(131_072)),
        ("udp_socket_tx_bytes", OptionValue::Integer(131_072)),
        ("udp_metadata_slots", OptionValue::Integer(8)),
        ("packet_queue_bytes", OptionValue::Integer(262_144)),
        ("max_udp_payload_bytes", OptionValue::Integer(65_507)),
        ("reassembly_slots", OptionValue::Integer(4)),
        ("reassembly_timeout_ms", OptionValue::Integer(15_000)),
    ];
    proof {
        lemma_table_of(pair_models(entries@), stack_entries());
    }
    table_of(entries)
}

/// The table with the limits of the multiplexer.
pub open spec fn yamux_entries() -> Seq<(Seq<char>, ValueModel)> {
    seq![
        ("max_streams_per_session"@, ValueModel::Integer(17)),
        ("receive_window_bytes"@, ValueModel::Integer(4_456_448)),
        ("split_send_size"@, ValueModel::Integer(16_384)),
        ("read_after_close"@, ValueModel::Boolean(true)),
    ]
}

fn yamux_table() -> (table: OptionTable)
    ensures
        table@ == canonical_entries(yamux_entries()),
{
    let entries: Vec<(&str, OptionValue)> = vec![
        ("max_streams_per_session", OptionValue::Integer(17)),
        ("receive_window_bytes", OptionValue::Integer(4_456_448)),
        ("split_send_size", OptionValue::Integer(16_384)),
        ("read_after_close", OptionValue::Boolean(true)),
    ];
    proof {
        lemma_table_of(pair_models(entries@), yamux_entries());
    }
    table_of(entries)
}

/// Texts as an array.
pub open spec fn text_array(texts: Seq<Seq<char>>) -> ValueModel {
    ValueModel::Array(texts.map_values(|text: Seq<char>| ValueModel::Text(text)))
}

/// An array of texts is in order.
pub proof fn lemma_text_array(texts: Seq<Seq<char>>)
    ensures
        canonical(text_array(texts)) == text_array(texts),
    decreases texts.len(),
{
    let items = text_array(texts)->Array_0;
    if texts.len() > 0 {
        lemma_text_array(texts.drop_last());
        assert(items.drop_last() =~= text_array(texts.drop_last())->Array_0);
        assert(canonical_items(items.drop_last()) == items.drop_last());
        assert(canonical(items.last()) == items.last());
        assert(canonical_items(items) == items.drop_last().push(items.last()));
        assert(canonical_items(items) =~= items);
    } else {
        assert(canonical_items(items) =~= items);
    }
}

/// Texts as an array.
fn array_of_texts(texts: &Vec<String>) -> (value: OptionValue)
    ensures
        value@ == text_array(text_views(texts@)),
{
    let mut items: Vec<OptionValue> = Vec::new();
    let mut i: usize = 0;
    while i < texts.len()
        invariant
            i <= texts.len(),
            items@.len() == i,
            forall|j: int| 0 <= j < i ==> (#[trigger] items@[j])@ == ValueModel::Text(texts@[j]@),
        decreases texts.len() - i,
    {
        items.push(OptionValue::Text(texts[i].clone()));
        i = i + 1;
    }
    proof {
        lemma_array_model(items@);
        assert(array_model(items@) =~= text_array(text_views(texts@))->Array_0);
    }
    OptionValue::Array(items)
}

/// The table that says where and what is logged.
pub open spec fn logging_entries(state: Seq<char>) -> Seq<(Seq<char>, ValueModel)> {
    seq![
        ("mode"@, ValueModel::Text("file"@)),
        ("source"@, ValueModel::Text("toml"@)),
        ("levels"@, text_array(seq!["warning"@, "error"@, "debug"@])),
        ("file"@, ValueModel::Text(child(state, "snolc.log"@))),
        ("limit"@, ValueModel::Text("8mb"@)),
        ("queue_bytes"@, ValueModel::Integer(65_536)),
        ("max_record_bytes"@, ValueModel::Integer(2_048)),
        ("flush_interval_ms"@, ValueModel::Integer(1_000)),
        ("on_io_error"@, ValueModel::Text("event"@)),
    ]
}

/// A text as an option.
pub(crate) fn text_option(text: &str) -> (value: OptionValue)
    ensures
        value@ == ValueModel::Text(text@),
{
    OptionValue::Text(text.to_owned())
}

fn logging_table(state: &str) -> (table: OptionTable)
    ensures
        table@ == canonical_entries(logging_entries(state@)),
{
    let levels: Vec<String> = vec!["warning".to_owned(), "error".to_owned(), "debug".to_owned()];
    proof {
        assert(text_views(levels@) =~= seq!["warning"@, "error"@, "debug"@]);
        lemma_text_array(text_views(levels@));
    }
    let entries: Vec<(&str, OptionValue)> = vec![
        ("mode", text_option("file")),
        ("source", text_option("toml")),
        ("levels", array_of_texts(&levels)),
        ("file", OptionValue::Text(child_path(state, "snolc.log"))),
        ("limit", text_option("8mb")),
        ("queue_bytes", OptionValue::Integer(65_536)),
        ("max_record_bytes", OptionValue::Integer(2_048)),
        ("flush_interval_ms", OptionValue::Integer(1_000)),
        ("on_io_error", text_option("event")),
    ];
    proof {
        lemma_table_of(pair_models(entries@), logging_entries(state@));
    }
    table_of(entries)
}

/// The tunnel of the client: where the files of its modules are.
pub open spec fn tunnel_entries(
    adapters: Seq<Seq<char>>,
    protection: Seq<char>,
    carrier: Seq<char>,
    policy: Seq<char>,
) -> Seq<(Seq<char>, ValueModel)> {
    seq![
        ("name"@, ValueModel::Text("main"@)),
        ("role"@, ValueModel::Text("client"@)),
        ("adapters"@, text_array(adapters)),
        ("protection"@, ValueModel::Text(protection)),
        ("carrier"@, ValueModel::Text(carrier)),
        ("policy"@, ValueModel::Text(policy)),
    ]
}

fn tunnel_table(adapters: &Vec<String>, protection: &str, carrier: &str, policy: &str) -> (table: OptionTable)
    ensures
        table@ == canonical_entries(tunnel_entries(text_views(adapters@), protection@, carrier@, policy@)),
{
    let entries: Vec<(&str, OptionValue)> = vec![
        ("name", text_option("main")),
        ("role", text_option("client")),
        ("adapters", array_of_texts(adapters)),
        ("protection", text_option(protection)),
        ("carrier", text_option(carrier)),
        ("policy", text_option(policy)),
    ];
    proof {
        lemma_text_array(text_views(adapters@));
        lemma_table_of(
            pair_models(entries@),
            tunnel_entries(text_views(adapters@), protection@, carrier@, policy@),
        );
    }
    table_of(entries)
}

/// The main document of a client, in the order of its keys.
pub open spec fn main_document(
    packages: Seq<char>,
    state: Seq<char>,
    adapters: Seq<Seq<char>>,
    protection: Seq<char>,
    carrier: Seq<char>,
    policy: Seq<char>,
) -> Seq<(Seq<char>, ValueModel)> {
    canonical_entries(main_entries(packages, state, adapters, protection, carrier, policy))
}

/// What the main document of a client says.
pub open spec fn main_entries(
    packages: Seq<char>,
    state: Seq<char>,
    adapters: Seq<Seq<char>>,
    protection: Seq<char>,
    carrier: Seq<char>,
    policy: Seq<char>,
) -> Seq<(Seq<char>, ValueModel)> {
    seq![
        ("wire_version"@, ValueModel::Integer(1)),
        (
            "paths"@,
            ValueModel::Table(
                seq![("packages"@, ValueModel::Text(packages)), ("state"@, ValueModel::Text(state))],
            ),
        ),
        ("engine"@, ValueModel::Table(engine_entries())),
        ("stack"@, ValueModel::Table(stack_entries())),
        ("yamux"@, ValueModel::Table(yamux_entries())),
        ("logging"@, ValueModel::Table(logging_entries(state))),
        ("control"@, ValueModel::Table(seq![("mode"@, ValueModel::Text("off"@))])),
        (
            "tunnels"@,
            ValueModel::Array(seq![ValueModel::Table(tunnel_entries(adapters, protection, carrier, policy))]),
        ),
    ]
}

/// An array of one item is in order when the item is.
pub proof fn lemma_one_item(item: ValueModel)
    ensures
        canonical(ValueModel::Array(seq![item])) == ValueModel::Array(seq![canonical(item)]),
{
    let items = seq![item];
    assert(items.drop_last() =~= Seq::<ValueModel>::empty());
    reveal_with_fuel(canonical_items, 2);
    assert(canonical_items(items) =~= seq![canonical(item)]);
}

/// An array of texts is nested once.
proof fn lemma_texts_nested(texts: Seq<Seq<char>>)
    ensures
        nested_within(text_array(texts), 1),
{
    let array = text_array(texts);
    let items = array->Array_0;
    assert forall|i: int| 0 <= i < items.len() implies nested_within(#[trigger] items[i], 0) by {
        assert(items[i] == ValueModel::Text(texts[i]));
    }
}

/// The main document is not nested deep.
proof fn lemma_main_fits(
    packages: Seq<char>,
    state: Seq<char>,
    adapters: Seq<Seq<char>>,
    protection: Seq<char>,
    carrier: Seq<char>,
    policy: Seq<char>,
)
    ensures
        document_fits(main_document(packages, state, adapters, protection, carrier, policy)),
{
    let entries = main_entries(packages, state, adapters, protection, carrier, policy);
    let paths = seq![("packages"@, ValueModel::Text(packages)), ("state"@, ValueModel::Text(state))];
    let control = seq![("mode"@, ValueModel::Text("off"@))];
    let tunnel = tunnel_entries(adapters, protection, carrier, policy);
    let tunnels = ValueModel::Array(seq![ValueModel::Table(tunnel)]);
    lemma_texts_nested(adapters);
    lemma_texts_nested(seq!["warning"@, "error"@, "debug"@]);
    lemma_table_nested(paths, 1);
    lemma_table_nested(control, 1);
    lemma_table_nested(tunnel, 1);
    lemma_table_nested(logging_entries(state), 1);
    lemma_table_nested(engine_entries(), 1);
    lemma_table_nested(stack_entries(), 1);
    lemma_table_nested(yamux_entries(), 1);
    assert(nested_within(tunnels, 3)) by {
        let items = tunnels->Array_0;
        assert forall|i: int| 0 <= i < items.len() implies nested_within(#[trigger] items[i], 2) by {
            assert(items[i] == ValueModel::Table(tunnel));
        }
    }
    assert forall|i: int| 0 <= i < entries.len() implies nested_within((#[trigger] entries[i]).1, 3) by {
        assert(0 <= i < 8);
        if entries[i].1 is Table {
            lemma_nested_deeper(entries[i].1, 2, 3);
        }
    }
    lemma_table_nested(entries, 3);
    let value = ValueModel::Table(entries);
    lemma_nested_canonical(value, 4);
    lemma_shallow_fits(canonical(value), 4, (MAX_DEPTH + 1) as nat);
}

/// The main file of a client.
pub fn main_toml(
    packages: &str,
    state: &str,
    adapters: &Vec<String>,
    protection: &str,
    carrier: &str,
    policy: &str,
) -> (text: Result<String, ProfileError>)
    ensures
        text is Ok,
        toml_text(
            main_document(packages@, state@, text_views(adapters@), protection@, carrier@, policy@),
        ) == Ok::<Seq<char>, Seq<char>>(text->Ok_0@),
        reads_back(
            main_document(packages@, state@, text_views(adapters@), protection@, carrier@, policy@),
            text->Ok_0@,
        ),
        toml_document(text->Ok_0@) is Ok,
{
    let paths: Vec<(&str, OptionValue)> = vec![("packages", text_option(packages)), ("state", text_option(state))];
    let ghost path_entries = seq![("packages"@, ValueModel::Text(packages@)), ("state"@, ValueModel::Text(state@))];
    let control: Vec<(&str, OptionValue)> = vec![("mode", text_option("off"))];
    let ghost control_entries = seq![("mode"@, ValueModel::Text("off"@))];
    proof {
        lemma_table_of(pair_models(paths@), path_entries);
        lemma_table_of(pair_models(control@), control_entries);
    }
    let tunnel = tunnel_table(adapters, protection, carrier, policy);
    let ghost tunnel_model = tunnel_entries(text_views(adapters@), protection@, carrier@, policy@);
    let tunnels: Vec<OptionValue> = vec![OptionValue::Table(tunnel)];
    proof {
        lemma_one_item(ValueModel::Table(tunnel_model));
        lemma_array_model(tunnels@);
        assert(array_model(tunnels@) =~= seq![canonical(ValueModel::Table(tunnel_model))]);
    }
    let entries: Vec<(&str, OptionValue)> = vec![
        ("wire_version", OptionValue::Integer(1)),
        ("paths", OptionValue::Table(table_of(paths))),
        ("engine", OptionValue::Table(engine_table())),
        ("stack", OptionValue::Table(stack_table())),
        ("yamux", OptionValue::Table(yamux_table())),
        ("logging", OptionValue::Table(logging_table(state))),
        ("control", OptionValue::Table(table_of(control))),
        ("tunnels", OptionValue::Array(tunnels)),
    ];
    proof {
        lemma_table_of(
            pair_models(entries@),
            main_entries(packages@, state@, text_views(adapters@), protection@, carrier@, policy@),
        );
    }
    proof {
        lemma_main_fits(packages@, state@, text_views(adapters@), protection@, carrier@, policy@);
    }
    match print_table(&table_of(entries)) {
        Ok(text) => Ok(text),
        Err(message) => Err(ProfileError::TomlEncode(message)),
    }
}

}
