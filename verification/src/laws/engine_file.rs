//! What the main file of a client says, and what the engine is asked.
use vstd::prelude::*;
use vstd::utf8::*;

use crate::client::{
    accepts, accepts_all, class_paths, client_document, client_draft, engine_says, generated_modules,
    package_directory, refuses, settled, state_directory, with_module, CheckModel, ClientModel, DraftModel,
    EngineCheck, FileModel,
};
use crate::config::{lemma_one_item, lemma_text_array, logging_entries, main_entries, text_array, tunnel_entries};
use crate::document::toml_text;
use crate::error::ErrorModel;
use crate::laws::generated::place_of_module;
use crate::laws::tables::law_canonical_tables_keep_their_values;
use crate::paths::{absolute, child};
use crate::profile::{class_count, ModuleClass, ModuleModel, ProfileModel};
use crate::value::{canonical, canonical_entries, get, ValueModel};

verus! {

/// The files of the modules of a class are those of its modules, in their order:
/// each of them, and no other.
pub proof fn law_class_files_are_those_of_its_modules(root: Seq<char>, modules: Seq<ModuleModel>, class: ModuleClass)
    ensures
        class_paths(root, modules, class).len() == class_count(modules, class),
        forall|i: int|
            0 <= i < modules.len() && (#[trigger] modules[i]).class == class ==> class_paths(
                root,
                modules,
                class,
            ).contains(place_of_module(root, modules[i])),
        forall|k: int|
            0 <= k < class_paths(root, modules, class).len() ==> exists|i: int|
                0 <= i < modules.len() && (#[trigger] modules[i]).class == class && #[trigger] class_paths(
                    root,
                    modules,
                    class,
                )[k] == place_of_module(root, modules[i]),
    decreases modules.len(),
{
    if modules.len() > 0 {
        let rest = modules.drop_last();
        let last = modules.len() - 1;
        law_class_files_are_those_of_its_modules(root, rest, class);
        let before = class_paths(root, rest, class);
        let after = class_paths(root, modules, class);
        assert forall|i: int| 0 <= i < modules.len() && (#[trigger] modules[i]).class == class implies after.contains(
            place_of_module(root, modules[i]),
        ) by {
            if i < last {
                assert(rest[i].class == class);
                let k = choose|k: int| 0 <= k < before.len() && before[k] == place_of_module(root, rest[i]);
                assert(after[k] == place_of_module(root, modules[i]));
            } else {
                assert(after[before.len() as int] == place_of_module(root, modules[i]));
            }
        }
        assert forall|k: int| 0 <= k < after.len() implies exists|i: int|
            0 <= i < modules.len() && (#[trigger] modules[i]).class == class && #[trigger] after[k] == place_of_module(
                root,
                modules[i],
            ) by {
            if k < before.len() {
                assert(after[k] == before[k]);
                let i = choose|i: int|
                    0 <= i < rest.len() && (#[trigger] rest[i]).class == class && before[k] == place_of_module(
                        root,
                        rest[i],
                    );
                assert(modules[i].class == class);
            } else {
                assert(modules[last].class == class);
            }
        }
    }
}

/// The files of the modules of a class come in the order of the modules: those of
/// some modules before those of the modules that follow.
pub proof fn law_class_files_keep_their_order(
    root: Seq<char>,
    front: Seq<ModuleModel>,
    back: Seq<ModuleModel>,
    class: ModuleClass,
)
    ensures
        class_paths(root, front + back, class) == class_paths(root, front, class) + class_paths(root, back, class),
    decreases back.len(),
{
    if back.len() == 0 {
        assert(front + back =~= front);
        assert(class_paths(root, front, class) + class_paths(root, back, class) =~= class_paths(root, front, class));
    } else {
        law_class_files_keep_their_order(root, front, back.drop_last(), class);
        assert((front + back).drop_last() =~= front + back.drop_last());
        assert((front + back).last() == back.last());
        assert(class_paths(root, front + back, class) =~= class_paths(root, front, class) + class_paths(
            root,
            back,
            class,
        ));
    }
}

/// Whether a table tells a tunnel of a client by the files of its modules: the
/// protection, the carrier and the policy by the file of the module of that class,
/// the adapters by theirs, each of them and no other.
pub open spec fn tunnel_tells(
    tunnel: Seq<(Seq<char>, ValueModel)>,
    root: Seq<char>,
    modules: Seq<ModuleModel>,
) -> bool {
    &&& get(tunnel, "name"@) == Some(ValueModel::Text("main"@))
    &&& get(tunnel, "role"@) == Some(ValueModel::Text("client"@))
    &&& forall|i: int|
        0 <= i < modules.len() ==> match (#[trigger] modules[i]).class {
            ModuleClass::Protection => get(tunnel, "protection"@) == Some(
                ValueModel::Text(place_of_module(root, modules[i])),
            ),
            ModuleClass::Carrier => get(tunnel, "carrier"@) == Some(
                ValueModel::Text(place_of_module(root, modules[i])),
            ),
            ModuleClass::Policy => get(tunnel, "policy"@) == Some(
                ValueModel::Text(place_of_module(root, modules[i])),
            ),
            ModuleClass::Adapter => get(tunnel, "adapters"@) matches Some(ValueModel::Array(items)) && items.contains(
                ValueModel::Text(place_of_module(root, modules[i])),
            ),
        }
    &&& get(tunnel, "adapters"@) matches Some(ValueModel::Array(items)) && {
        &&& items.len() == class_count(modules, ModuleClass::Adapter)
        &&& forall|k: int|
            0 <= k < items.len() ==> exists|i: int|
                0 <= i < modules.len() && (#[trigger] modules[i]).class == ModuleClass::Adapter && #[trigger] items[k]
                    == ValueModel::Text(place_of_module(root, modules[i]))
    }
}

proof fn lemma_tunnel_tells(root: Seq<char>, modules: Seq<ModuleModel>)
    requires
        class_count(modules, ModuleClass::Protection) == 1,
        class_count(modules, ModuleClass::Carrier) == 1,
        class_count(modules, ModuleClass::Policy) == 1,
    ensures
        tunnel_tells(
            canonical_entries(
                tunnel_entries(
                    class_paths(root, modules, ModuleClass::Adapter),
                    class_paths(root, modules, ModuleClass::Protection)[0],
                    class_paths(root, modules, ModuleClass::Carrier)[0],
                    class_paths(root, modules, ModuleClass::Policy)[0],
                ),
            ),
            root,
            modules,
        ),
{
    reveal_strlit("name");
    reveal_strlit("role");
    reveal_strlit("adapters");
    reveal_strlit("protection");
    reveal_strlit("carrier");
    reveal_strlit("policy");
    assert("name"@.len() == 4 && "name"@[0] == 'n' && "role"@.len() == 4 && "role"@[0] == 'r');
    assert("adapters"@.len() == 8 && "protection"@.len() == 10 && "carrier"@.len() == 7 && "policy"@.len() == 6);
    let adapters = class_paths(root, modules, ModuleClass::Adapter);
    let protections = class_paths(root, modules, ModuleClass::Protection);
    let carriers = class_paths(root, modules, ModuleClass::Carrier);
    let policies = class_paths(root, modules, ModuleClass::Policy);
    let entries = tunnel_entries(adapters, protections[0], carriers[0], policies[0]);
    let tunnel = canonical_entries(entries);
    law_canonical_tables_keep_their_values(entries, 0);
    law_canonical_tables_keep_their_values(entries, 1);
    law_canonical_tables_keep_their_values(entries, 2);
    law_canonical_tables_keep_their_values(entries, 3);
    law_canonical_tables_keep_their_values(entries, 4);
    law_canonical_tables_keep_their_values(entries, 5);
    lemma_text_array(adapters);
    law_class_files_are_those_of_its_modules(root, modules, ModuleClass::Adapter);
    law_class_files_are_those_of_its_modules(root, modules, ModuleClass::Protection);
    law_class_files_are_those_of_its_modules(root, modules, ModuleClass::Carrier);
    law_class_files_are_those_of_its_modules(root, modules, ModuleClass::Policy);
    let items = text_array(adapters)->Array_0;
    assert(get(tunnel, "adapters"@) == Some(ValueModel::Array(items)));
    assert forall|i: int| 0 <= i < modules.len() implies match (#[trigger] modules[i]).class {
        ModuleClass::Protection => protections[0] == place_of_module(root, modules[i]),
        ModuleClass::Carrier => carriers[0] == place_of_module(root, modules[i]),
        ModuleClass::Policy => policies[0] == place_of_module(root, modules[i]),
        ModuleClass::Adapter => items.contains(ValueModel::Text(place_of_module(root, modules[i]))),
    } by {
        let place = place_of_module(root, modules[i]);
        let paths = class_paths(root, modules, modules[i].class);
        assert(paths.contains(place));
        let k = choose|k: int| 0 <= k < paths.len() && paths[k] == place;
        if modules[i].class == ModuleClass::Adapter {
            assert(items[k] == ValueModel::Text(place));
        } else {
            assert(k == 0);
        }
    }
    assert forall|k: int| 0 <= k < items.len() implies exists|i: int|
        0 <= i < modules.len() && (#[trigger] modules[i]).class == ModuleClass::Adapter && #[trigger] items[k]
            == ValueModel::Text(place_of_module(root, modules[i])) by {
        assert(items[k] == ValueModel::Text(adapters[k]));
        let i = choose|i: int|
            0 <= i < modules.len() && (#[trigger] modules[i]).class == ModuleClass::Adapter && adapters[k]
                == place_of_module(root, modules[i]);
        assert(modules[i].class == ModuleClass::Adapter);
    }
}

/// Whether a table is that of the main file of a client: it says where its packages,
/// its state and its log are, and which files tell of its tunnel.
pub open spec fn main_tells(table: Seq<(Seq<char>, ValueModel)>, root: Seq<char>, modules: Seq<ModuleModel>) -> bool {
    &&& get(table, "wire_version"@) == Some(ValueModel::Integer(1))
    &&& get(table, "paths"@) matches Some(ValueModel::Table(paths)) && {
        &&& get(paths, "packages"@) == Some(ValueModel::Text(child(root, "packages"@)))
        &&& get(paths, "state"@) == Some(ValueModel::Text(child(root, "state"@)))
    }
    &&& get(table, "logging"@) matches Some(ValueModel::Table(logging)) && {
        &&& get(logging, "mode"@) == Some(ValueModel::Text("file"@))
        &&& get(logging, "file"@) == Some(ValueModel::Text(child(child(root, "state"@), "snolc.log"@)))
    }
    &&& get(table, "control"@) matches Some(ValueModel::Table(control)) && get(control, "mode"@) == Some(
        ValueModel::Text("off"@),
    )
    &&& get(table, "tunnels"@) matches Some(ValueModel::Array(tunnels)) && tunnels.len() == 1 && (
    tunnels[0] matches ValueModel::Table(tunnel) && tunnel_tells(tunnel, root, modules))
}

proof fn lemma_table(entries: Seq<(Seq<char>, ValueModel)>)
    ensures
        canonical(ValueModel::Table(entries)) == ValueModel::Table(canonical_entries(entries)),
{
    let whole = ValueModel::Table(entries);
    assert(whole->Table_0 == entries);
}

proof fn lemma_logging(state: Seq<char>)
    ensures
        get(canonical_entries(logging_entries(state)), "mode"@) == Some(ValueModel::Text("file"@)),
        get(canonical_entries(logging_entries(state)), "file"@) == Some(ValueModel::Text(child(state, "snolc.log"@))),
{
    reveal_strlit("mode");
    reveal_strlit("source");
    reveal_strlit("levels");
    reveal_strlit("file");
    reveal_strlit("limit");
    reveal_strlit("queue_bytes");
    reveal_strlit("max_record_bytes");
    reveal_strlit("flush_interval_ms");
    reveal_strlit("on_io_error");
    assert("mode"@.len() == 4 && "mode"@[0] == 'm' && "source"@.len() == 6 && "levels"@.len() == 6);
    assert("file"@.len() == 4 && "file"@[0] == 'f' && "limit"@.len() == 5 && "queue_bytes"@.len() == 11);
    assert("max_record_bytes"@.len() == 16 && "flush_interval_ms"@.len() == 17 && "on_io_error"@.len() == 11);
    let entries = logging_entries(state);
    law_canonical_tables_keep_their_values(entries, 0);
    law_canonical_tables_keep_their_values(entries, 3);
}

proof fn lemma_main_tells(root: Seq<char>, modules: Seq<ModuleModel>)
    requires
        class_count(modules, ModuleClass::Protection) == 1,
        class_count(modules, ModuleClass::Carrier) == 1,
        class_count(modules, ModuleClass::Policy) == 1,
    ensures
        main_tells(client_document(root, modules), root, modules),
{
    reveal_strlit("wire_version");
    reveal_strlit("paths");
    reveal_strlit("engine");
    reveal_strlit("stack");
    reveal_strlit("yamux");
    reveal_strlit("logging");
    reveal_strlit("control");
    reveal_strlit("tunnels");
    reveal_strlit("packages");
    reveal_strlit("state");
    assert("wire_version"@.len() == 12 && "paths"@.len() == 5 && "paths"@[0] == 'p' && "engine"@.len() == 6);
    assert("stack"@.len() == 5 && "stack"@[0] == 's' && "yamux"@.len() == 5 && "yamux"@[0] == 'y');
    assert("logging"@.len() == 7 && "logging"@[0] == 'l' && "control"@.len() == 7 && "control"@[0] == 'c');
    assert("tunnels"@.len() == 7 && "tunnels"@[0] == 't' && "packages"@.len() == 8 && "state"@.len() == 5);
    let packages = package_directory(root);
    let state = state_directory(root);
    let tunnel = tunnel_entries(
        class_paths(root, modules, ModuleClass::Adapter),
        class_paths(root, modules, ModuleClass::Protection)[0],
        class_paths(root, modules, ModuleClass::Carrier)[0],
        class_paths(root, modules, ModuleClass::Policy)[0],
    );
    let entries = main_entries(
        packages,
        state,
        class_paths(root, modules, ModuleClass::Adapter),
        class_paths(root, modules, ModuleClass::Protection)[0],
        class_paths(root, modules, ModuleClass::Carrier)[0],
        class_paths(root, modules, ModuleClass::Policy)[0],
    );
    law_canonical_tables_keep_their_values(entries, 0);
    law_canonical_tables_keep_their_values(entries, 1);
    law_canonical_tables_keep_their_values(entries, 5);
    law_canonical_tables_keep_their_values(entries, 6);
    law_canonical_tables_keep_their_values(entries, 7);
    let paths = seq![("packages"@, ValueModel::Text(packages)), ("state"@, ValueModel::Text(state))];
    lemma_table(paths);
    law_canonical_tables_keep_their_values(paths, 0);
    law_canonical_tables_keep_their_values(paths, 1);
    lemma_table(logging_entries(state));
    lemma_logging(state);
    let control = seq![("mode"@, ValueModel::Text("off"@))];
    lemma_table(control);
    law_canonical_tables_keep_their_values(control, 0);
    lemma_one_item(ValueModel::Table(tunnel));
    lemma_table(tunnel);
    lemma_tunnel_tells(root, modules);
}

/// The main file of a client lies in its place under the root, and is the text of a
/// table that says where the packages, the state and the log of the client are, and
/// which of the files of its modules tell of its tunnel.
pub proof fn law_main_file_names_the_files_of_the_modules(profile: ProfileModel, root: Seq<char>)
    requires
        client_draft(profile, root).outcome is Ok,
    ensures
        client_draft(profile, root).outcome->Ok_0.main_path == child(child(root, "config"@), "snolc.toml"@),
        exists|table: Seq<(Seq<char>, ValueModel)>| #[trigger]
            main_tells(table, root, profile.modules) && toml_text(table) == Ok::<Seq<char>, Seq<char>>(
                client_draft(profile, root).outcome->Ok_0.main_toml,
            ),
{
    lemma_main_tells(root, profile.modules);
}

/// The engine is asked of the text of each module, in the order of the modules, and
/// of the main file at last: of what stands in the files, under their paths.
pub proof fn law_engine_is_asked_of_what_is_written(profile: ProfileModel, root: Seq<char>)
    requires
        client_draft(profile, root).outcome is Ok,
    ensures
        ({
            let checks = client_draft(profile, root).checks;
            let client = client_draft(profile, root).outcome->Ok_0;
            let count = profile.modules.len() as int;
            &&& checks.len() == count + 1
            &&& forall|i: int|
                0 <= i < count ==> {
                    &&& (#[trigger] checks[i]).path == place_of_module(root, profile.modules[i])
                    &&& !checks[i].main
                    &&& client.files.contains(
                        FileModel {
                            path: checks[i].path,
                            contents: encode_utf8(checks[i].text),
                            secret: profile.modules[i].class == ModuleClass::Policy,
                        },
                    )
                }
            &&& checks[count].main
            &&& checks[count].path == child(root, "config"@)
            &&& checks[count].text == client.main_toml
        }),
{
    lemma_asked(profile, root, profile.modules);
}

proof fn lemma_asked(profile: ProfileModel, root: Seq<char>, modules: Seq<ModuleModel>)
    requires
        generated_modules(profile, root, modules).error is None,
    ensures
        ({
            let all = generated_modules(profile, root, modules);
            &&& all.checks.len() == modules.len()
            &&& forall|i: int|
                0 <= i < modules.len() ==> {
                    &&& (#[trigger] all.checks[i]).path == place_of_module(root, modules[i])
                    &&& !all.checks[i].main
                    &&& all.files.contains(
                        FileModel {
                            path: all.checks[i].path,
                            contents: encode_utf8(all.checks[i].text),
                            secret: modules[i].class == ModuleClass::Policy,
                        },
                    )
                }
        }),
    decreases modules.len(),
{
    if modules.len() > 0 {
        let rest = modules.drop_last();
        let before = generated_modules(profile, root, rest);
        let after = generated_modules(profile, root, modules);
        assert(before.error is None);
        lemma_asked(profile, root, rest);
        assert forall|i: int| 0 <= i < modules.len() implies {
            &&& (#[trigger] after.checks[i]).path == place_of_module(root, modules[i])
            &&& !after.checks[i].main
            &&& after.files.contains(
                FileModel {
                    path: after.checks[i].path,
                    contents: encode_utf8(after.checks[i].text),
                    secret: modules[i].class == ModuleClass::Policy,
                },
            )
        } by {
            let file = FileModel {
                path: after.checks[i].path,
                contents: encode_utf8(after.checks[i].text),
                secret: modules[i].class == ModuleClass::Policy,
            };
            if i < rest.len() {
                assert(after.checks[i] == before.checks[i]);
                assert(rest[i] == modules[i]);
                let k = choose|k: int| 0 <= k < before.files.len() && before.files[k] == file;
                assert(after.files[k] == file);
            } else {
                assert(after.files[after.files.len() - 1] == file);
            }
        }
    }
}

/// Whether a file is that of a module, or that of the key of the server.
pub open spec fn known_file(file: FileModel, root: Seq<char>, modules: Seq<ModuleModel>) -> bool {
    ||| file.path == child(child(root, "secrets"@), "server-noise-key.hex"@) && file.secret
    ||| exists|i: int|
        0 <= i < modules.len() && file.path == place_of_module(root, #[trigger] modules[i]) && file.secret == (
        modules[i].class == ModuleClass::Policy)
}

/// A client has no files but those of its modules and that of the key of the server,
/// and at most one of the latter for each module.
pub proof fn law_clients_have_no_other_files(profile: ProfileModel, root: Seq<char>)
    ensures
        client_draft(profile, root).outcome matches Ok(client) ==> profile.modules.len() <= client.files.len() <= 2
            * profile.modules.len() && forall|k: int|
            0 <= k < client.files.len() ==> known_file(#[trigger] client.files[k], root, profile.modules),
{
    if client_draft(profile, root).outcome is Ok {
        lemma_known_files(profile, root, profile.modules);
    }
}

proof fn lemma_known_files(profile: ProfileModel, root: Seq<char>, modules: Seq<ModuleModel>)
    requires
        generated_modules(profile, root, modules).error is None,
    ensures
        modules.len() <= generated_modules(profile, root, modules).files.len() <= 2 * modules.len(),
        forall|k: int|
            0 <= k < generated_modules(profile, root, modules).files.len() ==> known_file(
                #[trigger] generated_modules(profile, root, modules).files[k],
                root,
                modules,
            ),
    decreases modules.len(),
{
    if modules.len() > 0 {
        let rest = modules.drop_last();
        let before = generated_modules(profile, root, rest);
        let after = generated_modules(profile, root, modules);
        assert(before.error is None);
        assert(after == with_module(before, profile, root, modules.last()));
        lemma_known_files(profile, root, rest);
        assert forall|k: int| 0 <= k < after.files.len() implies known_file(#[trigger] after.files[k], root, modules) by {
            if k < before.files.len() {
                assert(after.files[k] == before.files[k]);
                if after.files[k].path != child(child(root, "secrets"@), "server-noise-key.hex"@)
                    || !after.files[k].secret {
                    let i = choose|i: int|
                        0 <= i < rest.len() && before.files[k].path == place_of_module(root, #[trigger] rest[i])
                            && before.files[k].secret == (rest[i].class == ModuleClass::Policy);
                    assert(modules[i] == rest[i]);
                }
            } else if k == after.files.len() - 1 {
                assert(modules[modules.len() - 1] == modules.last());
            }
        }
    }
}

/// A profile that is not valid, or a root that is not absolute, has no configuration,
/// and the engine is asked of nothing; what the engine refuses is the error, and what
/// it accepts is what was drafted.
pub proof fn law_refused_configurations_say_why(
    profile: ProfileModel,
    root: Seq<char>,
    draft: DraftModel,
    message: Seq<char>,
)
    ensures
        !profile.valid() ==> client_draft(profile, root).outcome == Err::<ClientModel, ErrorModel>(ErrorModel::Value),
        profile.valid() && !absolute(root) ==> client_draft(profile, root).outcome == Err::<ClientModel, ErrorModel>(
            ErrorModel::Path,
        ),
        !profile.valid() || !absolute(root) ==> client_draft(profile, root).checks.len() == 0,
        settled(draft, Some(message)) == Err::<ClientModel, ErrorModel>(ErrorModel::Generated(message)),
        settled(draft, None) == draft.outcome,
{
}

/// Whether the engine was asked of a text and gave an answer: nothing, or what it has
/// against it.
pub open spec fn answered<E: Fn(&EngineCheck) -> Option<String>>(
    engine: E,
    check: CheckModel,
    answer: Option<Seq<char>>,
) -> bool {
    exists|asked: EngineCheck, said: Option<String>| #[trigger]
        call_ensures(engine, (&asked,), said) && asked@ == check && match said {
            Some(message) => answer == Some(message@),
            None => answer is None,
        }
}

/// Where the engine refused nothing, it was asked of each text and said nothing against
/// it; where it refused one, it said that of one of the texts, and nothing against any
/// text before that.
pub proof fn law_engine_answers_for_each_text<E: Fn(&EngineCheck) -> Option<String>>(
    engine: E,
    checks: Seq<CheckModel>,
    refusal: Option<Seq<char>>,
)
    requires
        engine_says(engine, checks, refusal),
    ensures
        refusal is None ==> forall|i: int|
            0 <= i < checks.len() ==> #[trigger] answered(engine, checks[i], None),
        refusal is Some ==> exists|k: int|
            0 <= k < checks.len() && #[trigger] answered(engine, checks[k], refusal) && forall|i: int|
                0 <= i < k ==> #[trigger] answered(engine, checks[i], None),
{
    match refusal {
        None => {
            assert forall|i: int| 0 <= i < checks.len() implies #[trigger] answered(engine, checks[i], None) by {
                assert(accepts(engine, checks[i]));
            }
        },
        Some(message) => {
            let k = choose|k: int|
                0 <= k < checks.len() && refuses(engine, #[trigger] checks[k], message) && accepts_all(
                    engine,
                    checks.take(k),
                );
            assert(refuses(engine, checks[k], message));
            assert(answered(engine, checks[k], refusal));
            assert forall|i: int| 0 <= i < k implies #[trigger] answered(engine, checks[i], None) by {
                assert(checks.take(k)[i] == checks[i]);
                assert(accepts(engine, checks.take(k)[i]));
            }
        },
    }
}

}
