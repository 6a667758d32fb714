//! Which profiles are valid.
use vstd::prelude::*;
use vstd::utf8::*;

use crate::options::{privileged, privileged_entry, privileged_item, privileged_key};
use crate::profile::{
    class_count, is_name, is_package, package_char, package_part, package_parts, package_version, valid_module,
    valid_modules, ModuleClass, ModuleModel, ProfileModel, ProvisionModel,
};
use crate::text::{
    lemma_split_at_first, lemma_split_at_first_is, lemma_split_at_last, lemma_split_at_last_is, lowercase,
    split_at_last,
};
use crate::value::ValueModel;

verus! {

/// Whether a character is a letter or a digit of ASCII.
pub open spec fn letter_or_digit(c: char) -> bool {
    ||| 97 <= c as int <= 122
    ||| 65 <= c as int <= 90
    ||| 48 <= c as int <= 57
}

/// A name is made of one to sixty-four letters, digits, hyphens and underscores, and
/// any text of that kind is a name.
pub proof fn law_names_are_short_words(text: Seq<char>)
    ensures
        is_name(text) <==> 1 <= text.len() <= 64 && forall|i: int|
            0 <= i < text.len() ==> letter_or_digit(#[trigger] text[i]) || text[i] == '-' || text[i] == '_',
{
}

/// Whether a text is a part of a package.
pub open spec fn is_part(text: Seq<char>) -> bool {
    &&& text.len() > 0
    &&& forall|i: int|
        0 <= i < text.len() ==> letter_or_digit(#[trigger] text[i]) || text[i] == '-' || text[i] == '_' || text[i]
            == '.'
}

/// Whether a text is the version of a package.
pub open spec fn is_version(text: Seq<char>) -> bool {
    &&& text.len() > 0
    &&& forall|i: int|
        0 <= i < text.len() ==> letter_or_digit(#[trigger] text[i]) || text[i] == '-' || text[i] == '_' || text[i]
            == '.' || text[i] == '+'
}

/// The text of a package, by its parts.
pub open spec fn package_text(owner: Seq<char>, name: Seq<char>, version: Seq<char>) -> Seq<char> {
    owner + seq!['/'] + name + seq!['@'] + version
}

/// A package is an owner, a slash, a name, an `@` and a version, and any text of that
/// kind is a package; it is split into those parts.
pub proof fn law_packages_have_three_parts(text: Seq<char>)
    ensures
        is_package(text) <==> exists|owner: Seq<char>, name: Seq<char>, version: Seq<char>|
            text == #[trigger] package_text(owner, name, version) && is_part(owner) && is_part(name) && is_version(
                version,
            ),
        forall|owner: Seq<char>, name: Seq<char>, version: Seq<char>|
            text == #[trigger] package_text(owner, name, version) && is_part(owner) && is_part(name) && is_version(
                version,
            ) ==> package_parts(text) == Some((owner, name, version)),
{
    assert forall|owner: Seq<char>, name: Seq<char>, version: Seq<char>|
        text == #[trigger] package_text(owner, name, version) && is_part(owner) && is_part(name) && is_version(
            version,
        ) implies package_parts(text) == Some((owner, name, version)) by {
        assert(!version.contains('@')) by {
            if version.contains('@') {
                let i = choose|i: int| 0 <= i < version.len() && version[i] == '@';
                assert(letter_or_digit(version[i]) || version[i] == '+');
            }
        }
        assert(!owner.contains('/')) by {
            if owner.contains('/') {
                let i = choose|i: int| 0 <= i < owner.len() && owner[i] == '/';
                assert(letter_or_digit(owner[i]) || owner[i] == '.');
            }
        }
        lemma_split_at_last_is(owner + seq!['/'] + name, '@', version);
        lemma_split_at_first_is(owner, '/', name);
    }
    assert forall|part: Seq<char>| #[trigger] is_part(part) <==> package_part(part) by {
        if is_part(part) {
            assert forall|i: int| 0 <= i < part.len() implies package_char(#[trigger] part[i]) by {}
        }
        if package_part(part) {
            assert forall|i: int| 0 <= i < part.len() implies letter_or_digit(#[trigger] part[i]) || part[i] == '-'
                || part[i] == '_' || part[i] == '.' by {
                assert(package_char(part[i]));
            }
        }
    }
    assert forall|version: Seq<char>| #[trigger] is_version(version) <==> package_version(version) by {
        if is_version(version) {
            assert forall|i: int| 0 <= i < version.len() implies package_char(#[trigger] version[i]) || version[i]
                == '+' by {}
        }
        if package_version(version) {
            assert forall|i: int| 0 <= i < version.len() implies letter_or_digit(#[trigger] version[i])
                || version[i] == '-' || version[i] == '_' || version[i] == '.' || version[i] == '+' by {
                assert(package_char(version[i]) || version[i] == '+');
            }
        }
    }
    if is_package(text) {
        let (owner, name, version) = package_parts(text)->0;
        lemma_split_at_last(text, '@');
        let (identity, _) = split_at_last(text, '@')->0;
        lemma_split_at_first(identity, '/');
        assert(text =~= package_text(owner, name, version));
        assert(is_part(owner) && is_part(name) && is_version(version));
    }
}

/// A character in small letters: an ASCII capital is moved to the small letters, any
/// other character stays.
pub open spec fn small(c: char) -> int {
    if 65 <= c as int <= 90 {
        c as int + 32
    } else {
        c as int
    }
}

/// Whether two texts differ at most in ASCII capitals.
pub open spec fn same_but_capitals(left: Seq<char>, right: Seq<char>) -> bool {
    left.len() == right.len() && forall|i: int| 0 <= i < left.len() ==> small(#[trigger] left[i]) == small(right[i])
}

/// Texts in small letters are the same where the texts differ at most in capitals.
pub proof fn law_small_letters_tell_no_capitals(left: Seq<char>, right: Seq<char>)
    ensures
        lowercase(left) == lowercase(right) <==> same_but_capitals(left, right),
        lowercase(left).len() == left.len(),
        lowercase(lowercase(left)) == lowercase(left),
{
    let first = lowercase(left);
    let second = lowercase(right);
    assert forall|i: int| 0 <= i < left.len() implies (#[trigger] first[i]) as int == small(left[i]) by {}
    assert forall|i: int| 0 <= i < right.len() implies (#[trigger] second[i]) as int == small(right[i]) by {}
    if same_but_capitals(left, right) {
        assert forall|i: int| 0 <= i < first.len() implies first[i] == second[i] by {
            assert(small(left[i]) == small(right[i]));
        }
        assert(first =~= second);
    }
    if first == second {
        assert(first.len() == left.len() && second.len() == right.len());
        assert forall|i: int| 0 <= i < left.len() implies small(#[trigger] left[i]) == small(right[i]) by {
            assert(first[i] == second[i]);
        }
    }
    assert(lowercase(first) =~= first);
}

/// Whether a word names a local resource.
pub open spec fn local_word(word: Seq<char>) -> bool {
    ||| word == "path"@
    ||| word == "file"@
    ||| word == "directory"@
    ||| word == "socket"@
    ||| word == "command"@
    ||| word == "script"@
    ||| word == "packages"@
    ||| word == "state"@
    ||| word == "log"@
}

/// Whether an ending marks a local path.
pub open spec fn local_ending(ending: Seq<char>) -> bool {
    ending == "_path"@ || ending == "_file"@ || ending == "_directory"@
}

/// A key is privileged, in capitals or not, where it is one of the words that name a
/// local resource, or ends as one that marks a local path; and no other key is.
pub proof fn law_privileged_keys_name_local_resources(key: Seq<char>)
    ensures
        forall|word: Seq<char>| #[trigger] local_word(word) && same_but_capitals(key, word) ==> privileged_key(key),
        forall|stem: Seq<char>, ending: Seq<char>|
            local_ending(ending) && same_but_capitals(key, #[trigger] (stem + ending)) ==> privileged_key(key),
        privileged_key(key) ==> (exists|word: Seq<char>| #[trigger] local_word(word) && same_but_capitals(key, word))
            || (exists|stem: Seq<char>, ending: Seq<char>|
            local_ending(ending) && same_but_capitals(key, #[trigger] (stem + ending))),
{
    lemma_small_words();
    assert forall|word: Seq<char>| #[trigger] local_word(word) && same_but_capitals(key, word) implies privileged_key(
        key,
    ) by {
        law_small_letters_tell_no_capitals(key, word);
        assert(lowercase(word) == word);
    }
    assert forall|stem: Seq<char>, ending: Seq<char>|
        local_ending(ending) && same_but_capitals(key, #[trigger] (stem + ending)) implies privileged_key(key) by {
        law_small_letters_tell_no_capitals(key, stem + ending);
        assert(lowercase(stem + ending) =~= lowercase(stem) + lowercase(ending));
        assert(lowercase(ending) == ending);
        let name = lowercase(key);
        assert(ending =~= name.subrange(name.len() - ending.len(), name.len() as int));
    }
    if privileged_key(key) {
        let name = lowercase(key);
        law_small_letters_tell_no_capitals(key, name);
        if local_word(name) {
        } else {
            let ending = if "_path"@.is_suffix_of(name) {
                "_path"@
            } else if "_file"@.is_suffix_of(name) {
                "_file"@
            } else {
                "_directory"@
            };
            assert(local_ending(ending) && ending.is_suffix_of(name));
            let stem = name.take(name.len() - ending.len());
            assert(name =~= stem + ending);
        }
    }
}

/// The words and endings are in small letters.
proof fn lemma_small_words()
    ensures
        forall|word: Seq<char>| #[trigger] local_word(word) ==> lowercase(word) == word,
        forall|ending: Seq<char>| #[trigger] local_ending(ending) ==> lowercase(ending) == ending,
{
    reveal_strlit("path");
    reveal_strlit("file");
    reveal_strlit("directory");
    reveal_strlit("socket");
    reveal_strlit("command");
    reveal_strlit("script");
    reveal_strlit("packages");
    reveal_strlit("state");
    reveal_strlit("log");
    reveal_strlit("_path");
    reveal_strlit("_file");
    reveal_strlit("_directory");
    assert(lowercase("path"@) =~= "path"@);
    assert(lowercase("file"@) =~= "file"@);
    assert(lowercase("directory"@) =~= "directory"@);
    assert(lowercase("socket"@) =~= "socket"@);
    assert(lowercase("command"@) =~= "command"@);
    assert(lowercase("script"@) =~= "script"@);
    assert(lowercase("packages"@) =~= "packages"@);
    assert(lowercase("state"@) =~= "state"@);
    assert(lowercase("log"@) =~= "log"@);
    assert(lowercase("_path"@) =~= "_path"@);
    assert(lowercase("_file"@) =~= "_file"@);
    assert(lowercase("_directory"@) =~= "_directory"@);
}

/// Options are privileged where a key of theirs is, or where a table in them is,
/// which stands under a key or in an array under a key; and only there. What is no
/// table is not privileged.
pub proof fn law_privileged_options_are_found_inside(entries: Seq<(Seq<char>, ValueModel)>)
    ensures
        privileged(ValueModel::Table(entries)) <==> exists|i: int|
            0 <= i < entries.len() && #[trigger] leads_to_privileged(entries[i]),
        forall|value: ValueModel| !(value is Table) ==> !#[trigger] privileged(value),
{
    let whole = ValueModel::Table(entries);
    assert(whole->Table_0 == entries);
    assert forall|i: int| 0 <= i < entries.len() implies (#[trigger] leads_to_privileged(entries[i])
        <==> privileged_entry(entries[i])) by {
        let entry = entries[i];
        match entry.1 {
            ValueModel::Array(items) => {
                assert(privileged_item(items) <==> exists|j: int|
                    0 <= j < items.len() && items[j] is Table && privileged(#[trigger] items[j])) by {
                    if privileged_item(items) {
                        let j = choose|j: int| 0 <= j < items.len() && privileged(#[trigger] items[j]);
                        assert(items[j] is Table);
                    }
                }
            },
            _ => {},
        }
    }
    if privileged(whole) {
        let i = choose|i: int| 0 <= i < entries.len() && privileged_entry(#[trigger] entries[i]);
        assert(leads_to_privileged(entries[i]));
    }
    if exists|i: int| 0 <= i < entries.len() && #[trigger] leads_to_privileged(entries[i]) {
        let i = choose|i: int| 0 <= i < entries.len() && #[trigger] leads_to_privileged(entries[i]);
        assert(privileged_entry(entries[i]));
    }
}

/// Whether an entry has a privileged key, or has a privileged table under its key,
/// directly or in an array.
pub open spec fn leads_to_privileged(entry: (Seq<char>, ValueModel)) -> bool {
    ||| privileged_key(entry.0)
    ||| entry.1 is Table && privileged(entry.1)
    ||| entry.1 matches ValueModel::Array(items) && exists|j: int|
        0 <= j < items.len() && items[j] is Table && privileged(#[trigger] items[j])
}

/// Whether the module at an index, and no other, is of a class.
pub open spec fn only_of_class(modules: Seq<ModuleModel>, class: ModuleClass, index: int) -> bool {
    &&& 0 <= index < modules.len()
    &&& forall|j: int| 0 <= j < modules.len() ==> ((#[trigger] modules[j]).class == class <==> j == index)
}

/// Whether exactly one of some modules is of a class.
pub open spec fn one_of_class(modules: Seq<ModuleModel>, class: ModuleClass) -> bool {
    exists|index: int| #[trigger] only_of_class(modules, class, index)
}

proof fn lemma_none_of_class(modules: Seq<ModuleModel>, class: ModuleClass)
    ensures
        class_count(modules, class) == 0 <==> forall|i: int|
            0 <= i < modules.len() ==> (#[trigger] modules[i]).class != class,
    decreases modules.len(),
{
    if modules.len() > 0 {
        let rest = modules.drop_last();
        lemma_none_of_class(rest, class);
        if class_count(modules, class) == 0 {
            assert forall|i: int| 0 <= i < modules.len() implies (#[trigger] modules[i]).class != class by {
                if i < rest.len() {
                    assert(rest[i].class != class);
                }
            }
        }
        if forall|i: int| 0 <= i < modules.len() ==> (#[trigger] modules[i]).class != class {
            assert forall|i: int| 0 <= i < rest.len() implies (#[trigger] rest[i]).class != class by {
                assert(modules[i].class != class);
            }
            assert(modules[modules.len() - 1].class != class);
        }
    }
}

proof fn lemma_count_of_only(modules: Seq<ModuleModel>, class: ModuleClass, index: int)
    requires
        only_of_class(modules, class, index),
    ensures
        class_count(modules, class) == 1,
    decreases modules.len(),
{
    let rest = modules.drop_last();
    let last = modules.len() - 1;
    assert(modules[last].class == class <==> last == index);
    if index == last {
        assert forall|j: int| 0 <= j < rest.len() implies (#[trigger] rest[j]).class != class by {
            assert(modules[j].class != class);
        }
        lemma_none_of_class(rest, class);
    } else {
        assert forall|j: int| 0 <= j < rest.len() implies ((#[trigger] rest[j]).class == class <==> j == index) by {
            assert(modules[j].class == class <==> j == index);
        }
        lemma_count_of_only(rest, class, index);
    }
}

proof fn lemma_only_of_count(modules: Seq<ModuleModel>, class: ModuleClass) -> (index: int)
    requires
        class_count(modules, class) == 1,
    ensures
        only_of_class(modules, class, index),
    decreases modules.len(),
{
    let rest = modules.drop_last();
    let last = modules.len() - 1;
    if modules[last].class == class {
        lemma_none_of_class(rest, class);
        assert forall|j: int| 0 <= j < modules.len() implies ((#[trigger] modules[j]).class == class <==> j
            == last) by {
            if j < last {
                assert(rest[j].class != class);
            }
        }
        last
    } else {
        let index = lemma_only_of_count(rest, class);
        assert forall|j: int| 0 <= j < modules.len() implies ((#[trigger] modules[j]).class == class <==> j
            == index) by {
            if j < last {
                assert(rest[j].class == class <==> j == index);
            }
        }
        index
    }
}

proof fn lemma_one_of_class(modules: Seq<ModuleModel>, class: ModuleClass)
    ensures
        class_count(modules, class) == 1 <==> one_of_class(modules, class),
{
    if class_count(modules, class) == 1 {
        let index = lemma_only_of_count(modules, class);
    }
    if one_of_class(modules, class) {
        let index = choose|index: int| #[trigger] only_of_class(modules, class, index);
        lemma_count_of_only(modules, class, index);
    }
}

/// Whether modules may stand in a profile.
pub open spec fn modules_allowed(modules: Seq<ModuleModel>) -> bool {
    &&& 1 <= modules.len() <= 16
    &&& forall|i: int|
        0 <= i < modules.len() ==> is_name((#[trigger] modules[i]).instance) && is_package(modules[i].package)
            && !privileged(ValueModel::Table(modules[i].options))
    &&& forall|i: int, j: int|
        0 <= i < modules.len() && 0 <= j < modules.len() && (#[trigger] modules[i]).instance == (
        #[trigger] modules[j]).instance ==> i == j
    &&& exists|i: int| 0 <= i < modules.len() && (#[trigger] modules[i]).class == ModuleClass::Adapter
    &&& one_of_class(modules, ModuleClass::Protection)
    &&& one_of_class(modules, ModuleClass::Carrier)
    &&& one_of_class(modules, ModuleClass::Policy)
}

/// Whether a text is there, and is no longer than so many bytes.
pub open spec fn is_short(text: Seq<char>, bytes: int) -> bool {
    text.len() > 0 && encode_utf8(text).len() <= bytes
}

/// A profile is valid where its version is the first, its server has a name, its
/// texts are there and not too long, and its modules may stand in a profile: at most
/// sixteen, each with a name of its own, a package and options that are not
/// privileged, with one protection, one carrier, one policy and an adapter. The same
/// holds of a profile without its credential.
pub proof fn law_valid_profiles_keep_to_the_rules(profile: ProfileModel, provision: ProvisionModel)
    ensures
        profile.valid() <==> profile.wire_version == 1 && is_name(profile.server_id) && is_short(
            profile.endpoint,
            512,
        ) && is_short(profile.server_pin, 512) && is_short(profile.credential, 1_024) && modules_allowed(
            profile.modules,
        ),
        provision.valid() <==> provision.wire_version == 1 && is_name(provision.server_id) && is_short(
            provision.endpoint,
            512,
        ) && is_short(provision.server_pin, 512) && modules_allowed(provision.modules),
{
    lemma_modules_allowed(profile.modules);
    lemma_modules_allowed(provision.modules);
}

proof fn lemma_modules_allowed(modules: Seq<ModuleModel>)
    ensures
        valid_modules(modules) <==> modules_allowed(modules),
{
    lemma_one_of_class(modules, ModuleClass::Protection);
    lemma_one_of_class(modules, ModuleClass::Carrier);
    lemma_one_of_class(modules, ModuleClass::Policy);
    lemma_none_of_class(modules, ModuleClass::Adapter);
    if modules_allowed(modules) {
        assert forall|i: int| 0 <= i < modules.len() implies valid_module(#[trigger] modules[i]) by {}
        assert forall|i: int, j: int| 0 <= i < j < modules.len() implies (#[trigger] modules[i]).instance != (
        #[trigger] modules[j]).instance by {}
    }
    if valid_modules(modules) {
        assert forall|i: int| 0 <= i < modules.len() implies is_name((#[trigger] modules[i]).instance) && is_package(
            modules[i].package,
        ) && !privileged(ValueModel::Table(modules[i].options)) by {
            assert(valid_module(modules[i]));
        }
        assert forall|i: int, j: int|
            0 <= i < modules.len() && 0 <= j < modules.len() && (#[trigger] modules[i]).instance == (
            #[trigger] modules[j]).instance implies i == j by {}
    }
}

}
