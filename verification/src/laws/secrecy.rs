//! Where the credential of a profile goes.
use vstd::prelude::*;

use crate::client::{client_draft, client_options, files_before, generated_modules, module_file, FileModel};
use crate::profile::{ModuleClass, ModuleModel, ProfileModel};

verus! {

/// Whether a path is that of the file of a policy among modules.
pub open spec fn is_policy_file(path: Seq<char>, root: Seq<char>, modules: Seq<ModuleModel>) -> bool {
    exists|i: int|
        0 <= i < modules.len() && (#[trigger] modules[i]).class == ModuleClass::Policy && path == module_file(
            root,
            modules[i].instance,
        )
}

/// Whether two lists of files differ at most in what the files of policies among
/// modules hold, which are secret.
pub open spec fn same_but_policies(
    left: Seq<FileModel>,
    right: Seq<FileModel>,
    root: Seq<char>,
    modules: Seq<ModuleModel>,
) -> bool {
    &&& left.len() == right.len()
    &&& forall|i: int| 0 <= i < left.len() ==> same_but_policy(#[trigger] left[i], right[i], root, modules)
}

/// Whether two files differ at most in what they hold, and only where both are the
/// file of a policy, which is secret.
pub open spec fn same_but_policy(
    left: FileModel,
    right: FileModel,
    root: Seq<char>,
    modules: Seq<ModuleModel>,
) -> bool {
    &&& left.path == right.path
    &&& left.secret == right.secret
    &&& left.contents == right.contents || (left.secret && is_policy_file(left.path, root, modules))
}

/// The credential goes into no file but that of a policy.
proof fn lemma_modules_hide_credential(
    left: ProfileModel,
    right: ProfileModel,
    root: Seq<char>,
    modules: Seq<ModuleModel>,
)
    requires
        left.metadata() == right.metadata(),
        generated_modules(left, root, modules).error is None,
        generated_modules(right, root, modules).error is None,
    ensures
        same_but_policies(
            generated_modules(left, root, modules).files,
            generated_modules(right, root, modules).files,
            root,
            modules,
        ),
    decreases modules.len(),
{
    if modules.len() > 0 {
        let rest = modules.drop_last();
        let module = modules.last();
        lemma_modules_hide_credential(left, right, root, rest);
        let before_left = generated_modules(left, root, rest).files;
        let before_right = generated_modules(right, root, rest).files;
        let after_left = generated_modules(left, root, modules).files;
        let after_right = generated_modules(right, root, modules).files;
        let extra = files_before(left, root, module);
        assert(extra == files_before(right, root, module));
        assert(after_left.len() == before_left.len() + extra.len() + 1);
        assert forall|i: int| 0 <= i < after_left.len() implies same_but_policy(
            #[trigger] after_left[i],
            after_right[i],
            root,
            modules,
        ) by {
            if i < before_left.len() {
                assert(after_left[i] == before_left[i]);
                assert(after_right[i] == before_right[i]);
                assert(same_but_policy(before_left[i], before_right[i], root, rest));
                if is_policy_file(after_left[i].path, root, rest) {
                    let k = choose|k: int|
                        0 <= k < rest.len() && (#[trigger] rest[k]).class == ModuleClass::Policy && after_left[i].path
                            == module_file(root, rest[k].instance);
                    assert(modules[k] == rest[k]);
                }
            } else if i < before_left.len() + extra.len() {
                assert(after_left[i] == extra[i - before_left.len()]);
                assert(after_right[i] == extra[i - before_left.len()]);
            } else {
                assert(after_left[i] == after_left.last());
                assert(after_right[i] == after_right.last());
                if module.class != ModuleClass::Policy {
                    assert(client_options(left, root, module) == client_options(right, root, module));
                } else {
                    assert(modules[modules.len() - 1] == module);
                }
            }
        }
    }
}

/// The credential of a profile goes into no file of the client but that of its policy,
/// which is secret: profiles that differ only in it have the same main file, the same
/// paths, and the same files but for that one.
pub proof fn law_credential_stays_in_secret_files(left: ProfileModel, right: ProfileModel, root: Seq<char>)
    requires
        left.metadata() == right.metadata(),
        client_draft(left, root).outcome is Ok,
        client_draft(right, root).outcome is Ok,
    ensures
        client_draft(left, root).outcome->Ok_0.main_path == client_draft(right, root).outcome->Ok_0.main_path,
        client_draft(left, root).outcome->Ok_0.main_toml == client_draft(right, root).outcome->Ok_0.main_toml,
        same_but_policies(
            client_draft(left, root).outcome->Ok_0.files,
            client_draft(right, root).outcome->Ok_0.files,
            root,
            left.modules,
        ),
{
    lemma_modules_hide_credential(left, right, root, left.modules);
}

}
