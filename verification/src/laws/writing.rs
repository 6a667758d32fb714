//! How files are written.
use vstd::prelude::*;
use vstd::utf8::*;

use crate::atomic::{copy_plan, file_of, touches, write_plan, FilePlanModel, StepModel};
use crate::client::ClientModel;
use crate::deploy::planned_writes;
use crate::laws::digits::{lemma_decimals_differ, lemma_decimals_without_slash};
use crate::paths::{child, components, lemma_child_components, lemma_place_components, place_of, temporary_name_of};
use crate::text::{decimal_text, lemma_split_at_first_is};

verus! {

/// No two writes of a file share a temporary name, unless one process uses one
/// number twice, and none has the name of the file.
pub proof fn law_temporary_names_differ(
    name: Seq<char>,
    process: u32,
    sequence: u64,
    other_process: u32,
    other_sequence: u64,
)
    ensures
        temporary_name_of(name, process, sequence) != name,
        temporary_name_of(name, process, sequence) == temporary_name_of(name, other_process, other_sequence)
            ==> process == other_process && sequence == other_sequence,
{
    reveal_strlit(".");
    reveal_strlit("-");
    reveal_strlit(".tmp");
    let temporary = temporary_name_of(name, process, sequence);
    let other = temporary_name_of(name, other_process, other_sequence);
    assert(temporary.len() > name.len());
    if temporary == other {
        let front = "."@ + name + "."@;
        let middle = decimal_text(process as nat) + "-"@ + decimal_text(sequence as nat);
        let other_middle = decimal_text(other_process as nat) + "-"@ + decimal_text(other_sequence as nat);
        assert(temporary =~= front + middle + ".tmp"@);
        assert(other =~= front + other_middle + ".tmp"@);
        assert(middle =~= temporary.subrange(front.len() as int, temporary.len() - 4));
        assert(other_middle =~= other.subrange(front.len() as int, other.len() - 4));
        assert("-"@ =~= seq!['-']);
        lemma_decimals_differ(process as nat, other_process as nat);
        lemma_decimals_differ(other_process as nat, process as nat);
        lemma_decimals_differ(sequence as nat, other_sequence as nat);
        lemma_split_at_first_is(decimal_text(process as nat), '-', decimal_text(sequence as nat));
        lemma_split_at_first_is(decimal_text(other_process as nat), '-', decimal_text(other_sequence as nat));
    }
}

/// A temporary file is not the file that it becomes.
proof fn lemma_temporary_apart(path: Seq<char>, process: u32, sequence: u64)
    ensures
        place_of(path) matches Some((directory, Some(name))) ==> child(
            directory,
            temporary_name_of(name, process, sequence),
        ) != path,
{
    if let Some((directory, Some(name))) = place_of(path) {
        let temporary = temporary_name_of(name, process, sequence);
        lemma_place_components(path);
        law_temporary_names_differ(name, process, sequence, process, sequence);
        reveal_strlit(".");
        reveal_strlit("-");
        reveal_strlit(".tmp");
        lemma_decimals_without_slash(process as nat);
        lemma_decimals_without_slash(sequence as nat);
        assert(!temporary.contains('/')) by {
            if temporary.contains('/') {
                let i = choose|i: int| 0 <= i < temporary.len() && temporary[i] == '/';
                let numbers = decimal_text(process as nat) + "-"@ + decimal_text(sequence as nat);
                assert(temporary =~= "."@ + name + "."@ + numbers + ".tmp"@);
                let start = name.len() + 2;
                if 1 <= i < 1 + name.len() {
                    assert(name[i - 1] == '/');
                } else if start <= i < start + numbers.len() {
                    let k = i - start;
                    assert(numbers[k] == '/');
                    if k < decimal_text(process as nat).len() {
                        assert(decimal_text(process as nat)[k] == '/');
                    } else if k > decimal_text(process as nat).len() {
                        assert(decimal_text(sequence as nat)[k - decimal_text(process as nat).len() - 1] == '/');
                    }
                }
            }
        }
        assert(temporary.len() > 1);
        lemma_child_components(directory, temporary);
        assert(components(child(directory, temporary)).last() == temporary);
        assert(components(path).last() == name);
    }
}

/// Whether a plan makes its temporary file in one step, fills it in a later one,
/// brings it to the disk in a later one and moves it to a path in a later one still,
/// with nothing before that touching the path.
pub open spec fn moves_whole(
    plan: FilePlanModel,
    path: Seq<char>,
    filling: StepModel,
    made: int,
    filled: int,
    synced: int,
    moved: int,
) -> bool {
    &&& 0 <= made < filled < synced < moved < plan.steps.len()
    &&& plan.steps[made] == StepModel::CreateNew(plan.temporary)
    &&& plan.steps[filled] == filling
    &&& plan.steps[synced] == StepModel::SyncFile
    &&& plan.steps[moved] == StepModel::Rename(plan.temporary, path)
    &&& forall|i: int| 0 <= i < moved ==> !touches(#[trigger] plan.steps[i], path)
}

/// Whether a plan moves a file to its place only once it is whole.
pub open spec fn takes_place_whole(plan: FilePlanModel, path: Seq<char>, filling: StepModel) -> bool {
    plan.temporary != path && exists|made: int, filled: int, synced: int, moved: int|
        #[trigger] moves_whole(plan, path, filling, made, filled, synced, moved)
}

/// A file that is written, or copied, is touched by nothing before the step that
/// moves the temporary file to its place, and by then the temporary file holds the
/// contents and is on the disk. A file that is copied is opened before anything is
/// made.
pub proof fn law_files_take_their_place_whole(
    source: Seq<char>,
    path: Seq<char>,
    mode: u32,
    process: u32,
    sequence: u64,
)
    ensures
        file_of(write_plan(path, mode, process, sequence)) matches Some(plan) ==> takes_place_whole(
            plan,
            path,
            StepModel::WriteContents,
        ),
        file_of(copy_plan(source, path, mode, process, sequence)) matches Some(plan) ==> takes_place_whole(
            plan,
            path,
            StepModel::CopyContents,
        ) && plan.steps[0] == StepModel::OpenSource(source),
{
    lemma_temporary_apart(path, process, sequence);
    if let Some(plan) = file_of(write_plan(path, mode, process, sequence)) {
        assert(plan.steps[0] == StepModel::CreateNew(plan.temporary));
        assert(moves_whole(plan, path, StepModel::WriteContents, 0, 2, 3, 4));
    }
    if let Some(plan) = file_of(copy_plan(source, path, mode, process, sequence)) {
        assert(plan.steps[1] == StepModel::CreateNew(plan.temporary));
        assert(moves_whole(plan, path, StepModel::CopyContents, 1, 2, 3, 4));
    }
}

/// Whether all that a plan does where a step fails is to remove its temporary file.
pub open spec fn cleans_up(plan: FilePlanModel, path: Seq<char>) -> bool {
    &&& plan.on_failure == seq![StepModel::Remove(plan.temporary)]
    &&& forall|i: int| 0 <= i < plan.on_failure.len() ==> !touches(#[trigger] plan.on_failure[i], path)
}

/// Where a step of writing, or copying, a file fails, the temporary file is removed,
/// and the file itself is not touched.
pub proof fn law_failures_leave_no_temporary_file(
    source: Seq<char>,
    path: Seq<char>,
    mode: u32,
    process: u32,
    sequence: u64,
)
    ensures
        file_of(write_plan(path, mode, process, sequence)) matches Some(plan) ==> cleans_up(plan, path),
        file_of(copy_plan(source, path, mode, process, sequence)) matches Some(plan) ==> cleans_up(plan, path),
{
    lemma_temporary_apart(path, process, sequence);
}

/// Whether a plan sets the permissions of a file that it moves to its place, after
/// that, and then brings its directory to the disk, as the last step.
pub open spec fn settles(plan: FilePlanModel, path: Seq<char>, mode: u32, directory: Seq<char>) -> bool {
    &&& plan.steps.len() >= 3
    &&& plan.steps[plan.steps.len() - 3] == StepModel::Rename(plan.temporary, path)
    &&& plan.steps[plan.steps.len() - 2] == StepModel::SetMode(path, mode)
    &&& plan.steps[plan.steps.len() - 1] == StepModel::SyncDirectory(directory)
}

/// A file that is written, or copied, has the permissions that were asked for once it
/// is in its place, and its directory is for its user alone. The temporary file of one
/// that is written has the same permissions before anything is written to it.
pub proof fn law_files_have_their_permissions(
    source: Seq<char>,
    path: Seq<char>,
    mode: u32,
    process: u32,
    sequence: u64,
)
    ensures
        write_plan(path, mode, process, sequence) matches Some(plan) ==> plan.directory_mode == 0o700 && (
        plan.file matches Ok(file) ==> settles(file, path, mode, plan.directory) && exists|set: int, filled: int|
            0 <= set < filled < file.steps.len() && #[trigger] file.steps[set] == StepModel::SetMode(
                file.temporary,
                mode,
            ) && #[trigger] file.steps[filled] == StepModel::WriteContents),
        copy_plan(source, path, mode, process, sequence) matches Some(plan) ==> plan.directory_mode == 0o700 && (
        plan.file matches Ok(file) ==> settles(file, path, mode, plan.directory)),
{
    if let Some(plan) = write_plan(path, mode, process, sequence) {
        if let Ok(file) = plan.file {
            assert(file.steps[1] == StepModel::SetMode(file.temporary, mode));
            assert(file.steps[2] == StepModel::WriteContents);
        }
    }
}

/// A file is made in its own directory: where the path has a directory and a name, the
/// components of the path are those of the directory and the name, and the temporary
/// file lies beside it.
pub proof fn law_files_are_made_in_their_directory(path: Seq<char>, mode: u32, process: u32, sequence: u64)
    ensures
        write_plan(path, mode, process, sequence) matches Some(plan) ==> (plan.file matches Ok(file) ==> exists|
            name: Seq<char>,
        |
            file.temporary == child(plan.directory, #[trigger] temporary_name_of(name, process, sequence))
                && components(path) == components(plan.directory).push(name)),
        write_plan(path, mode, process, sequence) is None <==> place_of(path) is None,
        write_plan(path, mode, process, sequence) matches Some(plan) ==> (plan.file matches Err(error)
            ==> error is Path),
{
    lemma_place_components(path);
    if let Some((directory, Some(name))) = place_of(path) {
        assert(components(path) =~= components(directory).push(name));
    }
}

/// What is written of a client is each of its files, with its contents, and its main
/// file at last; each for its user alone.
pub proof fn law_clients_are_written_whole(client: ClientModel)
    ensures
        ({
            let writes = planned_writes(client);
            let count = client.files.len() as int;
            &&& writes.len() == count + 1
            &&& forall|i: int|
                0 <= i < count ==> (#[trigger] writes[i]).path == client.files[i].path && writes[i].contents
                    == client.files[i].contents
            &&& writes[count].path == client.main_path
            &&& writes[count].contents == encode_utf8(client.main_toml)
            &&& forall|i: int| 0 <= i <= count ==> (#[trigger] writes[i]).mode == 0o600
        }),
{
}

}
