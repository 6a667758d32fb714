//! What is written where: the files of a client.
use vstd::prelude::*;
use vstd::utf8::*;

use crate::client::{file_models, ClientModel, FileModel, GeneratedClient, GeneratedFile};
use crate::error::ProfileError;
use crate::paths::{absolute, is_absolute, is_within, within};
use crate::text::to_bytes;

verus! {

/// The permissions of the directories of a client: none but for its user.
pub const PRIVATE_DIRECTORY: u32 = 0o700;

/// The permissions of the files of a client: none but for its user.
pub const PRIVATE_FILE: u32 = 0o600;

/// The permissions of the libraries of a client: its user may read them.
pub const READ_ONLY_FILE: u32 = 0o400;

/// A file to be written.
pub struct PlannedWrite {
    pub path: String,
    pub contents: Vec<u8>,
    pub mode: u32,
}

/// The files of a client, in the order in which they are written: the main file
/// comes last.
pub struct PersistPlan {
    pub root: String,
    pub root_mode: u32,
    pub writes: Vec<PlannedWrite>,
    pub main_path: String,
}

/// The model of [`PlannedWrite`].
pub struct WriteModel {
    pub path: Seq<char>,
    pub contents: Seq<u8>,
    pub mode: u32,
}

impl PlannedWrite {
    pub open spec fn view(&self) -> WriteModel {
        WriteModel { path: self.path@, contents: self.contents@, mode: self.mode }
    }
}

/// The models of files to be written.
pub open spec fn write_models(writes: Seq<PlannedWrite>) -> Seq<WriteModel> {
    writes.map_values(|write: PlannedWrite| write@)
}

/// What is written for the files of a client.
pub open spec fn file_writes(files: Seq<FileModel>) -> Seq<WriteModel> {
    files.map_values(
        |file: FileModel| WriteModel { path: file.path, contents: file.contents, mode: PRIVATE_FILE },
    )
}

/// What is written of a client: its files, and its main file at last.
pub open spec fn planned_writes(client: ClientModel) -> Seq<WriteModel> {
    file_writes(client.files).push(
        WriteModel { path: client.main_path, contents: encode_utf8(client.main_toml), mode: PRIVATE_FILE },
    )
}

/// Whether each file of a client lies under its root.
pub open spec fn stays_within(main_path: Seq<char>, files: Seq<FileModel>, root: Seq<char>) -> bool {
    &&& absolute(root)
    &&& within(main_path, root)
    &&& forall|i: int| 0 <= i < files.len() ==> within((#[trigger] files[i]).path, root)
}

/// A copy of bytes.
fn copy_bytes(bytes: &Vec<u8>) -> (copy: Vec<u8>)
    ensures
        copy@ == bytes@,
{
    let mut copy: Vec<u8> = Vec::new();
    let mut i: usize = 0;
    while i < bytes.len()
        invariant
            i <= bytes.len(),
            copy@ == bytes@.take(i as int),
        decreases bytes.len() - i,
    {
        copy.push(bytes[i]);
        i = i + 1;
    }
    assert(bytes@.take(bytes@.len() as int) =~= bytes@);
    copy
}

/// Plans how the configuration of a client is written. Nothing is written outside
/// its root.
pub fn persist_client_config(generated: &GeneratedClient, root: &str) -> (result: Result<PersistPlan, ProfileError>)
    ensures
        result is Ok <==> stays_within(generated@.main_path, generated@.files, root@),
        result matches Ok(plan) ==> {
            &&& plan.root@ == root@
            &&& plan.root_mode == PRIVATE_DIRECTORY
            &&& plan.main_path@ == generated@.main_path
            &&& write_models(plan.writes@) == file_writes(generated@.files).push(
                WriteModel {
                    path: generated@.main_path,
                    contents: encode_utf8(generated@.main_toml),
                    mode: PRIVATE_FILE,
                },
            )
            &&& write_models(plan.writes@) == planned_writes(generated@)
        },
        result matches Err(error) ==> error is Path,
{
    if !is_absolute(root) || !is_within(&generated.main_path, root) {
        return Err(ProfileError::Path);
    }
    let ghost files = generated@.files;
    let mut writes: Vec<PlannedWrite> = Vec::new();
    let mut i: usize = 0;
    while i < generated.files.len()
        invariant
            i <= generated.files.len(),
            files == file_models(generated.files@),
            writes@.len() == i,
            forall|j: int| 0 <= j < i ==> (#[trigger] writes@[j]).mode == PRIVATE_FILE,
            forall|j: int| 0 <= j < i ==> within((#[trigger] files[j]).path, root@),
            forall|j: int|
                0 <= j < i ==> (#[trigger] writes@[j]).path@ == files[j].path && writes@[j].contents@
                    == files[j].contents,
        decreases generated.files.len() - i,
    {
        let file: &GeneratedFile = &generated.files[i];
        assert(files[i as int] == file@);
        if !is_within(&file.path, root) {
            return Err(ProfileError::Path);
        }
        writes.push(PlannedWrite { path: file.path.clone(), contents: copy_bytes(&file.contents), mode: PRIVATE_FILE });
        i = i + 1;
    }
    writes.push(
        PlannedWrite {
            path: generated.main_path.clone(),
            contents: to_bytes(&generated.main_toml),
            mode: PRIVATE_FILE,
        },
    );
    assert(write_models(writes@) =~= file_writes(files).push(
        WriteModel { path: generated@.main_path, contents: encode_utf8(generated@.main_toml), mode: PRIVATE_FILE },
    ));
    Ok(
        PersistPlan {
            root: root.to_owned(),
            root_mode: PRIVATE_DIRECTORY,
            writes,
            main_path: generated.main_path.clone(),
        },
    )
}

}
