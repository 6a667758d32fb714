//! Writing files so that no reader ever sees half of one: under a temporary name in
//! the same directory, moved to its place once it is whole.
use vstd::prelude::*;

use crate::deploy::PRIVATE_DIRECTORY;
use crate::error::{ErrorModel, ProfileError};
use crate::paths::{child, child_path, file_place, place_of, temporary_name, temporary_name_of};

verus! {

/// A step of writing a file.
#[derive(Debug, PartialEq, Eq)]
pub enum FileStep {
    /// A file is opened for reading.
    OpenSource(String),
    /// A file that is not there yet is opened for writing.
    CreateNew(String),
    /// The permissions of a file are set.
    SetMode(String, u32),
    /// The contents are written to the file that was opened for writing.
    WriteContents,
    /// The contents of the file that was opened for reading are copied to it.
    CopyContents,
    /// The file that was opened for writing is brought to the disk.
    SyncFile,
    /// A file is moved to a place, over what is there.
    Rename(String, String),
    /// A directory is brought to the disk.
    SyncDirectory(String),
    /// A file is removed, if it is there.
    Remove(String),
}

/// The model of [`FileStep`].
pub enum StepModel {
    OpenSource(Seq<char>),
    CreateNew(Seq<char>),
    SetMode(Seq<char>, u32),
    WriteContents,
    CopyContents,
    SyncFile,
    Rename(Seq<char>, Seq<char>),
    SyncDirectory(Seq<char>),
    Remove(Seq<char>),
}

impl FileStep {
    pub open spec fn view(&self) -> StepModel {
        match self {
            FileStep::OpenSource(path) => StepModel::OpenSource(path@),
            FileStep::CreateNew(path) => StepModel::CreateNew(path@),
            FileStep::SetMode(path, mode) => StepModel::SetMode(path@, *mode),
            FileStep::WriteContents => StepModel::WriteContents,
            FileStep::CopyContents => StepModel::CopyContents,
            FileStep::SyncFile => StepModel::SyncFile,
            FileStep::Rename(from, to) => StepModel::Rename(from@, to@),
            FileStep::SyncDirectory(path) => StepModel::SyncDirectory(path@),
            FileStep::Remove(path) => StepModel::Remove(path@),
        }
    }
}

/// The models of steps.
pub open spec fn step_models(steps: Seq<FileStep>) -> Seq<StepModel> {
    steps.map_values(|step: FileStep| step@)
}

/// How a file is written: where one of the steps fails, those for failures are taken in
/// place of the rest.
#[derive(Debug, PartialEq, Eq)]
pub struct FilePlan {
    pub steps: Vec<FileStep>,
    pub on_failure: Vec<FileStep>,
    pub temporary: String,
}

/// The model of [`FilePlan`].
pub struct FilePlanModel {
    pub steps: Seq<StepModel>,
    pub on_failure: Seq<StepModel>,
    pub temporary: Seq<char>,
}

impl FilePlan {
    pub open spec fn view(&self) -> FilePlanModel {
        FilePlanModel {
            steps: step_models(self.steps@),
            on_failure: step_models(self.on_failure@),
            temporary: self.temporary@,
        }
    }
}

/// How a directory is made and a file is written there, or why no file is written once
/// the directory is there.
#[derive(Debug, PartialEq, Eq)]
pub struct AtomicPlan {
    pub directory: String,
    pub directory_mode: u32,
    pub file: Result<FilePlan, ProfileError>,
}

/// The model of [`AtomicPlan`].
pub struct AtomicModel {
    pub directory: Seq<char>,
    pub directory_mode: u32,
    pub file: Result<FilePlanModel, ErrorModel>,
}

impl AtomicPlan {
    pub open spec fn view(&self) -> AtomicModel {
        AtomicModel {
            directory: self.directory@,
            directory_mode: self.directory_mode,
            file: match self.file {
                Ok(file) => Ok(file@),
                Err(error) => Err(error@),
            },
        }
    }
}

/// The steps of writing contents: the temporary file is private from the start.
pub open spec fn write_steps(
    path: Seq<char>,
    mode: u32,
    directory: Seq<char>,
    temporary: Seq<char>,
) -> Seq<StepModel> {
    seq![
        StepModel::CreateNew(temporary),
        StepModel::SetMode(temporary, mode),
        StepModel::WriteContents,
        StepModel::SyncFile,
        StepModel::Rename(temporary, path),
        StepModel::SetMode(path, mode),
        StepModel::SyncDirectory(directory),
    ]
}

/// The steps of copying a file, which is opened first.
pub open spec fn copy_steps(
    source: Seq<char>,
    path: Seq<char>,
    mode: u32,
    directory: Seq<char>,
    temporary: Seq<char>,
) -> Seq<StepModel> {
    seq![
        StepModel::OpenSource(source),
        StepModel::CreateNew(temporary),
        StepModel::CopyContents,
        StepModel::SyncFile,
        StepModel::Rename(temporary, path),
        StepModel::SetMode(path, mode),
        StepModel::SyncDirectory(directory),
    ]
}

/// How contents are written to a path.
pub open spec fn write_plan(path: Seq<char>, mode: u32, process: u32, sequence: u64) -> Option<AtomicModel> {
    match place_of(path) {
        Some((directory, name)) => Some(
            AtomicModel {
                directory,
                directory_mode: PRIVATE_DIRECTORY,
                file: match name {
                    Some(name) => {
                        let temporary = child(directory, temporary_name_of(name, process, sequence));
                        Ok(
                            FilePlanModel {
                                steps: write_steps(path, mode, directory, temporary),
                                on_failure: seq![StepModel::Remove(temporary)],
                                temporary,
                            },
                        )
                    },
                    None => Err(ErrorModel::Path),
                },
            },
        ),
        None => None,
    }
}

/// How a file is copied to a path.
pub open spec fn copy_plan(
    source: Seq<char>,
    path: Seq<char>,
    mode: u32,
    process: u32,
    sequence: u64,
) -> Option<AtomicModel> {
    match place_of(path) {
        Some((directory, name)) => Some(
            AtomicModel {
                directory,
                directory_mode: PRIVATE_DIRECTORY,
                file: match name {
                    Some(name) => {
                        let temporary = child(directory, temporary_name_of(name, process, sequence));
                        Ok(
                            FilePlanModel {
                                steps: copy_steps(source, path, mode, directory, temporary),
                                on_failure: seq![StepModel::Remove(temporary)],
                                temporary,
                            },
                        )
                    },
                    None => Err(ErrorModel::Path),
                },
            },
        ),
        None => None,
    }
}

/// Plans how contents are written to a path, by the number of the process and a
/// number that it uses once. A path that lies in no directory is refused at once, and
/// one that names no file there once the directory is made.
pub fn atomic_write(path: &str, mode: u32, process: u32, sequence: u64) -> (result: Result<AtomicPlan, ProfileError>)
    ensures
        match result {
            Ok(plan) => write_plan(path@, mode, process, sequence) == Some(plan@),
            Err(error) => write_plan(path@, mode, process, sequence) is None && error is Path,
        },
{
    let (directory, name): (String, Option<String>) = match file_place(path) {
        Some(place) => place,
        None => {
            return Err(ProfileError::Path);
        },
    };
    let name: String = match name {
        Some(name) => name,
        None => {
            return Ok(
                AtomicPlan { directory, directory_mode: PRIVATE_DIRECTORY, file: Err(ProfileError::Path) },
            );
        },
    };
    let temporary = child_path(&directory, &temporary_name(&name, process, sequence));
    let steps: Vec<FileStep> = vec![
        FileStep::CreateNew(temporary.clone()),
        FileStep::SetMode(temporary.clone(), mode),
        FileStep::WriteContents,
        FileStep::SyncFile,
        FileStep::Rename(temporary.clone(), path.to_owned()),
        FileStep::SetMode(path.to_owned(), mode),
        FileStep::SyncDirectory(directory.clone()),
    ];
    let on_failure: Vec<FileStep> = vec![FileStep::Remove(temporary.clone())];
    proof {
        assert(step_models(on_failure@) =~= seq![StepModel::Remove(temporary@)]);
        assert(step_models(steps@) =~= write_steps(path@, mode, directory@, temporary@));
    }
    let file = FilePlan { steps, on_failure, temporary };
    Ok(AtomicPlan { directory, directory_mode: PRIVATE_DIRECTORY, file: Ok(file) })
}

/// Plans how a file is copied to a path, by the number of the process and a number
/// that it uses once. A path that lies in no directory is refused at once, and one that
/// names no file there once the directory is made.
pub fn atomic_copy(source: &str, path: &str, mode: u32, process: u32, sequence: u64) -> (result: Result<
    AtomicPlan,
    ProfileError,
>)
    ensures
        match result {
            Ok(plan) => copy_plan(source@, path@, mode, process, sequence) == Some(plan@),
            Err(error) => copy_plan(source@, path@, mode, process, sequence) is None && error is Path,
        },
{
    let (directory, name): (String, Option<String>) = match file_place(path) {
        Some(place) => place,
        None => {
            return Err(ProfileError::Path);
        },
    };
    let name: String = match name {
        Some(name) => name,
        None => {
            return Ok(
                AtomicPlan { directory, directory_mode: PRIVATE_DIRECTORY, file: Err(ProfileError::Path) },
            );
        },
    };
    let temporary = child_path(&directory, &temporary_name(&name, process, sequence));
    let steps: Vec<FileStep> = vec![
        FileStep::OpenSource(source.to_owned()),
        FileStep::CreateNew(temporary.clone()),
        FileStep::CopyContents,
        FileStep::SyncFile,
        FileStep::Rename(temporary.clone(), path.to_owned()),
        FileStep::SetMode(path.to_owned(), mode),
        FileStep::SyncDirectory(directory.clone()),
    ];
    let on_failure: Vec<FileStep> = vec![FileStep::Remove(temporary.clone())];
    proof {
        assert(step_models(on_failure@) =~= seq![StepModel::Remove(temporary@)]);
        assert(step_models(steps@) =~= copy_steps(source@, path@, mode, directory@, temporary@));
    }
    let file = FilePlan { steps, on_failure, temporary };
    Ok(AtomicPlan { directory, directory_mode: PRIVATE_DIRECTORY, file: Ok(file) })
}

/// How the file of a plan is written, if one is.
pub open spec fn file_of(plan: Option<AtomicModel>) -> Option<FilePlanModel> {
    match plan {
        Some(plan) => match plan.file {
            Ok(file) => Some(file),
            Err(_) => None,
        },
        None => None,
    }
}

/// Whether a step can change what a path names.
pub open spec fn touches(step: StepModel, path: Seq<char>) -> bool {
    match step {
        StepModel::CreateNew(file) => file == path,
        StepModel::SetMode(file, _) => file == path,
        StepModel::Rename(from, to) => from == path || to == path,
        StepModel::Remove(file) => file == path,
        _ => false,
    }
}

}
