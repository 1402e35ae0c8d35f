//! The steps by which private files are hardened and replaced.
//!
//! Nothing here touches a filesystem. Each operation is a sequence of steps: its
//! owner performs a step, hands the outcome to the function for that step, and gets
//! the next step or the result of the operation. Paths and the descriptions of
//! filesystem failures are texts for display.

use vstd::prelude::*;

verus! {

/// The access mode of a directory of private files, where the platform has such modes:
/// only its owner can use it.
pub const PRIVATE_DIRECTORY_MODE: u32 = 0o700;

/// The access mode of a private file, where the platform has such modes: only its owner
/// can read and write it.
pub const PRIVATE_FILE_MODE: u32 = 0o600;

/// A filesystem operation that preparing a private file may fail in.
#[derive(Clone, Copy, Debug, PartialEq, Eq, Structural)]
pub enum PersistenceOperation {
    /// Looking at the containing directory.
    InspectDirectory,
    /// Creating the containing directory.
    CreateDirectory,
    /// Restricting access to the containing directory.
    HardenDirectory,
    /// Restricting access to a file.
    HardenFile,
    /// Creating the temporary file.
    CreateTemporary,
    /// Writing the temporary file.
    WriteTemporary,
    /// Flushing the temporary file.
    SyncTemporary,
}

/// Why a private file could not be prepared.
#[derive(Debug, PartialEq, Eq)]
pub enum PersistenceError {
    /// The path has no containing directory.
    InvalidPath { path: String },
    /// A filesystem operation failed.
    Io { operation: PersistenceOperation, path: String, source: String },
}

/// The contents of a preparation failure.
pub enum PersistenceErrorModel {
    /// The path has no containing directory.
    InvalidPath(Seq<char>),
    /// A filesystem operation failed, at a path and with a description.
    Io(PersistenceOperation, Seq<char>, Seq<char>),
}

impl View for PersistenceError {
    type V = PersistenceErrorModel;

    open spec fn view(&self) -> PersistenceErrorModel {
        match *self {
            PersistenceError::InvalidPath { path } => PersistenceErrorModel::InvalidPath(path@),
            PersistenceError::Io { operation, path, source } => PersistenceErrorModel::Io(
                operation,
                path@,
                source@,
            ),
        }
    }
}

/// What a path leads to, without following a symbolic link.
#[derive(Clone, Copy, Debug, PartialEq, Eq, Structural)]
pub enum PathKind {
    /// A regular file.
    RegularFile,
    /// A directory.
    Directory,
    /// A symbolic link.
    Symlink,
    /// Anything else.
    Other,
}

/// The outcome of looking at a path, without following a symbolic link.
#[derive(Debug)]
pub enum Inspection {
    /// There is something.
    Found(PathKind),
    /// There is nothing.
    Absent,
    /// Looking failed.
    Failed(String),
}

/// The outcome of reading a file as text.
#[derive(Debug)]
pub enum ReadOutcome {
    /// The contents.
    Text(String),
    /// There is no file.
    Absent,
    /// Reading failed.
    Failed(String),
}

/// The outcome of moving a temporary file to its destination.
#[derive(Debug)]
pub enum PersistOutcome {
    /// The file is in place.
    Done,
    /// Something is in place already.
    AlreadyExists,
    /// Moving failed.
    Failed(String),
}

/// A step of restricting access to what already exists.
#[derive(Debug)]
pub enum HardenStep {
    /// Look at the path.
    Inspect,
    /// Restrict access to it with this mode.
    SetPermissions { mode: u32 },
    /// The operation is over.
    Done(Result<(), PersistenceError>),
}

/// The step ends the operation without a failure.
pub open spec fn harden_succeeds(step: HardenStep) -> bool {
    step matches HardenStep::Done(Ok(_))
}

/// The step ends the operation with the given failure.
pub open spec fn harden_fails(step: HardenStep, error: PersistenceErrorModel) -> bool {
    step matches HardenStep::Done(Err(e)) && e@ == error
}

/// A step of making the containing directory ready.
#[derive(Debug)]
pub enum ParentStep {
    /// Look at the directory.
    Inspect,
    /// Create the directory and its ancestors where missing, then restrict access to
    /// it if so told.
    Create { harden: bool },
    /// Restrict access to the directory with this mode.
    Harden { mode: u32 },
    /// The operation is over.
    Done(Result<(), PersistenceError>),
}

/// The step ends the operation without a failure.
pub open spec fn parent_succeeds(step: ParentStep) -> bool {
    step matches ParentStep::Done(Ok(_))
}

/// The step ends the operation with the given failure.
pub open spec fn parent_fails(step: ParentStep, error: PersistenceErrorModel) -> bool {
    step matches ParentStep::Done(Err(e)) && e@ == error
}

/// Whether a step of making the containing directory ready can follow another.
pub open spec fn parent_follows(from: ParentStep, to: ParentStep) -> bool {
    ||| !(from is Done) && to matches ParentStep::Done(Err(_))
    ||| match from {
        ParentStep::Inspect => to is Create,
        ParentStep::Create { harden } => if harden {
            to == (ParentStep::Harden { mode: PRIVATE_DIRECTORY_MODE })
        } else {
            parent_succeeds(to)
        },
        ParentStep::Harden { mode: _ } => parent_succeeds(to),
        ParentStep::Done(_) => false,
    }
}

/// A step of writing a temporary file that only the owner can read.
#[derive(Debug)]
pub enum TemporaryStep {
    /// Create an empty file in the containing directory.
    Create,
    /// Restrict access to it with this mode.
    Harden { mode: u32 },
    /// Write the contents.
    Write,
    /// Flush the file to its storage.
    Sync,
    /// The operation is over.
    Done(Result<(), PersistenceError>),
}

/// The step ends the operation without a failure.
pub open spec fn temporary_succeeds(step: TemporaryStep) -> bool {
    step matches TemporaryStep::Done(Ok(_))
}

/// The step ends the operation with the given failure.
pub open spec fn temporary_fails(step: TemporaryStep, error: PersistenceErrorModel) -> bool {
    step matches TemporaryStep::Done(Err(e)) && e@ == error
}

/// Whether a step of writing a temporary file can follow another.
pub open spec fn temporary_follows(from: TemporaryStep, to: TemporaryStep) -> bool {
    ||| !(from is Done) && to matches TemporaryStep::Done(Err(_))
    ||| match from {
        TemporaryStep::Create => to == (TemporaryStep::Harden { mode: PRIVATE_FILE_MODE }),
        TemporaryStep::Harden { mode: _ } => to is Write,
        TemporaryStep::Write => to is Sync,
        TemporaryStep::Sync => temporary_succeeds(to),
        TemporaryStep::Done(_) => false,
    }
}

/// A failure of an operation at a path.
fn io_error(operation: PersistenceOperation, path: &str, source: String) -> (r: PersistenceError)
    ensures
        r@ == PersistenceErrorModel::Io(operation, path@, source@),
{
    PersistenceError::Io { operation, path: path.to_owned(), source }
}

/// Begins to restrict access to a file that may exist.
pub fn harden_existing_file() -> (r: HardenStep)
    ensures
        r is Inspect,
{
    HardenStep::Inspect
}

/// Goes on after looking at the file: only a regular file is touched.
pub fn existing_file_inspected(path: &str, inspected: Inspection) -> (r: HardenStep)
    ensures
        match inspected {
            Inspection::Found(PathKind::RegularFile) => r == (
            HardenStep::SetPermissions { mode: PRIVATE_FILE_MODE }),
            Inspection::Failed(source) => harden_fails(
                r,
                PersistenceErrorModel::Io(PersistenceOperation::HardenFile, path@, source@),
            ),
            _ => harden_succeeds(r),
        },
{
    match inspected {
        Inspection::Found(PathKind::RegularFile) => HardenStep::SetPermissions {
            mode: PRIVATE_FILE_MODE,
        },
        Inspection::Failed(source) => HardenStep::Done(
            Err(io_error(PersistenceOperation::HardenFile, path, source)),
        ),
        _ => HardenStep::Done(Ok(())),
    }
}

/// Ends after restricting access to the file.
pub fn existing_file_hardened(path: &str, outcome: Result<(), String>) -> (r: HardenStep)
    ensures
        match outcome {
            Ok(_) => harden_succeeds(r),
            Err(source) => harden_fails(
                r,
                PersistenceErrorModel::Io(PersistenceOperation::HardenFile, path@, source@),
            ),
        },
{
    match outcome {
        Ok(_) => HardenStep::Done(Ok(())),
        Err(source) => HardenStep::Done(
            Err(io_error(PersistenceOperation::HardenFile, path, source)),
        ),
    }
}

/// Begins to restrict access to a containing directory that may exist.
pub fn harden_existing_parent(destination: &str, parent: Option<&str>) -> (r: HardenStep)
    ensures
        match parent {
            Some(_) => r is Inspect,
            None => harden_fails(r, PersistenceErrorModel::InvalidPath(destination@)),
        },
{
    match parent {
        Some(_) => HardenStep::Inspect,
        None => HardenStep::Done(
            Err(PersistenceError::InvalidPath { path: destination.to_owned() }),
        ),
    }
}

/// Goes on after looking at the directory: only a directory is touched.
pub fn existing_parent_inspected(parent: &str, inspected: Inspection) -> (r: HardenStep)
    ensures
        match inspected {
            Inspection::Found(PathKind::Directory) => r == (
            HardenStep::SetPermissions { mode: PRIVATE_DIRECTORY_MODE }),
            Inspection::Failed(source) => harden_fails(
                r,
                PersistenceErrorModel::Io(PersistenceOperation::InspectDirectory, parent@, source@),
            ),
            _ => harden_succeeds(r),
        },
{
    match inspected {
        Inspection::Found(PathKind::Directory) => HardenStep::SetPermissions {
            mode: PRIVATE_DIRECTORY_MODE,
        },
        Inspection::Failed(source) => HardenStep::Done(
            Err(io_error(PersistenceOperation::InspectDirectory, parent, source)),
        ),
        _ => HardenStep::Done(Ok(())),
    }
}

/// Ends after restricting access to the directory.
pub fn existing_parent_hardened(parent: &str, outcome: Result<(), String>) -> (r: HardenStep)
    ensures
        match outcome {
            Ok(_) => harden_succeeds(r),
            Err(source) => harden_fails(
                r,
                PersistenceErrorModel::Io(PersistenceOperation::HardenDirectory, parent@, source@),
            ),
        },
{
    match outcome {
        Ok(_) => HardenStep::Done(Ok(())),
        Err(source) => HardenStep::Done(
            Err(io_error(PersistenceOperation::HardenDirectory, parent, source)),
        ),
    }
}

/// Begins to make the containing directory of a destination ready.
pub fn prepare_parent(destination: &str, parent: Option<&str>) -> (r: ParentStep)
    ensures
        match parent {
            Some(_) => r is Inspect,
            None => parent_fails(r, PersistenceErrorModel::InvalidPath(destination@)),
        },
{
    match parent {
        Some(_) => ParentStep::Inspect,
        None => ParentStep::Done(
            Err(PersistenceError::InvalidPath { path: destination.to_owned() }),
        ),
    }
}

/// Whether access to the containing directory is restricted: always if it is new, and
/// if it is a directory that belongs to the application.
pub open spec fn hardens_parent(harden_existing: bool, inspected: Inspection) -> bool {
    match inspected {
        Inspection::Absent => true,
        Inspection::Found(kind) => harden_existing && kind is Directory,
        Inspection::Failed(_) => false,
    }
}

/// Goes on after looking at the containing directory.
pub fn parent_inspected(parent: &str, harden_existing: bool, inspected: Inspection) -> (r:
    ParentStep)
    ensures
        match inspected {
            Inspection::Failed(source) => parent_fails(
                r,
                PersistenceErrorModel::Io(PersistenceOperation::InspectDirectory, parent@, source@),
            ),
            _ => r == (ParentStep::Create { harden: hardens_parent(harden_existing, inspected) }),
        },
        parent_follows(ParentStep::Inspect, r),
{
    match inspected {
        Inspection::Absent => ParentStep::Create { harden: true },
        Inspection::Found(PathKind::Directory) => ParentStep::Create { harden: harden_existing },
        Inspection::Found(_) => ParentStep::Create { harden: false },
        Inspection::Failed(source) => ParentStep::Done(
            Err(io_error(PersistenceOperation::InspectDirectory, parent, source)),
        ),
    }
}

/// Goes on after creating the containing directory.
pub fn parent_created(parent: &str, harden: bool, outcome: Result<(), String>) -> (r: ParentStep)
    ensures
        match outcome {
            Ok(_) => if harden {
                r == (ParentStep::Harden { mode: PRIVATE_DIRECTORY_MODE })
            } else {
                parent_succeeds(r)
            },
            Err(source) => parent_fails(
                r,
                PersistenceErrorModel::Io(PersistenceOperation::CreateDirectory, parent@, source@),
            ),
        },
        parent_follows(ParentStep::Create { harden }, r),
{
    match outcome {
        Ok(_) => if harden {
            ParentStep::Harden { mode: PRIVATE_DIRECTORY_MODE }
        } else {
            ParentStep::Done(Ok(()))
        },
        Err(source) => ParentStep::Done(
            Err(io_error(PersistenceOperation::CreateDirectory, parent, source)),
        ),
    }
}

/// Ends after restricting access to the containing directory.
pub fn parent_hardened(parent: &str, outcome: Result<(), String>) -> (r: ParentStep)
    ensures
        match outcome {
            Ok(_) => parent_succeeds(r),
            Err(source) => parent_fails(
                r,
                PersistenceErrorModel::Io(PersistenceOperation::HardenDirectory, parent@, source@),
            ),
        },
        parent_follows(ParentStep::Harden { mode: PRIVATE_DIRECTORY_MODE }, r),
{
    match outcome {
        Ok(_) => ParentStep::Done(Ok(())),
        Err(source) => ParentStep::Done(
            Err(io_error(PersistenceOperation::HardenDirectory, parent, source)),
        ),
    }
}

/// Begins to write a temporary file once its directory is ready.
pub fn create_synced_temporary(prepared: Result<(), PersistenceError>) -> (r: TemporaryStep)
    ensures
        match prepared {
            Ok(_) => r is Create,
            Err(error) => temporary_fails(r, error@),
        },
{
    match prepared {
        Ok(_) => TemporaryStep::Create,
        Err(error) => TemporaryStep::Done(Err(error)),
    }
}

/// Goes on after creating the temporary file.
pub fn temporary_created(parent: &str, outcome: Result<(), String>) -> (r: TemporaryStep)
    ensures
        match outcome {
            Ok(_) => r == (TemporaryStep::Harden { mode: PRIVATE_FILE_MODE }),
            Err(source) => temporary_fails(
                r,
                PersistenceErrorModel::Io(PersistenceOperation::CreateTemporary, parent@, source@),
            ),
        },
        temporary_follows(TemporaryStep::Create, r),
{
    match outcome {
        Ok(_) => TemporaryStep::Harden { mode: PRIVATE_FILE_MODE },
        Err(source) => TemporaryStep::Done(
            Err(io_error(PersistenceOperation::CreateTemporary, parent, source)),
        ),
    }
}

/// Goes on after restricting access to the temporary file.
pub fn temporary_hardened(temporary: &str, outcome: Result<(), String>) -> (r: TemporaryStep)
    ensures
        match outcome {
            Ok(_) => r is Write,
            Err(source) => temporary_fails(
                r,
                PersistenceErrorModel::Io(PersistenceOperation::HardenFile, temporary@, source@),
            ),
        },
        temporary_follows(TemporaryStep::Harden { mode: PRIVATE_FILE_MODE }, r),
{
    match outcome {
        Ok(_) => TemporaryStep::Write,
        Err(source) => TemporaryStep::Done(
            Err(io_error(PersistenceOperation::HardenFile, temporary, source)),
        ),
    }
}

/// Goes on after writing the temporary file.
pub fn temporary_written(temporary: &str, outcome: Result<(), String>) -> (r: TemporaryStep)
    ensures
        match outcome {
            Ok(_) => r is Sync,
            Err(source) => temporary_fails(
                r,
                PersistenceErrorModel::Io(PersistenceOperation::WriteTemporary, temporary@, source@),
            ),
        },
        temporary_follows(TemporaryStep::Write, r),
{
    match outcome {
        Ok(_) => TemporaryStep::Sync,
        Err(source) => TemporaryStep::Done(
            Err(io_error(PersistenceOperation::WriteTemporary, temporary, source)),
        ),
    }
}

/// Ends after flushing the temporary file.
pub fn temporary_synced(temporary: &str, outcome: Result<(), String>) -> (r: TemporaryStep)
    ensures
        match outcome {
            Ok(_) => temporary_succeeds(r),
            Err(source) => temporary_fails(
                r,
                PersistenceErrorModel::Io(PersistenceOperation::SyncTemporary, temporary@, source@),
            ),
        },
        temporary_follows(TemporaryStep::Sync, r),
{
    match outcome {
        Ok(_) => TemporaryStep::Done(Ok(())),
        Err(source) => TemporaryStep::Done(
            Err(io_error(PersistenceOperation::SyncTemporary, temporary, source)),
        ),
    }
}

/// A directory that the caller chose and that exists is left as it is, and a new one
/// is always restricted.
pub proof fn only_new_or_owned_directories_are_hardened(inspected: Inspection)
    ensures
        inspected is Found ==> !hardens_parent(false, inspected),
        inspected is Absent ==> hardens_parent(false, inspected) && hardens_parent(true, inspected),
        hardens_parent(true, inspected) <==> inspected is Absent || inspected
            == Inspection::Found(PathKind::Directory),
        hardens_parent(false, inspected) <==> inspected is Absent,
{
}

/// A new directory, and an existing one of the application, is ready only after it was
/// created and access to it was restricted.
pub proof fn directory_is_restricted_before_use(
    steps: Seq<ParentStep>,
    harden_existing: bool,
    inspected: Inspection,
)
    requires
        forall|i: int| 0 < i < steps.len() ==> parent_follows(steps[i - 1], #[trigger] steps[i]),
        steps.len() > 1,
        steps[0] is Inspect,
        steps[1] == (ParentStep::Create { harden: hardens_parent(harden_existing, inspected) }),
        parent_succeeds(steps.last()),
        hardens_parent(harden_existing, inspected),
    ensures
        steps.len() == 4,
        steps[2] == (ParentStep::Harden { mode: PRIVATE_DIRECTORY_MODE }),
        steps[2] == (ParentStep::Harden { mode: 0o700 }),
{
    assert(parent_follows(steps[1], steps[2]));
    assert(parent_follows(steps[2], steps[3]));
    if steps.len() > 4 {
        assert(parent_follows(steps[3], steps[4]));
    }
}

/// Contents are written to a temporary file only after access to it was restricted, and
/// it is ready only after they were flushed.
pub proof fn temporary_is_restricted_before_writing(steps: Seq<TemporaryStep>)
    requires
        forall|i: int| 0 < i < steps.len() ==> temporary_follows(steps[i - 1], #[trigger] steps[i]),
        steps.len() > 0,
        steps[0] is Create,
        temporary_succeeds(steps.last()),
    ensures
        steps.len() == 5,
        steps[1] == (TemporaryStep::Harden { mode: PRIVATE_FILE_MODE }),
        steps[1] == (TemporaryStep::Harden { mode: 0o600 }),
        steps[2] is Write,
        steps[3] is Sync,
{
    assert(steps.len() > 1);
    assert(temporary_follows(steps[0], steps[1]));
    assert(temporary_follows(steps[1], steps[2]));
    assert(temporary_follows(steps[2], steps[3]));
    assert(temporary_follows(steps[3], steps[4]));
    if steps.len() > 5 {
        assert(temporary_follows(steps[4], steps[5]));
    }
}

} // verus!
