//! Stable local device identity.

use vstd::prelude::*;

use crate::persistence::{
    PersistOutcome, PersistenceError, PersistenceErrorModel, PersistenceOperation, ReadOutcome,
};
use crate::text;
use crate::text::{chars_of, same_text, text_of};
use crate::uuids;
use crate::uuids::{hyphenated_text, parse_uuid, random_uuid};

verus! {

/// The bytes of a device identifier: a UUID of version 4.
pub open spec fn is_device_id(bytes: Seq<u8>) -> bool {
    bytes.len() == 16 && uuids::uuid_version(bytes) == 4
}

/// The identifier whose canonical text a text is.
pub open spec fn is_id_text(value: Seq<char>, bytes: Seq<u8>) -> bool {
    is_device_id(bytes) && value == uuids::hyphenated(bytes)
}

/// An opaque, randomly generated identifier for a local installation. Its view is its
/// sixteen bytes.
#[derive(Clone, Copy, Debug, Hash)]
pub struct DeviceId {
    bytes: [u8; 16],
}

impl View for DeviceId {
    type V = Seq<u8>;

    closed spec fn view(&self) -> Seq<u8> {
        self.bytes@
    }
}

impl PartialEq for DeviceId {
    fn eq(&self, other: &Self) -> (r: bool) {
        let mut i: usize = 0;
        while i < 16
            invariant
                i <= 16,
                forall|j: int| 0 <= j < i ==> self.bytes@[j] == other.bytes@[j],
            decreases 16 - i,
        {
            if self.bytes[i] != other.bytes[i] {
                assert(self@[i as int] != other@[i as int]);
                return false;
            }
            i = i + 1;
        }
        assert(self@ =~= other@);
        true
    }
}

impl vstd::std_specs::cmp::PartialEqSpecImpl for DeviceId {
    open spec fn obeys_eq_spec() -> bool {
        true
    }

    open spec fn eq_spec(&self, other: &Self) -> bool {
        self@ == other@
    }
}

impl Eq for DeviceId {

}

impl DeviceId {
    #[verifier::type_invariant]
    spec fn well_formed(self) -> bool {
        is_device_id(self.bytes@)
    }

    /// Generates a new identifier with randomness supplied by the operating system.
    #[must_use]
    pub fn random() -> (r: Self)
        ensures
            is_device_id(r@),
            0x80 <= r@[8] <= 0xbf,
    {
        DeviceId { bytes: random_uuid() }
    }

    /// Writes the identifier as a hyphenated UUID.
    pub fn to_text(&self) -> (s: String)
        ensures
            s@ == uuids::hyphenated(self@),
            is_device_id(self@),
    {
        proof {
            use_type_invariant(self);
        }
        hyphenated_text(self.bytes)
    }

    /// Reads the canonical text of an identifier, and nothing else: no other form of
    /// UUID text, and no UUID of another version.
    pub fn parse(value: &str) -> (r: Result<Self, ParseDeviceIdError>)
        ensures
            match r {
                Ok(id) => is_id_text(value@, id@),
                Err(_) => forall|bytes: Seq<u8>| !#[trigger] is_id_text(value@, bytes),
            },
    {
        proof {
            assert forall|bytes: Seq<u8>| #[trigger] is_id_text(
                value@,
                bytes,
            ) implies uuids::is_uuid_text(value@, bytes) by {
                uuids::lemma_canonical_text_denotes(bytes, bytes);
            }
        }
        let bytes = match parse_uuid(value) {
            Some(bytes) => bytes,
            None => return Err(ParseDeviceIdError),
        };
        proof {
            assert forall|other: Seq<u8>| #[trigger] is_id_text(value@, other) implies other
                == bytes@ by {
                uuids::lemma_canonical_text_denotes(other, bytes@);
            }
        }
        let canonical = hyphenated_text(bytes);
        if !same_text(value, canonical.as_str()) || bytes[6] / 16 != 4 {
            return Err(ParseDeviceIdError);
        }
        Ok(DeviceId { bytes })
    }
}

impl std::str::FromStr for DeviceId {
    type Err = ParseDeviceIdError;

    /// Reads the canonical text of an identifier, as [`DeviceId::parse`] does.
    fn from_str(value: &str) -> (r: Result<Self, ParseDeviceIdError>)
        ensures
            match r {
                Ok(id) => is_id_text(value@, id@),
                Err(_) => forall|bytes: Seq<u8>| !#[trigger] is_id_text(value@, bytes),
            },
    {
        DeviceId::parse(value)
    }
}

/// The text of an identifier reads back as that identifier and no other.
pub proof fn device_id_round_trip(bytes: Seq<u8>, other: Seq<u8>)
    requires
        is_device_id(bytes),
    ensures
        is_id_text(uuids::hyphenated(bytes), bytes),
        is_id_text(uuids::hyphenated(bytes), other) ==> other == bytes,
{
    if is_id_text(uuids::hyphenated(bytes), other) {
        uuids::lemma_hyphenated_injective(bytes, other);
    }
}

/// An error returned when text is not the canonical representation of a random device ID.
#[derive(Clone, Copy, Debug, PartialEq, Eq, Structural)]
pub struct ParseDeviceIdError;

impl ParseDeviceIdError {
    /// Describes the error.
    pub fn message(&self) -> (s: String)
        ensures
            s@ == "expected a canonical UUID version 4 device ID"@,
    {
        String::from_str("expected a canonical UUID version 4 device ID")
    }
}

/// Failures while locating, reading, validating, or creating a device ID.
///
/// Paths and the descriptions of filesystem failures are texts for display.
#[derive(Debug, PartialEq, Eq)]
pub enum DeviceIdError {
    /// The operating system did not provide an application configuration directory.
    ConfigDirectoryUnavailable,
    /// The configured identity path has no parent directory.
    InvalidPath { path: String },
    /// Persisted content is not a canonical UUID version 4 identifier.
    Invalid { path: String, source: ParseDeviceIdError },
    /// A filesystem operation failed.
    Io { operation: &'static str, path: String, source: String },
}

/// What caused a device-ID failure.
#[derive(Debug, PartialEq, Eq)]
pub enum DeviceIdErrorSource<'a> {
    /// The text was not an identifier.
    Parse(ParseDeviceIdError),
    /// The filesystem reported this.
    Io(&'a str),
}

impl DeviceIdError {
    /// The description of the failure.
    pub open spec fn text(self) -> Seq<char> {
        match self {
            DeviceIdError::ConfigDirectoryUnavailable =>
                "the local configuration directory is unavailable"@,
            DeviceIdError::InvalidPath { path } => "device identity path has no parent: "@ + path@,
            DeviceIdError::Invalid { path, source } => "invalid persisted device identity at "@
                + path@,
            DeviceIdError::Io { operation, path, source } => "failed to "@ + operation@ + " at "@
                + path@ + ": "@ + source@,
        }
    }

    /// The failure is the given one of the filesystem.
    pub open spec fn is_io(
        self,
        operation: Seq<char>,
        path: Seq<char>,
        source: Seq<char>,
    ) -> bool {
        self matches DeviceIdError::Io { operation: o, path: p, source: s } && o@ == operation && p@
            == path && s@ == source
    }

    /// The failure is the one that a preparation failure amounts to.
    pub open spec fn comes_from(self, error: PersistenceErrorModel) -> bool {
        match error {
            PersistenceErrorModel::InvalidPath(path) => self matches DeviceIdError::InvalidPath {
                path: p,
            } && p@ == path,
            PersistenceErrorModel::Io(operation, path, source) => self.is_io(
                identity_operation(operation),
                path,
                source,
            ),
        }
    }

    /// Describes the failure.
    pub fn message(&self) -> (s: String)
        ensures
            s@ == self.text(),
    {
        match self {
            DeviceIdError::ConfigDirectoryUnavailable => String::from_str(
                "the local configuration directory is unavailable",
            ),
            DeviceIdError::InvalidPath { path } => String::from_str(
                "device identity path has no parent: ",
            ).concat(path.as_str()),
            DeviceIdError::Invalid { path, .. } => String::from_str(
                "invalid persisted device identity at ",
            ).concat(path.as_str()),
            DeviceIdError::Io { operation, path, source } => String::from_str("failed to ").concat(
                operation,
            ).concat(" at ").concat(path.as_str()).concat(": ").concat(source.as_str()),
        }
    }

    /// The cause of the failure.
    pub fn source(&self) -> (r: Option<DeviceIdErrorSource>)
        ensures
            match (*self, r) {
                (DeviceIdError::Invalid { path, source }, Some(DeviceIdErrorSource::Parse(e))) => e
                    == source,
                (
                    DeviceIdError::Io { operation, path, source },
                    Some(DeviceIdErrorSource::Io(e)),
                ) => e@ == source@,
                (DeviceIdError::ConfigDirectoryUnavailable, None) => true,
                (DeviceIdError::InvalidPath { path }, None) => true,
                _ => false,
            },
    {
        match self {
            DeviceIdError::Invalid { source, .. } => Some(DeviceIdErrorSource::Parse(*source)),
            DeviceIdError::Io { source, .. } => Some(DeviceIdErrorSource::Io(source.as_str())),
            _ => None,
        }
    }
}

/// What a preparation step is called in device-identity failures.
pub open spec fn identity_operation(operation: PersistenceOperation) -> Seq<char> {
    match operation {
        PersistenceOperation::InspectDirectory => "inspect device identity directory"@,
        PersistenceOperation::CreateDirectory => "create device identity directory"@,
        PersistenceOperation::HardenDirectory => "harden device identity directory permissions"@,
        PersistenceOperation::HardenFile => "harden device identity file permissions"@,
        PersistenceOperation::CreateTemporary => "create temporary device identity"@,
        PersistenceOperation::WriteTemporary => "write temporary device identity"@,
        PersistenceOperation::SyncTemporary => "sync temporary device identity"@,
    }
}

/// A text without one line break at its end, if it has one there.
pub open spec fn without_line_break(contents: Seq<char>) -> Seq<char> {
    if contents.len() > 0 && contents.last() == '\n' {
        contents.drop_last()
    } else {
        contents
    }
}

/// Removes one line break from the end of a text, if it has one there.
pub(crate) fn strip_line_break(contents: &str) -> (r: String)
    ensures
        r@ == without_line_break(contents@),
{
    let mut chars = chars_of(contents);
    let count: usize = chars.len();
    if count > 0 && chars[count - 1] == '\n' {
        chars.pop();
        assert(chars@ =~= contents@.drop_last());
    }
    text_of(chars.as_slice())
}

/// A step of loading or creating the local device identifier.
#[derive(Debug)]
pub enum DeviceIdStep {
    /// Restrict access to the containing directory, if it exists.
    HardenParent,
    /// Restrict access to the identity file, if it exists.
    HardenFile,
    /// Read the identity file.
    Read,
    /// Write this text to a temporary file beside the identity file that only the owner
    /// can read, restricting access to a new directory, and to an existing one if so
    /// told.
    WriteTemporary { id: DeviceId, contents: String, harden_existing: bool },
    /// Move the temporary file to the identity path, unless something is there.
    Persist { id: DeviceId },
    /// Flush the identity file to its storage.
    SyncFile { id: DeviceId },
    /// Restrict access to the identity file that another process created meanwhile.
    HardenRaced,
    /// Read the identity file that another process created meanwhile.
    ReadRaced,
    /// The operation is over.
    Done(Result<DeviceId, DeviceIdError>),
}

/// The text that a new identity file holds.
pub open spec fn identity_file_text(bytes: Seq<u8>) -> Seq<char> {
    uuids::hyphenated(bytes).push('\n')
}

/// The step ends the operation with what the contents of an identity file say.
pub open spec fn ends_with_contents(step: DeviceIdStep, path: Seq<char>, contents: Seq<char>) -> bool {
    match step {
        DeviceIdStep::Done(Ok(id)) => is_id_text(without_line_break(contents), id@),
        DeviceIdStep::Done(Err(DeviceIdError::Invalid { path: p, source })) => p@ == path
            && forall|bytes: Seq<u8>| !#[trigger] is_id_text(without_line_break(contents), bytes),
        _ => false,
    }
}

/// The step ends the operation with a filesystem failure.
pub open spec fn ends_with_io(
    step: DeviceIdStep,
    operation: Seq<char>,
    path: Seq<char>,
    source: Seq<char>,
) -> bool {
    step matches DeviceIdStep::Done(Err(error)) && error.is_io(operation, path, source)
}

/// The step ends the operation with what a preparation failure amounts to.
pub open spec fn ends_unprepared(step: DeviceIdStep, error: PersistenceErrorModel) -> bool {
    step matches DeviceIdStep::Done(Err(e)) && e.comes_from(error)
}

/// The step writes a new identifier to a temporary file.
pub open spec fn writes_identity(step: DeviceIdStep, harden: bool) -> bool {
    step matches DeviceIdStep::WriteTemporary { id, contents, harden_existing } && contents@
        == identity_file_text(id@) && is_device_id(id@) && harden_existing == harden
}

/// Whether a step of loading or creating an identifier can follow another.
pub open spec fn follows(from: DeviceIdStep, to: DeviceIdStep, harden: bool) -> bool {
    ||| !(from is Done) && to matches DeviceIdStep::Done(Err(_))
    ||| match from {
        DeviceIdStep::HardenParent => to is HardenFile,
        DeviceIdStep::HardenFile => to is Read,
        DeviceIdStep::Read => writes_identity(to, harden) || to is Done,
        DeviceIdStep::WriteTemporary { id, contents, harden_existing } => to
            == (DeviceIdStep::Persist { id }),
        DeviceIdStep::Persist { id } => to == (DeviceIdStep::SyncFile { id }) || to is HardenRaced,
        DeviceIdStep::SyncFile { id } => to == DeviceIdStep::Done(Ok(id)),
        DeviceIdStep::HardenRaced => to is ReadRaced,
        DeviceIdStep::ReadRaced => to is Done,
        DeviceIdStep::Done(_) => false,
    }
}

/// A filesystem-backed store for the local device identifier. The owner performs the
/// steps.
#[derive(Debug)]
pub struct DeviceIdStore {
    path: String,
    harden_existing_parent: bool,
}

impl Clone for DeviceIdStore {
    fn clone(&self) -> (r: Self)
        ensures
            r == *self,
    {
        DeviceIdStore {
            path: self.path.clone(),
            harden_existing_parent: self.harden_existing_parent,
        }
    }
}

impl DeviceIdStore {
    /// The path of the identity file.
    pub closed spec fn path(self) -> Seq<char> {
        self.path@
    }

    /// Whether the containing directory belongs to the application.
    pub closed spec fn hardens_existing_parent(self) -> bool {
        self.harden_existing_parent
    }

    /// The first step of loading or creating the identifier.
    pub open spec fn is_first_step(self, step: DeviceIdStep) -> bool {
        if self.hardens_existing_parent() {
            step is HardenParent
        } else {
            step is HardenFile
        }
    }

    /// Creates a store at an explicit path.
    #[must_use]
    pub fn new(path: String) -> (r: Self)
        ensures
            r.path() == path@,
            !r.hardens_existing_parent(),
    {
        DeviceIdStore { path, harden_existing_parent: false }
    }

    /// Creates a store in the application configuration directory.
    #[must_use]
    pub fn in_app_config(path: String) -> (r: Self)
        ensures
            r.path() == path@,
            r.hardens_existing_parent(),
    {
        DeviceIdStore { path, harden_existing_parent: true }
    }

    /// Creates a store at a path in the application configuration directory, where the
    /// platform provides one.
    pub fn for_current_user(located: Option<String>) -> (r: Result<Self, DeviceIdError>)
        ensures
            match located {
                Some(path) => r is Ok && r->Ok_0.path() == path@
                    && r->Ok_0.hardens_existing_parent(),
                None => r == Err::<Self, DeviceIdError>(DeviceIdError::ConfigDirectoryUnavailable),
            },
    {
        match located {
            Some(path) => Ok(DeviceIdStore::in_app_config(path)),
            None => Err(DeviceIdError::ConfigDirectoryUnavailable),
        }
    }

    /// Begins to load the existing ID, or to create and persist one when no ID exists.
    ///
    /// Existing unreadable or invalid data is always returned as an error and is
    /// never replaced with a new identity.
    pub fn load_or_create(&self) -> (r: DeviceIdStep)
        ensures
            self.is_first_step(r),
    {
        if self.harden_existing_parent {
            DeviceIdStep::HardenParent
        } else {
            DeviceIdStep::HardenFile
        }
    }

    /// Goes on after restricting access to the containing directory.
    pub fn after_harden_parent(&self, outcome: Result<(), PersistenceError>) -> (r: DeviceIdStep)
        ensures
            match outcome {
                Ok(_) => r is HardenFile,
                Err(error) => ends_unprepared(r, error@),
            },
            follows(DeviceIdStep::HardenParent, r, self.hardens_existing_parent()),
    {
        match outcome {
            Ok(_) => DeviceIdStep::HardenFile,
            Err(error) => DeviceIdStep::Done(Err(Self::persistence_error(error))),
        }
    }

    /// Goes on after restricting access to the identity file.
    pub fn after_harden_file(&self, outcome: Result<(), PersistenceError>) -> (r: DeviceIdStep)
        ensures
            match outcome {
                Ok(_) => r is Read,
                Err(error) => ends_unprepared(r, error@),
            },
            follows(DeviceIdStep::HardenFile, r, self.hardens_existing_parent()),
    {
        match outcome {
            Ok(_) => DeviceIdStep::Read,
            Err(error) => DeviceIdStep::Done(Err(Self::persistence_error(error))),
        }
    }

    /// Goes on after reading the identity file.
    pub fn after_read(&self, outcome: ReadOutcome) -> (r: DeviceIdStep)
        ensures
            match outcome {
                ReadOutcome::Text(contents) => ends_with_contents(r, self.path(), contents@),
                ReadOutcome::Absent => writes_identity(r, self.hardens_existing_parent()),
                ReadOutcome::Failed(source) => ends_with_io(
                    r,
                    "read device identity"@,
                    self.path(),
                    source@,
                ),
            },
            follows(DeviceIdStep::Read, r, self.hardens_existing_parent()),
    {
        match outcome {
            ReadOutcome::Text(contents) => self.parse_persisted(contents.as_str()),
            ReadOutcome::Absent => self.create(),
            ReadOutcome::Failed(source) => self.io_error("read device identity", source),
        }
    }

    /// Makes an identifier and writes it to a temporary file.
    fn create(&self) -> (r: DeviceIdStep)
        ensures
            writes_identity(r, self.hardens_existing_parent()),
    {
        let id = DeviceId::random();
        let mut contents = id.to_text();
        contents.push('\n');
        DeviceIdStep::WriteTemporary {
            id,
            contents,
            harden_existing: self.harden_existing_parent,
        }
    }

    /// Goes on after writing the temporary file.
    pub fn after_write_temporary(
        &self,
        id: DeviceId,
        contents: String,
        harden_existing: bool,
        outcome: Result<(), PersistenceError>,
    ) -> (r: DeviceIdStep)
        ensures
            match outcome {
                Ok(_) => r == (DeviceIdStep::Persist { id }),
                Err(error) => ends_unprepared(r, error@),
            },
            follows(
                DeviceIdStep::WriteTemporary { id, contents, harden_existing },
                r,
                self.hardens_existing_parent(),
            ),
    {
        match outcome {
            Ok(_) => DeviceIdStep::Persist { id },
            Err(error) => DeviceIdStep::Done(Err(Self::persistence_error(error))),
        }
    }

    /// Goes on after moving the temporary file into place. A file that another process
    /// put there first wins.
    pub fn after_persist(&self, id: DeviceId, outcome: PersistOutcome) -> (r: DeviceIdStep)
        ensures
            match outcome {
                PersistOutcome::Done => r == (DeviceIdStep::SyncFile { id }),
                PersistOutcome::AlreadyExists => r is HardenRaced,
                PersistOutcome::Failed(source) => ends_with_io(
                    r,
                    "persist device identity"@,
                    self.path(),
                    source@,
                ),
            },
            follows(DeviceIdStep::Persist { id }, r, self.hardens_existing_parent()),
    {
        match outcome {
            PersistOutcome::Done => DeviceIdStep::SyncFile { id },
            PersistOutcome::AlreadyExists => DeviceIdStep::HardenRaced,
            PersistOutcome::Failed(source) => self.io_error("persist device identity", source),
        }
    }

    /// Ends after flushing the identity file.
    pub fn after_sync_file(&self, id: DeviceId, outcome: Result<(), String>) -> (r: DeviceIdStep)
        ensures
            match outcome {
                Ok(_) => r == DeviceIdStep::Done(Ok(id)),
                Err(source) => ends_with_io(r, "sync device identity"@, self.path(), source@),
            },
            follows(DeviceIdStep::SyncFile { id }, r, self.hardens_existing_parent()),
    {
        match outcome {
            Ok(_) => DeviceIdStep::Done(Ok(id)),
            Err(source) => self.io_error("sync device identity", source),
        }
    }

    /// Goes on after restricting access to the file that another process created.
    pub fn after_harden_raced(&self, outcome: Result<(), PersistenceError>) -> (r: DeviceIdStep)
        ensures
            match outcome {
                Ok(_) => r is ReadRaced,
                Err(error) => ends_unprepared(r, error@),
            },
            follows(DeviceIdStep::HardenRaced, r, self.hardens_existing_parent()),
    {
        match outcome {
            Ok(_) => DeviceIdStep::ReadRaced,
            Err(error) => DeviceIdStep::Done(Err(Self::persistence_error(error))),
        }
    }

    /// Ends after reading the file that another process created.
    pub fn after_read_raced(&self, outcome: Result<String, String>) -> (r: DeviceIdStep)
        ensures
            match outcome {
                Ok(contents) => ends_with_contents(r, self.path(), contents@),
                Err(source) => ends_with_io(
                    r,
                    "read concurrently created device identity"@,
                    self.path(),
                    source@,
                ),
            },
            follows(DeviceIdStep::ReadRaced, r, self.hardens_existing_parent()),
    {
        match outcome {
            Ok(contents) => self.parse_persisted(contents.as_str()),
            Err(source) => self.io_error("read concurrently created device identity", source),
        }
    }

    /// Ends with the identifier in the contents of the identity file.
    fn parse_persisted(&self, contents: &str) -> (r: DeviceIdStep)
        ensures
            ends_with_contents(r, self.path(), contents@),
    {
        match DeviceId::parse(strip_line_break(contents).as_str()) {
            Ok(id) => DeviceIdStep::Done(Ok(id)),
            Err(source) => DeviceIdStep::Done(
                Err(DeviceIdError::Invalid { path: self.path.clone(), source }),
            ),
        }
    }

    /// Ends with a failure at the identity path.
    fn io_error(&self, operation: &'static str, source: String) -> (r: DeviceIdStep)
        ensures
            ends_with_io(r, operation@, self.path(), source@),
    {
        DeviceIdStep::Done(Err(DeviceIdError::Io { operation, path: self.path.clone(), source }))
    }

    /// The device-identity failure that a preparation failure amounts to.
    fn persistence_error(error: PersistenceError) -> (r: DeviceIdError)
        ensures
            r.comes_from(error@),
    {
        match error {
            PersistenceError::InvalidPath { path } => DeviceIdError::InvalidPath { path },
            PersistenceError::Io { operation, path, source } => {
                let operation = match operation {
                    PersistenceOperation::InspectDirectory => "inspect device identity directory",
                    PersistenceOperation::CreateDirectory => "create device identity directory",
                    PersistenceOperation::HardenDirectory =>
                        "harden device identity directory permissions",
                    PersistenceOperation::HardenFile => "harden device identity file permissions",
                    PersistenceOperation::CreateTemporary => "create temporary device identity",
                    PersistenceOperation::WriteTemporary => "write temporary device identity",
                    PersistenceOperation::SyncTemporary => "sync temporary device identity",
                };
                DeviceIdError::Io { operation, path, source }
            },
        }
    }
}

/// Whether each step follows the one before.
pub open spec fn is_run(steps: Seq<DeviceIdStep>, harden: bool) -> bool {
    forall|i: int| 0 < i < steps.len() ==> follows(steps[i - 1], #[trigger] steps[i], harden)
}

/// A run that yields an identifier has restricted access to everything it relies on. It
/// begins with the directory where that belongs to the application, and with the file;
/// no file is read before access to it is restricted. A created identifier was first
/// written to a temporary file with restricted access, told whether to restrict the
/// directory, then moved into place and flushed, and it is the one that is reported.
pub proof fn identity_is_restricted_before_use(
    store: DeviceIdStore,
    steps: Seq<DeviceIdStep>,
    id: DeviceId,
)
    requires
        is_run(steps, store.hardens_existing_parent()),
        steps.len() > 0,
        store.is_first_step(steps[0]),
        steps.last() == DeviceIdStep::Done(Ok(id)),
    ensures
        ({
            let n: int = if store.hardens_existing_parent() { 1 } else { 0 };
            &&& steps.len() >= n + 3
            &&& steps[n] is HardenFile
            &&& steps[n + 1] is Read
            &&& steps[n + 2] is Done || {
                &&& writes_identity(steps[n + 2], store.hardens_existing_parent())
                &&& steps.len() == n + 6 || steps.len() == n + 7
                &&& steps.len() == n + 6 ==> steps[n + 2]->WriteTemporary_id == id && steps[n + 3]
                    == (DeviceIdStep::Persist { id }) && steps[n + 4] == (DeviceIdStep::SyncFile {
                    id,
                })
                &&& steps.len() == n + 7 ==> steps[n + 4] is HardenRaced && steps[n + 5] is ReadRaced
            }
        }),
{
    let harden = store.hardens_existing_parent();
    let n: int = if harden { 1 } else { 0 };
    assert(steps.len() > 1);
    assert(follows(steps[0], steps[1], harden));
    assert(follows(steps[n], steps[n + 1], harden));
    assert(follows(steps[n + 1], steps[n + 2], harden));
    if steps[n + 2] is Done {
        if steps.len() > n + 3 {
            assert(follows(steps[n + 2], steps[n + 3], harden));
        }
    } else {
        assert(follows(steps[n + 2], steps[n + 3], harden));
        assert(follows(steps[n + 3], steps[n + 4], harden));
        assert(follows(steps[n + 4], steps[n + 5], harden));
        if steps[n + 4] is HardenRaced {
            assert(follows(steps[n + 5], steps[n + 6], harden));
            if steps.len() > n + 7 {
                assert(follows(steps[n + 6], steps[n + 7], harden));
            }
        } else if steps.len() > n + 6 {
            assert(follows(steps[n + 5], steps[n + 6], harden));
        }
    }
}

/// A new identity file loads back as the identifier it was created with, and as no
/// other result.
pub proof fn created_identity_loads_back(bytes: Seq<u8>, step: DeviceIdStep, path: Seq<char>)
    requires
        is_device_id(bytes),
        ends_with_contents(step, path, identity_file_text(bytes)),
    ensures
        step matches DeviceIdStep::Done(Ok(id)) && id@ == bytes,
{
    let contents = identity_file_text(bytes);
    assert(without_line_break(contents) =~= uuids::hyphenated(bytes));
    device_id_round_trip(bytes, bytes);
    assert(is_id_text(without_line_break(contents), bytes));
    if let DeviceIdStep::Done(Ok(id)) = step {
        device_id_round_trip(bytes, id@);
    }
}

/// A device ID is a UUID of version 4: its text is the hyphenated text of sixteen bytes
/// whose seventh begins with that digit, and nothing else is its text.
pub proof fn device_ids_are_version_four(value: Seq<char>, bytes: Seq<u8>)
    ensures
        is_id_text(value, bytes) <==> bytes.len() == 16 && 0x40 <= bytes[6] <= 0x4f && value
            == uuids::hyphenated(bytes),
        is_id_text(value, bytes) ==> value.len() == 36 && value[14] == '4',
{
    if is_id_text(value, bytes) {
        uuids::hyphenated_text_has_five_groups(bytes);
        let flat = text::hex(bytes);
        text::hex_notation_is_positional(bytes, 6);
        reveal_strlit("0123456789abcdef");
        let h = uuids::hyphenated(bytes);
        let joined = h.subrange(0, 8) + h.subrange(9, 13) + h.subrange(14, 18) + h.subrange(19, 23)
            + h.subrange(24, 36);
        assert(joined[12] == h[14]);
        assert(flat[12] == '4');
    }
}

/// One line break at the end of a file is not part of what it holds, and nothing else is
/// taken away.
pub proof fn one_line_break_is_stripped(contents: Seq<char>)
    ensures
        without_line_break(contents.push('\n')) == contents,
        contents.len() == 0 || contents.last() != '\n' ==> without_line_break(contents) == contents,
{
    assert(contents.push('\n').drop_last() =~= contents);
}

/// A file that holds the text of a device ID, with or without a line break behind it,
/// ends the load with that ID; every other file is refused as invalid at its path, and
/// never replaced.
pub proof fn persisted_identity_is_loaded(
    step: DeviceIdStep,
    path: Seq<char>,
    held: Seq<char>,
    broken: bool,
    bytes: Seq<u8>,
)
    requires
        held.len() == 0 || held.last() != '\n',
        ends_with_contents(
            step,
            path,
            if broken {
                held.push('\n')
            } else {
                held
            },
        ),
    ensures
        is_id_text(held, bytes) <==> (step matches DeviceIdStep::Done(Ok(id)) && id@ == bytes
            && is_device_id(bytes)),
        (forall|other: Seq<u8>| !#[trigger] is_id_text(held, other)) ==> (
        step matches DeviceIdStep::Done(Err(DeviceIdError::Invalid { path: p, source })) && p@
            == path),
        step is Done,
{
    one_line_break_is_stripped(held);
    if let DeviceIdStep::Done(Ok(id)) = step {
        if is_id_text(held, bytes) {
            uuids::lemma_hyphenated_injective(bytes, id@);
        }
    }
}

/// The description of a failure names the path and, of the filesystem, the operation and
/// the cause.
pub proof fn failure_names_its_place(error: DeviceIdError)
    ensures
        match error {
            DeviceIdError::ConfigDirectoryUnavailable => true,
            DeviceIdError::InvalidPath { path } => text::mentions(error.text(), path@),
            DeviceIdError::Invalid { path, source } => text::mentions(error.text(), path@),
            DeviceIdError::Io { operation, path, source } => text::mentions(
                error.text(),
                operation@,
            ) && text::mentions(error.text(), path@) && text::mentions(error.text(), source@),
        },
{
    let none = Seq::<char>::empty();
    match error {
        DeviceIdError::ConfigDirectoryUnavailable => {},
        DeviceIdError::InvalidPath { path } => text::lemma_mentions(
            "device identity path has no parent: "@,
            path@,
            none,
        ),
        DeviceIdError::Invalid { path, source } => text::lemma_mentions(
            "invalid persisted device identity at "@,
            path@,
            none,
        ),
        DeviceIdError::Io { operation, path, source } => text::lemma_io_text(
            error.text(),
            operation@,
            path@,
            source@,
        ),
    }
}

/// A new identity is written as the hyphenated text of a UUID of version 4 with a line
/// break behind it, into a directory that is restricted if it is the application's own.
pub proof fn new_identity_is_written_as_text(step: DeviceIdStep, harden: bool)
    requires
        writes_identity(step, harden),
    ensures
        step matches DeviceIdStep::WriteTemporary { id, contents, harden_existing } && contents@
            == uuids::hyphenated(id@).push('\n') && id@.len() == 16 && 0x40 <= id@[6] <= 0x4f
            && harden_existing == harden,
{
}

/// Each operation is called by what it does and what it does it to, so that no two are
/// called the same.
pub proof fn operations_are_named_for_what_they_do()
    ensures
        identity_operation(PersistenceOperation::InspectDirectory).take(8) == "inspect "@,
        identity_operation(PersistenceOperation::InspectDirectory).skip(24) == "directory"@,
        identity_operation(PersistenceOperation::CreateDirectory).take(7) == "create "@,
        identity_operation(PersistenceOperation::CreateDirectory).skip(23) == "directory"@,
        identity_operation(PersistenceOperation::HardenDirectory).take(7) == "harden "@,
        identity_operation(PersistenceOperation::HardenDirectory).skip(23) == "directory permissions"@,
        identity_operation(PersistenceOperation::HardenFile).take(7) == "harden "@,
        identity_operation(PersistenceOperation::HardenFile).skip(23) == "file permissions"@,
        identity_operation(PersistenceOperation::CreateTemporary).take(17) == "create temporary "@,
        identity_operation(PersistenceOperation::WriteTemporary).take(16) == "write temporary "@,
        identity_operation(PersistenceOperation::SyncTemporary).take(15) == "sync temporary "@,
{
    reveal_strlit("create ");
    reveal_strlit("create device identity directory");
    reveal_strlit("create temporary ");
    reveal_strlit("create temporary device identity");
    reveal_strlit("directory");
    reveal_strlit("directory permissions");
    reveal_strlit("file permissions");
    reveal_strlit("harden ");
    reveal_strlit("harden device identity directory permissions");
    reveal_strlit("harden device identity file permissions");
    reveal_strlit("inspect ");
    reveal_strlit("inspect device identity directory");
    reveal_strlit("sync temporary ");
    reveal_strlit("sync temporary device identity");
    reveal_strlit("write temporary ");
    reveal_strlit("write temporary device identity");
    assert("inspect device identity directory"@.take(8) =~= "inspect "@);
    assert("inspect device identity directory"@.skip(24) =~= "directory"@);
    assert("create device identity directory"@.take(7) =~= "create "@);
    assert("create device identity directory"@.skip(23) =~= "directory"@);
    assert("harden device identity directory permissions"@.take(7) =~= "harden "@);
    assert("harden device identity directory permissions"@.skip(23) =~= "directory permissions"@);
    assert("harden device identity file permissions"@.take(7) =~= "harden "@);
    assert("harden device identity file permissions"@.skip(23) =~= "file permissions"@);
    assert("create temporary device identity"@.take(17) =~= "create temporary "@);
    assert("write temporary device identity"@.take(16) =~= "write temporary "@);
    assert("sync temporary device identity"@.take(15) =~= "sync temporary "@);
}

/// A failure keeps the path and the cause of the preparation failure behind it, and says
/// which operation failed.
pub proof fn failure_keeps_its_cause(error: DeviceIdError, cause: PersistenceErrorModel)
    requires
        error.comes_from(cause),
    ensures
        cause matches PersistenceErrorModel::InvalidPath(path) ==> (
        error matches DeviceIdError::InvalidPath { path: p } && p@ == path),
        cause matches PersistenceErrorModel::Io(operation, path, source) ==> (
        error matches DeviceIdError::Io { operation: o, path: p, source: s } && p@ == path && s@
            == source && o@ == identity_operation(operation)),
{
}

} // verus!
