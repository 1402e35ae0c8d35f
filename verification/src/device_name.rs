//! Mutable local device display name.

use vstd::prelude::*;

use crate::identity;
use crate::identity::strip_line_break;
use crate::persistence::{
    PersistOutcome, PersistenceError, PersistenceErrorModel, PersistenceOperation, ReadOutcome,
};
use crate::text;
use crate::text::{chars_of, decimal_text, text_has_control, trim_text};

verus! {

/// The neutral display name used until the user chooses another one.
pub const DEFAULT_DEVICE_NAME: &'static str = "Local Device";

/// The maximum number of Unicode scalar values allowed in a display name.
pub const MAX_DEVICE_NAME_CHARS: usize = 64;

/// A display-name validation failure.
#[derive(Clone, Copy, Debug, PartialEq, Eq, Structural)]
pub enum DeviceNameValidationError {
    /// The normalized display name is empty.
    Empty,
    /// The normalized display name exceeds the supported length.
    TooLong { maximum: usize },
    /// The input contains a control character.
    ControlCharacter,
}

impl DeviceNameValidationError {
    /// The description of the failure.
    pub open spec fn text(self) -> Seq<char> {
        match self {
            DeviceNameValidationError::Empty => "device display name must not be empty"@,
            DeviceNameValidationError::TooLong { maximum } => "device display name must not exceed "@
                + text::decimal(maximum as nat) + " Unicode characters"@,
            DeviceNameValidationError::ControlCharacter =>
                "device display name must not contain control characters"@,
        }
    }

    /// Describes the failure.
    pub fn message(&self) -> (s: String)
        ensures
            s@ == self.text(),
    {
        match self {
            DeviceNameValidationError::Empty => String::from_str(
                "device display name must not be empty",
            ),
            DeviceNameValidationError::TooLong { maximum } => String::from_str(
                "device display name must not exceed ",
            ).concat(decimal_text(*maximum as u64).as_str()).concat(" Unicode characters"),
            DeviceNameValidationError::ControlCharacter => String::from_str(
                "device display name must not contain control characters",
            ),
        }
    }
}

/// A normalized display name: 1 to 64 characters, none of them a control code,
/// without whitespace at either end.
pub open spec fn is_device_name(s: Seq<char>) -> bool {
    &&& 0 < s.len() <= MAX_DEVICE_NAME_CHARS
    &&& !text::has_control(s)
    &&& text::trimmed(s) == s
}

/// The display name that a text normalizes to, or why it has none. Control codes
/// are rejected before surrounding whitespace is trimmed.
pub open spec fn device_name_of(value: Seq<char>) -> Result<Seq<char>, DeviceNameValidationError> {
    if text::has_control(value) {
        Err(DeviceNameValidationError::ControlCharacter)
    } else if text::trimmed(value).len() == 0 {
        Err(DeviceNameValidationError::Empty)
    } else if text::trimmed(value).len() > MAX_DEVICE_NAME_CHARS {
        Err(DeviceNameValidationError::TooLong { maximum: MAX_DEVICE_NAME_CHARS })
    } else {
        Ok(text::trimmed(value))
    }
}

/// A validated, user-facing label for the local device.
#[derive(Debug, PartialEq, Eq, Hash)]
pub struct DeviceName {
    value: String,
}

impl View for DeviceName {
    type V = Seq<char>;

    closed spec fn view(&self) -> Seq<char> {
        self.value@
    }
}

impl Clone for DeviceName {
    fn clone(&self) -> (r: Self)
        ensures
            r == *self,
    {
        proof {
            use_type_invariant(self);
        }
        DeviceName { value: self.value.clone() }
    }
}

impl DeviceName {
    #[verifier::type_invariant]
    spec fn well_formed(self) -> bool {
        is_device_name(self.value@)
    }

    /// Validates and normalizes a display name.
    ///
    /// Control characters are rejected before surrounding Unicode whitespace
    /// is trimmed. The normalized name must contain 1 to 64 Unicode scalar
    /// values. Interior spaces and Unicode text are allowed.
    pub fn new(value: &str) -> (r: Result<Self, DeviceNameValidationError>)
        ensures
            match device_name_of(value@) {
                Ok(name) => r is Ok && r->Ok_0@ == name && is_device_name(name),
                Err(error) => r == Err::<Self, DeviceNameValidationError>(error),
            },
    {
        if text_has_control(value) {
            return Err(DeviceNameValidationError::ControlCharacter);
        }
        let normalized = trim_text(value);
        let length = chars_of(normalized.as_str()).len();
        if length == 0 {
            return Err(DeviceNameValidationError::Empty);
        }
        if length > MAX_DEVICE_NAME_CHARS {
            return Err(DeviceNameValidationError::TooLong { maximum: MAX_DEVICE_NAME_CHARS });
        }
        proof {
            device_name_is_normal(value@);
        }
        Ok(DeviceName { value: normalized })
    }

    /// Returns the normalized display name.
    #[must_use]
    pub fn as_str(&self) -> (s: &str)
        ensures
            s@ == self@,
            is_device_name(self@),
    {
        proof {
            use_type_invariant(self);
        }
        self.value.as_str()
    }
}

impl Default for DeviceName {
    fn default() -> (r: Self)
        ensures
            r@ == DEFAULT_DEVICE_NAME@,
    {
        proof {
            default_name_is_valid();
        }
        DeviceName { value: DEFAULT_DEVICE_NAME.to_owned() }
    }
}

/// The neutral default is itself a normalized display name.
pub proof fn default_name_is_valid()
    ensures
        is_device_name(DEFAULT_DEVICE_NAME@),
        device_name_of(DEFAULT_DEVICE_NAME@) == Ok::<Seq<char>, DeviceNameValidationError>(
            DEFAULT_DEVICE_NAME@,
        ),
{
    reveal_strlit("Local Device");
}

/// Every accepted name is normalized, and normalizing it again keeps it.
pub proof fn device_name_is_normal(value: Seq<char>)
    requires
        device_name_of(value) is Ok,
    ensures
        is_device_name(device_name_of(value)->Ok_0),
        device_name_of(device_name_of(value)->Ok_0) == device_name_of(value),
{
    text::lemma_trimmed_control(value);
    text::lemma_trimmed_edges(value);
    text::lemma_trimmed_fixed(text::trimmed(value));
}

/// Failures while locating, validating, reading, or writing a display name.
///
/// Paths and the descriptions of filesystem failures are texts for display.
#[derive(Debug, PartialEq, Eq)]
pub enum DeviceNameError {
    /// The operating system did not provide an application configuration directory.
    ConfigDirectoryUnavailable,
    /// The configured name path has no parent directory.
    InvalidPath { path: String },
    /// A proposed display name is invalid.
    Validation(DeviceNameValidationError),
    /// Persisted content is not a valid display name.
    Invalid { path: String, source: DeviceNameValidationError },
    /// A filesystem operation failed.
    Io { operation: &'static str, path: String, source: String },
}

/// What caused a display-name failure.
#[derive(Debug, PartialEq, Eq)]
pub enum DeviceNameErrorSource<'a> {
    /// The text was not a display name.
    Validation(DeviceNameValidationError),
    /// The filesystem reported this.
    Io(&'a str),
}

impl DeviceNameError {
    /// The description of the failure.
    pub open spec fn text(self) -> Seq<char> {
        match self {
            DeviceNameError::ConfigDirectoryUnavailable =>
                "the local configuration directory is unavailable"@,
            DeviceNameError::InvalidPath { path } => "device display name path has no parent: "@
                + path@,
            DeviceNameError::Validation(source) => source.text(),
            DeviceNameError::Invalid { path, source } =>
                "invalid persisted device display name at "@ + path@,
            DeviceNameError::Io { operation, path, source } => "failed to "@ + operation@ + " at "@
                + path@ + ": "@ + source@,
        }
    }

    /// The failure is the given one of the filesystem.
    pub open spec fn is_io(
        self,
        operation: Seq<char>,
        path: Seq<char>,
        source: Seq<char>,
    ) -> bool {
        self matches DeviceNameError::Io { operation: o, path: p, source: s } && o@ == operation
            && p@ == path && s@ == source
    }

    /// The failure is the one that a preparation failure amounts to.
    pub open spec fn comes_from(self, error: PersistenceErrorModel) -> bool {
        match error {
            PersistenceErrorModel::InvalidPath(path) => self matches DeviceNameError::InvalidPath {
                path: p,
            } && p@ == path,
            PersistenceErrorModel::Io(operation, path, source) => self.is_io(
                name_operation(operation),
                path,
                source,
            ),
        }
    }

    /// Describes the failure.
    pub fn message(&self) -> (s: String)
        ensures
            s@ == self.text(),
    {
        match self {
            DeviceNameError::ConfigDirectoryUnavailable => String::from_str(
                "the local configuration directory is unavailable",
            ),
            DeviceNameError::InvalidPath { path } => String::from_str(
                "device display name path has no parent: ",
            ).concat(path.as_str()),
            DeviceNameError::Validation(source) => source.message(),
            DeviceNameError::Invalid { path, .. } => String::from_str(
                "invalid persisted device display name at ",
            ).concat(path.as_str()),
            DeviceNameError::Io { operation, path, source } => String::from_str("failed to ").concat(
                operation,
            ).concat(" at ").concat(path.as_str()).concat(": ").concat(source.as_str()),
        }
    }

    /// The cause of the failure.
    pub fn source(&self) -> (r: Option<DeviceNameErrorSource>)
        ensures
            match (*self, r) {
                (
                    DeviceNameError::Validation(source),
                    Some(DeviceNameErrorSource::Validation(e)),
                ) => e == source,
                (
                    DeviceNameError::Invalid { path, source },
                    Some(DeviceNameErrorSource::Validation(e)),
                ) => e == source,
                (
                    DeviceNameError::Io { operation, path, source },
                    Some(DeviceNameErrorSource::Io(e)),
                ) => e@ == source@,
                (DeviceNameError::ConfigDirectoryUnavailable, None) => true,
                (DeviceNameError::InvalidPath { path }, None) => true,
                _ => false,
            },
    {
        match self {
            DeviceNameError::Validation(source) => Some(DeviceNameErrorSource::Validation(*source)),
            DeviceNameError::Invalid { source, .. } => Some(
                DeviceNameErrorSource::Validation(*source),
            ),
            DeviceNameError::Io { source, .. } => Some(DeviceNameErrorSource::Io(source.as_str())),
            _ => None,
        }
    }
}

/// What a preparation step is called in display-name failures.
pub open spec fn name_operation(operation: PersistenceOperation) -> Seq<char> {
    match operation {
        PersistenceOperation::InspectDirectory => "inspect device display name directory"@,
        PersistenceOperation::CreateDirectory => "create device display name directory"@,
        PersistenceOperation::HardenDirectory =>
            "harden device display name directory permissions"@,
        PersistenceOperation::HardenFile => "harden device display name file permissions"@,
        PersistenceOperation::CreateTemporary => "create temporary device display name"@,
        PersistenceOperation::WriteTemporary => "write temporary device display name"@,
        PersistenceOperation::SyncTemporary => "sync temporary device display name"@,
    }
}

/// A step of loading, creating or replacing the display name.
#[derive(Debug)]
pub enum DeviceNameStep {
    /// Restrict access to the containing directory, if it exists.
    HardenParent,
    /// Restrict access to the name file, if it exists.
    HardenFile,
    /// Read the name file.
    Read,
    /// Write this text to a temporary file beside the name file, restricting access to
    /// an existing directory if so told.
    WriteTemporary { name: DeviceName, contents: String, harden_existing: bool, replace: bool },
    /// Move the temporary file to the name path, unless something is there.
    PersistNew { name: DeviceName },
    /// Move the temporary file to the name path in place of what is there.
    Replace { name: DeviceName },
    /// Flush the name file to its storage.
    SyncFile { name: DeviceName },
    /// Restrict access to the name file that another process created meanwhile.
    HardenRaced,
    /// Read the name file that another process created meanwhile.
    ReadRaced,
    /// The operation is over.
    Done(Result<DeviceName, DeviceNameError>),
}

/// The text that a name file holds.
pub open spec fn name_file_text(name: Seq<char>) -> Seq<char> {
    name.push('\n')
}

/// The step ends the operation with what the contents of a name file say.
pub open spec fn ends_with_contents(
    step: DeviceNameStep,
    path: Seq<char>,
    contents: Seq<char>,
) -> bool {
    match device_name_of(identity::without_line_break(contents)) {
        Ok(name) => step matches DeviceNameStep::Done(Ok(n)) && n@ == name,
        Err(error) => step matches DeviceNameStep::Done(
            Err(DeviceNameError::Invalid { path: p, source }),
        ) && p@ == path && source == error,
    }
}

/// The step ends the operation with a filesystem failure.
pub open spec fn ends_with_io(
    step: DeviceNameStep,
    operation: Seq<char>,
    path: Seq<char>,
    source: Seq<char>,
) -> bool {
    step matches DeviceNameStep::Done(Err(error)) && error.is_io(operation, path, source)
}

/// The step ends the operation with what a preparation failure amounts to.
pub open spec fn ends_unprepared(step: DeviceNameStep, error: PersistenceErrorModel) -> bool {
    step matches DeviceNameStep::Done(Err(e)) && e.comes_from(error)
}

/// The step writes a name to a temporary file.
pub open spec fn writes_name(
    step: DeviceNameStep,
    name: Seq<char>,
    harden: bool,
    replace: bool,
) -> bool {
    step matches DeviceNameStep::WriteTemporary {
        name: n,
        contents,
        harden_existing,
        replace: r,
    } && n@ == name && contents@ == name_file_text(name) && harden_existing == harden && r
        == replace
}

/// Whether a step of loading or replacing the name can follow another.
pub open spec fn follows(from: DeviceNameStep, to: DeviceNameStep, harden: bool) -> bool {
    ||| !(from is Done) && to matches DeviceNameStep::Done(Err(_))
    ||| match from {
        DeviceNameStep::HardenParent => to is HardenFile,
        DeviceNameStep::HardenFile => to is Read,
        DeviceNameStep::Read => to is Done || writes_name(to, DEFAULT_DEVICE_NAME@, harden, false),
        DeviceNameStep::WriteTemporary { name, contents: _, harden_existing: _, replace } =>
            if replace {
                to == (DeviceNameStep::Replace { name })
            } else {
                to == (DeviceNameStep::PersistNew { name })
            },
        DeviceNameStep::PersistNew { name } => to == (DeviceNameStep::SyncFile { name })
            || to is HardenRaced,
        DeviceNameStep::Replace { name } => to == (DeviceNameStep::SyncFile { name }),
        DeviceNameStep::SyncFile { name } => to == DeviceNameStep::Done(Ok(name)),
        DeviceNameStep::HardenRaced => to is ReadRaced,
        DeviceNameStep::ReadRaced => to is Done,
        DeviceNameStep::Done(_) => false,
    }
}

/// A filesystem-backed store for the mutable local device display name. The owner
/// performs the steps.
#[derive(Debug)]
pub struct DeviceNameStore {
    path: String,
    harden_existing_parent: bool,
}

impl Clone for DeviceNameStore {
    fn clone(&self) -> (r: Self)
        ensures
            r == *self,
    {
        DeviceNameStore {
            path: self.path.clone(),
            harden_existing_parent: self.harden_existing_parent,
        }
    }
}

impl DeviceNameStore {
    /// The path of the name file.
    pub closed spec fn path(self) -> Seq<char> {
        self.path@
    }

    /// Whether the containing directory belongs to the application.
    pub closed spec fn hardens_existing_parent(self) -> bool {
        self.harden_existing_parent
    }

    /// Creates a store at an explicit path.
    #[must_use]
    pub fn new(path: String) -> (r: Self)
        ensures
            r.path() == path@,
            !r.hardens_existing_parent(),
    {
        DeviceNameStore { path, harden_existing_parent: false }
    }

    /// Creates a store in the application configuration directory.
    #[must_use]
    pub fn in_app_config(path: String) -> (r: Self)
        ensures
            r.path() == path@,
            r.hardens_existing_parent(),
    {
        DeviceNameStore { path, harden_existing_parent: true }
    }

    /// Begins to load the persisted name, or to create the neutral default when it is
    /// absent.
    ///
    /// Existing unreadable or invalid data is returned as an error and is never
    /// silently replaced with the default.
    pub fn load_or_create(&self) -> (r: DeviceNameStep)
        ensures
            if self.hardens_existing_parent() {
                r is HardenParent
            } else {
                r is HardenFile
            },
    {
        if self.harden_existing_parent {
            DeviceNameStep::HardenParent
        } else {
            DeviceNameStep::HardenFile
        }
    }

    /// Begins to persist a new display name.
    ///
    /// Concurrent successful updates use last-writer-wins semantics. Readers see
    /// either the complete previous value or the complete new value.
    pub fn update(&self, value: &str) -> (r: DeviceNameStep)
        ensures
            match device_name_of(value@) {
                Ok(name) => writes_name(r, name, self.hardens_existing_parent(), true),
                Err(error) => r matches DeviceNameStep::Done(Err(DeviceNameError::Validation(e)))
                    && e == error,
            },
    {
        match DeviceName::new(value) {
            Ok(name) => self.write_temporary(name, true),
            Err(error) => DeviceNameStep::Done(Err(DeviceNameError::Validation(error))),
        }
    }

    /// Goes on after restricting access to the containing directory.
    pub fn after_harden_parent(&self, outcome: Result<(), PersistenceError>) -> (r: DeviceNameStep)
        ensures
            match outcome {
                Ok(_) => r is HardenFile,
                Err(error) => ends_unprepared(r, error@),
            },
            follows(DeviceNameStep::HardenParent, r, self.hardens_existing_parent()),
    {
        match outcome {
            Ok(_) => DeviceNameStep::HardenFile,
            Err(error) => DeviceNameStep::Done(Err(Self::persistence_error(error))),
        }
    }

    /// Goes on after restricting access to the name file.
    pub fn after_harden_file(&self, outcome: Result<(), PersistenceError>) -> (r: DeviceNameStep)
        ensures
            match outcome {
                Ok(_) => r is Read,
                Err(error) => ends_unprepared(r, error@),
            },
            follows(DeviceNameStep::HardenFile, r, self.hardens_existing_parent()),
    {
        match outcome {
            Ok(_) => DeviceNameStep::Read,
            Err(error) => DeviceNameStep::Done(Err(Self::persistence_error(error))),
        }
    }

    /// Goes on after reading the name file.
    pub fn after_read(&self, outcome: ReadOutcome) -> (r: DeviceNameStep)
        ensures
            match outcome {
                ReadOutcome::Text(contents) => ends_with_contents(r, self.path(), contents@),
                ReadOutcome::Absent => writes_name(
                    r,
                    DEFAULT_DEVICE_NAME@,
                    self.hardens_existing_parent(),
                    false,
                ),
                ReadOutcome::Failed(source) => ends_with_io(
                    r,
                    "read device display name"@,
                    self.path(),
                    source@,
                ),
            },
            follows(DeviceNameStep::Read, r, self.hardens_existing_parent()),
    {
        match outcome {
            ReadOutcome::Text(contents) => self.parse_persisted(contents.as_str()),
            ReadOutcome::Absent => self.write_temporary(DeviceName::default(), false),
            ReadOutcome::Failed(source) => self.io_error("read device display name", source),
        }
    }

    /// Goes on after writing the temporary file.
    pub fn after_write_temporary(
        &self,
        name: DeviceName,
        replace: bool,
        outcome: Result<(), PersistenceError>,
    ) -> (r: DeviceNameStep)
        ensures
            match outcome {
                Ok(_) => if replace {
                    r == (DeviceNameStep::Replace { name })
                } else {
                    r == (DeviceNameStep::PersistNew { name })
                },
                Err(error) => ends_unprepared(r, error@),
            },
            forall|contents: String, harden_existing: bool| #[trigger]
                follows(
                    DeviceNameStep::WriteTemporary { name, contents, harden_existing, replace },
                    r,
                    self.hardens_existing_parent(),
                ),
    {
        match outcome {
            Ok(_) => if replace {
                DeviceNameStep::Replace { name }
            } else {
                DeviceNameStep::PersistNew { name }
            },
            Err(error) => DeviceNameStep::Done(Err(Self::persistence_error(error))),
        }
    }

    /// Goes on after moving the temporary file to a free path. A file that another
    /// process put there first wins.
    pub fn after_persist_new(&self, name: DeviceName, outcome: PersistOutcome) -> (r:
        DeviceNameStep)
        ensures
            match outcome {
                PersistOutcome::Done => r == (DeviceNameStep::SyncFile { name }),
                PersistOutcome::AlreadyExists => r is HardenRaced,
                PersistOutcome::Failed(source) => ends_with_io(
                    r,
                    "persist device display name"@,
                    self.path(),
                    source@,
                ),
            },
            follows(DeviceNameStep::PersistNew { name }, r, self.hardens_existing_parent()),
    {
        match outcome {
            PersistOutcome::Done => DeviceNameStep::SyncFile { name },
            PersistOutcome::AlreadyExists => DeviceNameStep::HardenRaced,
            PersistOutcome::Failed(source) => self.io_error("persist device display name", source),
        }
    }

    /// Goes on after moving the temporary file in place of the former one.
    pub fn after_replace(&self, name: DeviceName, outcome: Result<(), String>) -> (r:
        DeviceNameStep)
        ensures
            match outcome {
                Ok(_) => r == (DeviceNameStep::SyncFile { name }),
                Err(source) => ends_with_io(
                    r,
                    "persist device display name"@,
                    self.path(),
                    source@,
                ),
            },
            follows(DeviceNameStep::Replace { name }, r, self.hardens_existing_parent()),
    {
        match outcome {
            Ok(_) => DeviceNameStep::SyncFile { name },
            Err(source) => self.io_error("persist device display name", source),
        }
    }

    /// Ends after flushing the name file.
    pub fn after_sync_file(&self, name: DeviceName, outcome: Result<(), String>) -> (r:
        DeviceNameStep)
        ensures
            match outcome {
                Ok(_) => r matches DeviceNameStep::Done(Ok(n)) && n == name,
                Err(source) => ends_with_io(r, "sync device display name"@, self.path(), source@),
            },
            follows(DeviceNameStep::SyncFile { name }, r, self.hardens_existing_parent()),
    {
        match outcome {
            Ok(_) => DeviceNameStep::Done(Ok(name)),
            Err(source) => self.io_error("sync device display name", source),
        }
    }

    /// Goes on after restricting access to the file that another process created.
    pub fn after_harden_raced(&self, outcome: Result<(), PersistenceError>) -> (r: DeviceNameStep)
        ensures
            match outcome {
                Ok(_) => r is ReadRaced,
                Err(error) => ends_unprepared(r, error@),
            },
            follows(DeviceNameStep::HardenRaced, r, self.hardens_existing_parent()),
    {
        match outcome {
            Ok(_) => DeviceNameStep::ReadRaced,
            Err(error) => DeviceNameStep::Done(Err(Self::persistence_error(error))),
        }
    }

    /// Ends after reading the file that another process created.
    pub fn after_read_raced(&self, outcome: Result<String, String>) -> (r: DeviceNameStep)
        ensures
            match outcome {
                Ok(contents) => ends_with_contents(r, self.path(), contents@),
                Err(source) => ends_with_io(
                    r,
                    "read concurrently created device display name"@,
                    self.path(),
                    source@,
                ),
            },
            follows(DeviceNameStep::ReadRaced, r, self.hardens_existing_parent()),
    {
        match outcome {
            Ok(contents) => self.parse_persisted(contents.as_str()),
            Err(source) => self.io_error("read concurrently created device display name", source),
        }
    }

    /// Ends with the name in the contents of the name file.
    fn parse_persisted(&self, contents: &str) -> (r: DeviceNameStep)
        ensures
            ends_with_contents(r, self.path(), contents@),
    {
        match DeviceName::new(strip_line_break(contents).as_str()) {
            Ok(name) => DeviceNameStep::Done(Ok(name)),
            Err(source) => DeviceNameStep::Done(
                Err(DeviceNameError::Invalid { path: self.path.clone(), source }),
            ),
        }
    }

    /// Writes a name to a temporary file.
    fn write_temporary(&self, name: DeviceName, replace: bool) -> (r: DeviceNameStep)
        ensures
            writes_name(r, name@, self.hardens_existing_parent(), replace),
    {
        let mut contents = name.as_str().to_owned();
        contents.push('\n');
        DeviceNameStep::WriteTemporary {
            name,
            contents,
            harden_existing: self.harden_existing_parent,
            replace,
        }
    }

    /// Ends with a failure at the name path.
    fn io_error(&self, operation: &'static str, source: String) -> (r: DeviceNameStep)
        ensures
            ends_with_io(r, operation@, self.path(), source@),
    {
        DeviceNameStep::Done(
            Err(DeviceNameError::Io { operation, path: self.path.clone(), source }),
        )
    }

    /// The display-name failure that a preparation failure amounts to.
    fn persistence_error(error: PersistenceError) -> (r: DeviceNameError)
        ensures
            r.comes_from(error@),
    {
        match error {
            PersistenceError::InvalidPath { path } => DeviceNameError::InvalidPath { path },
            PersistenceError::Io { operation, path, source } => {
                let operation = match operation {
                    PersistenceOperation::InspectDirectory =>
                        "inspect device display name directory",
                    PersistenceOperation::CreateDirectory => "create device display name directory",
                    PersistenceOperation::HardenDirectory =>
                        "harden device display name directory permissions",
                    PersistenceOperation::HardenFile =>
                        "harden device display name file permissions",
                    PersistenceOperation::CreateTemporary => "create temporary device display name",
                    PersistenceOperation::WriteTemporary => "write temporary device display name",
                    PersistenceOperation::SyncTemporary => "sync temporary device display name",
                };
                DeviceNameError::Io { operation, path, source }
            },
        }
    }
}

/// A name file loads back as the name it was written for, and as no other result.
pub proof fn stored_name_loads_back(name: Seq<char>, step: DeviceNameStep, path: Seq<char>)
    requires
        is_device_name(name),
        ends_with_contents(step, path, name_file_text(name)),
    ensures
        step matches DeviceNameStep::Done(Ok(n)) && n@ == name,
{
    assert(identity::without_line_break(name_file_text(name)) =~= name);
}

/// A display name is what remains between outer whitespace: a text has one exactly if no
/// character of it is a control code and what remains has 1 to 64 characters.
pub proof fn device_name_is_the_inner_text(before: Seq<char>, name: Seq<char>, after: Seq<char>)
    requires
        forall|i: int| 0 <= i < before.len() ==> text::is_whitespace(#[trigger] before[i]),
        forall|i: int| 0 <= i < after.len() ==> text::is_whitespace(#[trigger] after[i]),
        name.len() > 0 ==> !text::is_whitespace(name[0]) && !text::is_whitespace(name.last()),
    ensures
        ({
            let value = before + name + after;
            let clean = forall|i: int|
                0 <= i < value.len() ==> !text::is_control(#[trigger] value[i]);
            &&& !clean <==> device_name_of(value) == Err::<Seq<char>, DeviceNameValidationError>(
                DeviceNameValidationError::ControlCharacter,
            )
            &&& clean && name.len() == 0 <==> device_name_of(value) == Err::<
                Seq<char>,
                DeviceNameValidationError,
            >(DeviceNameValidationError::Empty)
            &&& clean && name.len() > 64 <==> device_name_of(value) == Err::<
                Seq<char>,
                DeviceNameValidationError,
            >(DeviceNameValidationError::TooLong { maximum: 64 })
            &&& clean && 0 < name.len() <= 64 <==> device_name_of(value) == Ok::<
                Seq<char>,
                DeviceNameValidationError,
            >(name)
        }),
{
    text::outer_whitespace_is_trimmed(before, name, after);
}

/// A file that holds a valid name, with or without a line break behind it, ends the load
/// with that name; every other file is refused as invalid at its path, with the reason.
pub proof fn persisted_name_is_loaded(
    step: DeviceNameStep,
    path: Seq<char>,
    held: Seq<char>,
    broken: bool,
)
    requires
        held.len() == 0 || held.last() != '\n',
        ends_with_contents(
            step,
            path,
            if broken {
                held.push('\n')
            } else {
                held
            },
        ),
    ensures
        device_name_of(held) matches Ok(name) ==> (step matches DeviceNameStep::Done(Ok(n)) && n@
            == name),
        device_name_of(held) matches Err(reason) ==> (step matches DeviceNameStep::Done(
            Err(DeviceNameError::Invalid { path: p, source }),
        ) && p@ == path && source == reason),
{
    identity::one_line_break_is_stripped(held);
}

/// The description of a failure names the path and, of the filesystem, the operation and
/// the cause.
pub proof fn failure_names_its_place(error: DeviceNameError)
    ensures
        match error {
            DeviceNameError::ConfigDirectoryUnavailable => true,
            DeviceNameError::InvalidPath { path } => text::mentions(error.text(), path@),
            DeviceNameError::Validation(source) => error.text() == source.text(),
            DeviceNameError::Invalid { path, source } => text::mentions(error.text(), path@),
            DeviceNameError::Io { operation, path, source } => text::mentions(
                error.text(),
                operation@,
            ) && text::mentions(error.text(), path@) && text::mentions(error.text(), source@),
        },
{
    let none = Seq::<char>::empty();
    match error {
        DeviceNameError::InvalidPath { path } => text::lemma_mentions(
            "device display name path has no parent: "@,
            path@,
            none,
        ),
        DeviceNameError::Invalid { path, source } => text::lemma_mentions(
            "invalid persisted device display name at "@,
            path@,
            none,
        ),
        DeviceNameError::Io { operation, path, source } => text::lemma_io_text(
            error.text(),
            operation@,
            path@,
            source@,
        ),
        _ => {},
    }
}

/// Whether each step of loading or replacing the name follows the one before.
pub open spec fn is_run(steps: Seq<DeviceNameStep>, harden: bool) -> bool {
    forall|i: int| 0 < i < steps.len() ==> follows(steps[i - 1], #[trigger] steps[i], harden)
}

/// A replaced name is reported only after it was written with a line break, moved in
/// place of the old one and flushed, and it is then the name that was asked for.
pub proof fn replaced_name_is_durable(
    steps: Seq<DeviceNameStep>,
    harden: bool,
    name: Seq<char>,
    result: DeviceName,
)
    requires
        is_run(steps, harden),
        steps.len() > 0,
        writes_name(steps[0], name, harden, true),
        steps.last() == DeviceNameStep::Done(Ok(result)),
    ensures
        result@ == name,
        steps.len() == 4,
        steps[0]->contents@ == name.push('\n'),
        steps[0]->harden_existing == harden,
        steps[1] == (DeviceNameStep::Replace { name: result }),
        steps[2] == (DeviceNameStep::SyncFile { name: result }),
{
    assert(steps.len() > 1);
    assert(follows(steps[0], steps[1], harden));
    assert(follows(steps[1], steps[2], harden));
    assert(follows(steps[2], steps[3], harden));
    if steps.len() > 4 {
        assert(follows(steps[3], steps[4], harden));
    }
}

/// A load that finds no file and reports a name has either written, placed and flushed
/// the default name, or found that another process was faster and read its file instead.
pub proof fn absent_name_is_created_once(
    steps: Seq<DeviceNameStep>,
    harden: bool,
    result: DeviceName,
)
    requires
        is_run(steps, harden),
        steps.len() > 1,
        steps[0] is Read,
        !(steps[1] is Done),
        steps.last() == DeviceNameStep::Done(Ok(result)),
    ensures
        writes_name(steps[1], "Local Device"@, harden, false),
        steps[2] is PersistNew,
        steps.len() == 5 || steps.len() == 6,
        steps.len() == 5 ==> result@ == "Local Device"@ && steps[3] == (DeviceNameStep::SyncFile {
            name: result,
        }),
        steps.len() == 6 ==> steps[3] is HardenRaced && steps[4] is ReadRaced,
{
    assert(follows(steps[0], steps[1], harden));
    assert(follows(steps[1], steps[2], harden));
    assert(follows(steps[2], steps[3], harden));
    assert(follows(steps[3], steps[4], harden));
    if steps[3] is HardenRaced {
        assert(follows(steps[4], steps[5], harden));
        if steps.len() > 6 {
            assert(follows(steps[5], steps[6], harden));
        }
    } else if steps.len() > 5 {
        assert(follows(steps[4], steps[5], harden));
    }
}

/// Each operation is called by what it does and what it does it to, so that no two are
/// called the same.
pub proof fn operations_are_named_for_what_they_do()
    ensures
        name_operation(PersistenceOperation::InspectDirectory).take(8) == "inspect "@,
        name_operation(PersistenceOperation::InspectDirectory).skip(28) == "directory"@,
        name_operation(PersistenceOperation::CreateDirectory).take(7) == "create "@,
        name_operation(PersistenceOperation::CreateDirectory).skip(27) == "directory"@,
        name_operation(PersistenceOperation::HardenDirectory).take(7) == "harden "@,
        name_operation(PersistenceOperation::HardenDirectory).skip(27) == "directory permissions"@,
        name_operation(PersistenceOperation::HardenFile).take(7) == "harden "@,
        name_operation(PersistenceOperation::HardenFile).skip(27) == "file permissions"@,
        name_operation(PersistenceOperation::CreateTemporary).take(17) == "create temporary "@,
        name_operation(PersistenceOperation::WriteTemporary).take(16) == "write temporary "@,
        name_operation(PersistenceOperation::SyncTemporary).take(15) == "sync temporary "@,
{
    reveal_strlit("create ");
    reveal_strlit("create device display name directory");
    reveal_strlit("create temporary ");
    reveal_strlit("create temporary device display name");
    reveal_strlit("directory");
    reveal_strlit("directory permissions");
    reveal_strlit("file permissions");
    reveal_strlit("harden ");
    reveal_strlit("harden device display name directory permissions");
    reveal_strlit("harden device display name file permissions");
    reveal_strlit("inspect ");
    reveal_strlit("inspect device display name directory");
    reveal_strlit("sync temporary ");
    reveal_strlit("sync temporary device display name");
    reveal_strlit("write temporary ");
    reveal_strlit("write temporary device display name");
    assert("inspect device display name directory"@.take(8) =~= "inspect "@);
    assert("inspect device display name directory"@.skip(28) =~= "directory"@);
    assert("create device display name directory"@.take(7) =~= "create "@);
    assert("create device display name directory"@.skip(27) =~= "directory"@);
    assert("harden device display name directory permissions"@.take(7) =~= "harden "@);
    assert("harden device display name directory permissions"@.skip(27) =~= "directory permissions"@);
    assert("harden device display name file permissions"@.take(7) =~= "harden "@);
    assert("harden device display name file permissions"@.skip(27) =~= "file permissions"@);
    assert("create temporary device display name"@.take(17) =~= "create temporary "@);
    assert("write temporary device display name"@.take(16) =~= "write temporary "@);
    assert("sync temporary device display name"@.take(15) =~= "sync temporary "@);
}

/// A failure keeps the path and the cause of the preparation failure behind it, and says
/// which operation failed.
pub proof fn failure_keeps_its_cause(error: DeviceNameError, cause: PersistenceErrorModel)
    requires
        error.comes_from(cause),
    ensures
        cause matches PersistenceErrorModel::InvalidPath(path) ==> (
        error matches DeviceNameError::InvalidPath { path: p } && p@ == path),
        cause matches PersistenceErrorModel::Io(operation, path, source) ==> (
        error matches DeviceNameError::Io { operation: o, path: p, source: s } && p@ == path && s@
            == source && o@ == name_operation(operation)),
{
}

} // verus!
