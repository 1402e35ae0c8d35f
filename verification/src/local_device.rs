//! Public boundary for the current local device.

use vstd::prelude::*;

use crate::device_name;
use crate::device_name::{DeviceName, DeviceNameError, DeviceNameStep, DeviceNameStore};
use crate::identity::{DeviceId, DeviceIdError, DeviceIdStep, DeviceIdStore};
use crate::platform::{Platform, UnsupportedPlatformError};
use crate::text;

verus! {

/// An immutable snapshot of the current local device state.
#[derive(Debug, PartialEq, Eq)]
pub struct LocalDevice {
    id: DeviceId,
    name: DeviceName,
    platform: Platform,
}

/// The contents of a device snapshot.
pub struct LocalDeviceModel {
    /// The bytes of the identifier.
    pub id: Seq<u8>,
    /// The display name.
    pub name: Seq<char>,
    /// The operating-system family.
    pub platform: Platform,
}

impl View for LocalDevice {
    type V = LocalDeviceModel;

    closed spec fn view(&self) -> LocalDeviceModel {
        LocalDeviceModel { id: self.id@, name: self.name@, platform: self.platform }
    }
}

impl Clone for LocalDevice {
    fn clone(&self) -> (r: Self)
        ensures
            r == *self,
    {
        LocalDevice { id: self.id, name: self.name.clone(), platform: self.platform }
    }
}

impl LocalDevice {
    /// Returns the permanent opaque installation identifier.
    #[must_use]
    pub fn id(&self) -> (r: DeviceId)
        ensures
            r@ == self@.id,
    {
        self.id
    }

    /// Returns the mutable user-facing display name in this snapshot.
    #[must_use]
    pub fn name(&self) -> (r: &DeviceName)
        ensures
            r@ == self@.name,
    {
        &self.name
    }

    /// Returns the bounded operating-system family.
    #[must_use]
    pub fn platform(&self) -> (r: Platform)
        ensures
            r == self@.platform,
    {
        self.platform
    }
}

/// Failures while locating, loading, or updating the current local device.
#[derive(Debug, PartialEq, Eq)]
pub enum LocalDeviceError {
    /// The operating system did not provide an application configuration directory.
    ConfigDirectoryUnavailable,
    /// Loading or creating the permanent device ID failed.
    DeviceId(DeviceIdError),
    /// Loading, creating, validating, or updating the display name failed.
    DeviceName(DeviceNameError),
    /// The compilation target is not a supported platform.
    Platform(UnsupportedPlatformError),
}

/// What caused a local-device failure.
#[derive(Debug, PartialEq, Eq)]
pub enum LocalDeviceErrorSource<'a> {
    /// The device ID failed.
    DeviceId(&'a DeviceIdError),
    /// The display name failed.
    DeviceName(&'a DeviceNameError),
    /// The platform is not supported.
    Platform(&'a UnsupportedPlatformError),
}

impl LocalDeviceError {
    /// The description of the failure.
    pub open spec fn text(self) -> Seq<char> {
        match self {
            LocalDeviceError::ConfigDirectoryUnavailable =>
                "the local configuration directory is unavailable"@,
            LocalDeviceError::DeviceId(source) => "local device ID error: "@ + source.text(),
            LocalDeviceError::DeviceName(source) => "local device name error: "@ + source.text(),
            LocalDeviceError::Platform(source) => "local device platform error: "@ + source.text(),
        }
    }

    /// Describes the failure.
    pub fn message(&self) -> (s: String)
        ensures
            s@ == self.text(),
    {
        match self {
            LocalDeviceError::ConfigDirectoryUnavailable => String::from_str(
                "the local configuration directory is unavailable",
            ),
            LocalDeviceError::DeviceId(source) => String::from_str(
                "local device ID error: ",
            ).concat(source.message().as_str()),
            LocalDeviceError::DeviceName(source) => String::from_str(
                "local device name error: ",
            ).concat(source.message().as_str()),
            LocalDeviceError::Platform(source) => String::from_str(
                "local device platform error: ",
            ).concat(source.message().as_str()),
        }
    }

    /// The cause of the failure.
    pub fn source(&self) -> (r: Option<LocalDeviceErrorSource>)
        ensures
            match (*self, r) {
                (LocalDeviceError::ConfigDirectoryUnavailable, None) => true,
                (
                    LocalDeviceError::DeviceId(source),
                    Some(LocalDeviceErrorSource::DeviceId(e)),
                ) => *e == source,
                (
                    LocalDeviceError::DeviceName(source),
                    Some(LocalDeviceErrorSource::DeviceName(e)),
                ) => *e == source,
                (
                    LocalDeviceError::Platform(source),
                    Some(LocalDeviceErrorSource::Platform(e)),
                ) => *e == source,
                _ => false,
            },
    {
        match self {
            LocalDeviceError::ConfigDirectoryUnavailable => None,
            LocalDeviceError::DeviceId(source) => Some(LocalDeviceErrorSource::DeviceId(source)),
            LocalDeviceError::DeviceName(source) => Some(
                LocalDeviceErrorSource::DeviceName(source),
            ),
            LocalDeviceError::Platform(source) => Some(LocalDeviceErrorSource::Platform(source)),
        }
    }
}

impl From<DeviceIdError> for LocalDeviceError {
    fn from(source: DeviceIdError) -> (r: Self) {
        LocalDeviceError::DeviceId(source)
    }
}

impl vstd::std_specs::convert::FromSpecImpl<DeviceIdError> for LocalDeviceError {
    open spec fn obeys_from_spec() -> bool {
        true
    }

    open spec fn from_spec(source: DeviceIdError) -> Self {
        LocalDeviceError::DeviceId(source)
    }
}

impl From<DeviceNameError> for LocalDeviceError {
    fn from(source: DeviceNameError) -> (r: Self) {
        LocalDeviceError::DeviceName(source)
    }
}

impl vstd::std_specs::convert::FromSpecImpl<DeviceNameError> for LocalDeviceError {
    open spec fn obeys_from_spec() -> bool {
        true
    }

    open spec fn from_spec(source: DeviceNameError) -> Self {
        LocalDeviceError::DeviceName(source)
    }
}

impl From<UnsupportedPlatformError> for LocalDeviceError {
    fn from(source: UnsupportedPlatformError) -> (r: Self) {
        LocalDeviceError::Platform(source)
    }
}

impl vstd::std_specs::convert::FromSpecImpl<UnsupportedPlatformError> for LocalDeviceError {
    open spec fn obeys_from_spec() -> bool {
        true
    }

    open spec fn from_spec(source: UnsupportedPlatformError) -> Self {
        LocalDeviceError::Platform(source)
    }
}

/// Where the state of the local device is kept.
#[derive(Debug)]
pub struct StorePaths {
    /// The identity file.
    pub device_id: String,
    /// The name file.
    pub device_name: String,
}

/// A step of loading the local device.
#[derive(Debug)]
pub enum LocalDeviceStep {
    /// Load or create the device ID, beginning with this step of its store.
    LoadId { platform: Platform, first: DeviceIdStep },
    /// Load or create the display name, beginning with this step of its store.
    LoadName { platform: Platform, id: DeviceId, first: DeviceNameStep },
    /// The operation is over.
    Done(Result<LocalDevice, LocalDeviceError>),
}

/// The first step of loading or creating a display name.
pub open spec fn is_first_name_step(step: DeviceNameStep, harden_parent: bool) -> bool {
    if harden_parent {
        step is HardenParent
    } else {
        step is HardenFile
    }
}

/// Whether a step of loading the local device can follow another.
pub open spec fn follows(from: LocalDeviceStep, to: LocalDeviceStep) -> bool {
    ||| !(from is Done) && to matches LocalDeviceStep::Done(Err(_))
    ||| match from {
        LocalDeviceStep::LoadId { platform, first: _ } => to matches LocalDeviceStep::LoadName {
            platform: p,
            id: _,
            first: _,
        } && p == platform,
        LocalDeviceStep::LoadName { platform, id, first: _ } => to matches LocalDeviceStep::Done(
            Ok(device),
        ) && device@.platform == platform && device@.id == id@,
        LocalDeviceStep::Done(_) => false,
    }
}

/// Coordinates local-device operations without exposing persistence mechanics. The
/// owner performs the steps.
#[derive(Debug)]
pub struct LocalDeviceManager {
    id_store: DeviceIdStore,
    name_store: DeviceNameStore,
}

impl Clone for LocalDeviceManager {
    fn clone(&self) -> (r: Self)
        ensures
            r == *self,
    {
        LocalDeviceManager {
            id_store: self.id_store.clone(),
            name_store: self.name_store.clone(),
        }
    }
}

impl LocalDeviceManager {
    /// The store of the device ID.
    pub closed spec fn ids(self) -> DeviceIdStore {
        self.id_store
    }

    /// The store of the display name.
    pub closed spec fn names(self) -> DeviceNameStore {
        self.name_store
    }

    /// Keeps the device state in a directory of the application, where the platform
    /// provides one.
    pub fn for_current_user(located: Option<StorePaths>) -> (r: Result<Self, LocalDeviceError>)
        ensures
            match located {
                Some(paths) => r is Ok && r->Ok_0.ids().path() == paths.device_id@
                    && r->Ok_0.ids().hardens_existing_parent() && r->Ok_0.names().path()
                    == paths.device_name@ && r->Ok_0.names().hardens_existing_parent(),
                None => r == Err::<Self, LocalDeviceError>(
                    LocalDeviceError::ConfigDirectoryUnavailable,
                ),
            },
    {
        match located {
            Some(paths) => Ok(
                LocalDeviceManager {
                    id_store: DeviceIdStore::in_app_config(paths.device_id),
                    name_store: DeviceNameStore::in_app_config(paths.device_name),
                },
            ),
            None => Err(LocalDeviceError::ConfigDirectoryUnavailable),
        }
    }

    /// Keeps the device state in a directory that the caller chose.
    pub fn at(paths: StorePaths) -> (r: Self)
        ensures
            r.ids().path() == paths.device_id@,
            !r.ids().hardens_existing_parent(),
            r.names().path() == paths.device_name@,
            !r.names().hardens_existing_parent(),
    {
        LocalDeviceManager {
            id_store: DeviceIdStore::new(paths.device_id),
            name_store: DeviceNameStore::new(paths.device_name),
        }
    }

    /// The store of the device ID.
    pub fn id_store(&self) -> (r: &DeviceIdStore)
        ensures
            *r == self.ids(),
    {
        &self.id_store
    }

    /// The store of the display name.
    pub fn name_store(&self) -> (r: &DeviceNameStore)
        ensures
            *r == self.names(),
    {
        &self.name_store
    }

    /// Begins to load a snapshot, creating missing ID and name state.
    ///
    /// Platform detection happens first so an unsupported target cannot create
    /// filesystem state. The permanent ID is then loaded before the mutable name,
    /// so a corrupt identity never creates or resets display-name state.
    pub fn load(&self, detected: Result<Platform, UnsupportedPlatformError>) -> (r: LocalDeviceStep)
        ensures
            match detected {
                Ok(platform) => r matches LocalDeviceStep::LoadId { platform: p, first } && p
                    == platform && self.ids().is_first_step(first),
                Err(error) => r == LocalDeviceStep::Done(Err(LocalDeviceError::Platform(error))),
            },
    {
        match detected {
            Ok(platform) => LocalDeviceStep::LoadId {
                platform,
                first: self.id_store.load_or_create(),
            },
            Err(error) => LocalDeviceStep::Done(Err(LocalDeviceError::from(error))),
        }
    }

    /// Goes on after loading the device ID.
    pub fn after_load_id(&self, platform: Platform, loaded: Result<DeviceId, DeviceIdError>) -> (r:
        LocalDeviceStep)
        ensures
            match loaded {
                Ok(id) => r matches LocalDeviceStep::LoadName { platform: p, id: i, first } && p
                    == platform && i == id && is_first_name_step(
                    first,
                    self.names().hardens_existing_parent(),
                ),
                Err(error) => r == LocalDeviceStep::Done(Err(LocalDeviceError::DeviceId(error))),
            },
            forall|first: DeviceIdStep| #[trigger]
                follows(LocalDeviceStep::LoadId { platform, first }, r),
    {
        match loaded {
            Ok(id) => LocalDeviceStep::LoadName {
                platform,
                id,
                first: self.name_store.load_or_create(),
            },
            Err(error) => LocalDeviceStep::Done(Err(LocalDeviceError::from(error))),
        }
    }

    /// Ends after loading the display name.
    pub fn after_load_name(
        &self,
        platform: Platform,
        id: DeviceId,
        loaded: Result<DeviceName, DeviceNameError>,
    ) -> (r: LocalDeviceStep)
        ensures
            match loaded {
                Ok(name) => r matches LocalDeviceStep::Done(Ok(device)) && device@
                    == (LocalDeviceModel { id: id@, name: name@, platform }),
                Err(error) => r == LocalDeviceStep::Done(Err(LocalDeviceError::DeviceName(error))),
            },
            forall|first: DeviceNameStep| #[trigger]
                follows(LocalDeviceStep::LoadName { platform, id, first }, r),
    {
        match loaded {
            Ok(name) => LocalDeviceStep::Done(Ok(LocalDevice { id, name, platform })),
            Err(error) => LocalDeviceStep::Done(Err(LocalDeviceError::from(error))),
        }
    }

    /// Begins to validate and atomically persist a new display name.
    ///
    /// This operation touches only display-name storage and ends with the normalized
    /// domain value. It never reads, rewrites, or regenerates the device ID.
    pub fn update_name(&self, value: &str) -> (r: DeviceNameStep)
        ensures
            match device_name::device_name_of(value@) {
                Ok(name) => device_name::writes_name(
                    r,
                    name,
                    self.names().hardens_existing_parent(),
                    true,
                ),
                Err(error) => r matches DeviceNameStep::Done(Err(DeviceNameError::Validation(e)))
                    && e == error,
            },
    {
        self.name_store.update(value)
    }

    /// Ends after persisting a new display name.
    pub fn after_update_name(&self, updated: Result<DeviceName, DeviceNameError>) -> (r: Result<
        DeviceName,
        LocalDeviceError,
    >)
        ensures
            match updated {
                Ok(name) => r == Ok::<DeviceName, LocalDeviceError>(name),
                Err(error) => r == Err::<DeviceName, LocalDeviceError>(
                    LocalDeviceError::DeviceName(error),
                ),
            },
    {
        match updated {
            Ok(name) => Ok(name),
            Err(error) => Err(LocalDeviceError::from(error)),
        }
    }
}

/// A device that was loaded has the platform that was detected and the identifier that
/// was loaded before its name: a failure of either is never reported as a device.
pub proof fn loaded_device_has_its_parts(
    steps: Seq<LocalDeviceStep>,
    detected: Platform,
    device: LocalDevice,
)
    requires
        forall|i: int| 0 < i < steps.len() ==> follows(steps[i - 1], #[trigger] steps[i]),
        steps.len() > 0,
        steps[0] matches LocalDeviceStep::LoadId { platform, first } && platform == detected,
        steps.last() == LocalDeviceStep::Done(Ok(device)),
    ensures
        steps.len() == 3,
        device@.platform == detected,
        steps[1] matches LocalDeviceStep::LoadName { platform, id, first } && platform == detected
            && device@.id == id@,
{
    assert(steps.len() > 1);
    assert(follows(steps[0], steps[1]));
    assert(follows(steps[1], steps[2]));
    if steps.len() > 3 {
        assert(follows(steps[2], steps[3]));
    }
}

/// The description of a failure holds that of its cause.
pub proof fn failure_names_its_cause(error: LocalDeviceError)
    ensures
        match error {
            LocalDeviceError::ConfigDirectoryUnavailable => true,
            LocalDeviceError::DeviceId(source) => text::mentions(error.text(), source.text()),
            LocalDeviceError::DeviceName(source) => text::mentions(error.text(), source.text()),
            LocalDeviceError::Platform(source) => text::mentions(error.text(), source.text())
                && text::mentions(source.text(), source@),
        },
{
    let none = Seq::<char>::empty();
    match error {
        LocalDeviceError::ConfigDirectoryUnavailable => {},
        LocalDeviceError::DeviceId(source) => text::lemma_mentions(
            "local device ID error: "@,
            source.text(),
            none,
        ),
        LocalDeviceError::DeviceName(source) => text::lemma_mentions(
            "local device name error: "@,
            source.text(),
            none,
        ),
        LocalDeviceError::Platform(source) => {
            text::lemma_mentions("local device platform error: "@, source.text(), none);
            text::lemma_mentions("unsupported operating-system target: "@, source@, none);
        },
    }
}

/// Loading begins with restricting access to the directory if it is the application's own,
/// and with the file otherwise, for the identity and for the name alike.
pub proof fn own_directory_is_restricted_first(
    ids: DeviceIdStore,
    id_step: DeviceIdStep,
    name_step: DeviceNameStep,
    harden: bool,
)
    ensures
        ids.is_first_step(id_step) <==> (if ids.hardens_existing_parent() {
            id_step is HardenParent
        } else {
            id_step is HardenFile
        }),
        is_first_name_step(name_step, harden) ==> (name_step is HardenParent <==> harden) && (
        name_step is HardenFile <==> !harden),
{
}

} // verus!
