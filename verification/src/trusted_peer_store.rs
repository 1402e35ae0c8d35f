//! The steps by which durable trusted-peer records are loaded and replaced.
//!
//! One versioned, bounded store file holds every record and is replaced atomically
//! on each mutation. Loading yields only fully validated records. A mutation runs as
//! one exclusively locked load-modify-replace transaction. The owner performs each
//! step and hands back its outcome.

use vstd::prelude::*;

use crate::persistence::{
    Inspection, PathKind, PersistenceError, PersistenceErrorModel, PersistenceOperation,
    PRIVATE_FILE_MODE,
};
use crate::trusted_peers;
use crate::trusted_peers::{
    bytes_with, bytes_without, decode, PeerKeyIdentity, TrustedPeerRecord, TrustedPeerStoreError,
    TrustedPeers, TrustedRecord, MAX_TRUSTED_PEERS_STORE_BYTES,
};

verus! {

/// The name of the store file.
pub const STORE_FILE_NAME: &'static str = "trusted-peers";

/// What is appended to the name of the store file for that of its lock file.
pub const LOCK_FILE_SUFFIX: &'static str = ".lock";

/// The most bytes that are read from the store file: one past its budget, so that a
/// file that grows meanwhile is still recognised as too large.
pub const STORE_READ_CEILING: u64 = 65537;

/// The result of a removal request.
#[derive(Clone, Copy, Debug, PartialEq, Eq, Structural)]
pub enum TrustedPeerRemoval {
    /// A record for the identity existed and was durably removed.
    Removed,
    /// No record for the identity existed; nothing changed.
    AlreadyAbsent,
}

/// Names the lock file that belongs to a store file.
pub fn lock_file_name(file_name: Option<&str>) -> (r: String)
    ensures
        r@ == (match file_name {
            Some(name) => name@,
            None => STORE_FILE_NAME@,
        }) + LOCK_FILE_SUFFIX@,
{
    let mut name = match file_name {
        Some(name) => name.to_owned(),
        None => STORE_FILE_NAME.to_owned(),
    };
    name.append(LOCK_FILE_SUFFIX);
    name
}

/// Where a store is kept.
#[derive(Debug)]
pub struct StoreLocation {
    /// The store file.
    pub path: String,
    /// The lock file beside it.
    pub lock_path: String,
}

impl Clone for StoreLocation {
    fn clone(&self) -> (r: Self)
        ensures
            r == *self,
    {
        StoreLocation { path: self.path.clone(), lock_path: self.lock_path.clone() }
    }
}

/// The outcome of opening the store file.
#[derive(Debug)]
pub enum OpenOutcome {
    /// It is open.
    Opened,
    /// There is no file.
    Absent,
    /// Opening failed.
    Failed(String),
}

/// What an open file is.
#[derive(Clone, Copy, Debug, PartialEq, Eq, Structural)]
pub struct OpenFile {
    /// Whether it is a regular file.
    pub is_file: bool,
    /// Its size in bytes.
    pub len: u64,
}

/// The outcome of asking for the lock without waiting.
#[derive(Debug)]
pub enum LockOutcome {
    /// The lock is held.
    Acquired,
    /// Another process holds it.
    WouldBlock,
    /// Asking failed.
    Failed(String),
}

/// A step of loading every record.
#[derive(Debug)]
pub enum LoadStep {
    /// Restrict access to the containing directory, if it exists.
    HardenParent,
    /// Restrict access to the store file, if it exists.
    HardenFile,
    /// Look at the store path, without following a symbolic link.
    Inspect,
    /// Open the store file.
    Open,
    /// Look at the open file.
    InspectOpen,
    /// Read at most this many bytes of the open file.
    Read { ceiling: u64 },
    /// The operation is over.
    Done(Result<TrustedPeers, TrustedPeerStoreError>),
}

/// A step of acquiring the exclusive mutation lock.
#[derive(Debug)]
pub enum LockStep {
    /// Look at the lock path, without following a symbolic link.
    Inspect,
    /// Make the containing directory ready, restricting access to an existing one if
    /// so told.
    PrepareParent { harden_existing: bool },
    /// Open the lock file, creating it where missing with this mode and never truncating
    /// it.
    Open { mode: u32 },
    /// Look at the open file.
    InspectOpen,
    /// Restrict access to the lock file.
    Harden,
    /// Ask for the lock without waiting.
    TryLock,
    /// The operation is over.
    Done(Result<(), TrustedPeerStoreError>),
}

/// A change to the stored records.
#[derive(Debug)]
pub enum Mutation {
    /// Store a record under its identity.
    Store(TrustedPeerRecord),
    /// Remove the record of an identity.
    Remove(PeerKeyIdentity),
}

/// What a mutation has done.
#[derive(Clone, Copy, Debug, PartialEq, Eq, Structural)]
pub enum MutationOutcome {
    /// The record is durably stored.
    Stored,
    /// The removal has this result.
    Removal(TrustedPeerRemoval),
}

/// A step of a mutation. The lock is released once the mutation is done.
#[derive(Debug)]
pub enum MutationStep {
    /// Acquire the exclusive lock.
    Lock { mutation: Mutation },
    /// Load every record.
    Load { mutation: Mutation },
    /// Write these bytes to a temporary file beside the store file, restricting access
    /// to an existing directory if so told.
    WriteTemporary { contents: Vec<u8>, harden_existing: bool, outcome: MutationOutcome },
    /// Move the temporary file in place of the store file.
    Replace { outcome: MutationOutcome },
    /// Flush the store file to its storage.
    SyncFile { outcome: MutationOutcome },
    /// Flush the containing directory to its storage.
    SyncDirectory { outcome: MutationOutcome },
    /// The operation is over.
    Done(Result<MutationOutcome, TrustedPeerStoreError>),
}

/// What a preparation step is called in store failures.
pub open spec fn store_operation(operation: PersistenceOperation) -> Seq<char> {
    match operation {
        PersistenceOperation::InspectDirectory => "inspect trusted-peer store directory"@,
        PersistenceOperation::CreateDirectory => "create trusted-peer store directory"@,
        PersistenceOperation::HardenDirectory => "harden trusted-peer store directory permissions"@,
        PersistenceOperation::HardenFile => "harden trusted-peer store file permissions"@,
        PersistenceOperation::CreateTemporary => "create temporary trusted-peer store"@,
        PersistenceOperation::WriteTemporary => "write temporary trusted-peer store"@,
        PersistenceOperation::SyncTemporary => "sync temporary trusted-peer store"@,
    }
}

/// The error is the given failure of the filesystem.
pub open spec fn is_io(
    error: TrustedPeerStoreError,
    operation: Seq<char>,
    path: Seq<char>,
    source: Seq<char>,
) -> bool {
    error matches TrustedPeerStoreError::Io { operation: o, path: p, source: s } && o@ == operation
        && p@ == path && s@ == source
}

/// The error is the one that a preparation failure amounts to.
pub open spec fn comes_from(error: TrustedPeerStoreError, cause: PersistenceErrorModel) -> bool {
    match cause {
        PersistenceErrorModel::InvalidPath(path) => error
            matches TrustedPeerStoreError::InvalidStorePath { path: p } && p@ == path,
        PersistenceErrorModel::Io(operation, path, source) => is_io(
            error,
            store_operation(operation),
            path,
            source,
        ),
    }
}

/// The error refuses a path for what it leads to.
pub open spec fn refuses_path(
    error: TrustedPeerStoreError,
    path: Seq<char>,
    kind: PathKind,
) -> bool {
    match kind {
        PathKind::RegularFile => false,
        PathKind::Symlink => error matches TrustedPeerStoreError::SymlinkNotAllowed { path: p }
            && p@ == path,
        _ => is_irregular(error, path),
    }
}

/// The error refuses a path because it leads to no regular file.
pub open spec fn is_irregular(error: TrustedPeerStoreError, path: Seq<char>) -> bool {
    error matches TrustedPeerStoreError::NotRegularFile { path: p } && p@ == path
}

/// The load ends with the given records.
pub open spec fn loads(step: LoadStep, records: Seq<TrustedRecord>) -> bool {
    step matches LoadStep::Done(Ok(peers)) && peers@ == records
}

/// The load ends with a failure of the filesystem.
pub open spec fn load_fails(
    step: LoadStep,
    operation: Seq<char>,
    path: Seq<char>,
    source: Seq<char>,
) -> bool {
    step matches LoadStep::Done(Err(error)) && is_io(error, operation, path, source)
}

/// The acquisition ends with a failure of the filesystem.
pub open spec fn lock_fails(
    step: LockStep,
    operation: Seq<char>,
    path: Seq<char>,
    source: Seq<char>,
) -> bool {
    step matches LockStep::Done(Err(error)) && is_io(error, operation, path, source)
}

/// The mutation ends with a failure of the filesystem.
pub open spec fn mutation_fails(
    step: MutationStep,
    operation: Seq<char>,
    path: Seq<char>,
    source: Seq<char>,
) -> bool {
    step matches MutationStep::Done(Err(error)) && is_io(error, operation, path, source)
}

/// The records that a mutation leaves, in the order in which they are handed on, or
/// nothing where it changes nothing.
pub open spec fn mutated(records: Seq<TrustedRecord>, mutation: Mutation) -> Option<
    Seq<TrustedRecord>,
> {
    match mutation {
        Mutation::Store(record) => Some(
            trusted_peers::without(records, record@.identity).push(record@),
        ),
        Mutation::Remove(identity) => if trusted_peers::binds(records, identity@) {
            Some(trusted_peers::without(records, identity@))
        } else {
            None
        },
    }
}

/// What a mutation reports once its change is durable.
pub open spec fn success_of(mutation: Mutation) -> MutationOutcome {
    match mutation {
        Mutation::Store(_) => MutationOutcome::Stored,
        Mutation::Remove(_) => MutationOutcome::Removal(TrustedPeerRemoval::Removed),
    }
}

/// The step that a mutation takes on the loaded records.
pub open spec fn is_mutation_of(
    step: MutationStep,
    records: Seq<TrustedRecord>,
    mutation: Mutation,
    harden: bool,
) -> bool {
    match mutated(records, mutation) {
        None => step == MutationStep::Done(
            Ok(MutationOutcome::Removal(TrustedPeerRemoval::AlreadyAbsent)),
        ),
        Some(after) => match trusted_peers::replacement_of(after) {
            Err(error) => step == MutationStep::Done(Err(error)),
            Ok(bytes) => step matches MutationStep::WriteTemporary {
                contents,
                harden_existing,
                outcome,
            } && contents@ == bytes && harden_existing == harden && outcome == success_of(mutation),
        },
    }
}

/// Whether a step of loading every record can follow another.
pub open spec fn load_follows(from: LoadStep, to: LoadStep) -> bool {
    ||| !(from is Done) && to matches LoadStep::Done(Err(_))
    ||| match from {
        LoadStep::HardenParent => to is HardenFile,
        LoadStep::HardenFile => to is Inspect,
        LoadStep::Inspect => to is Open || loads(to, Seq::empty()),
        LoadStep::Open => to is InspectOpen || loads(to, Seq::empty()),
        LoadStep::InspectOpen => to == (LoadStep::Read { ceiling: STORE_READ_CEILING }),
        LoadStep::Read { ceiling: _ } => exists|bytes: Seq<u8>|
            {
                &&& #[trigger] trusted_peers::store_of(bytes) is Ok
                &&& loads(to, trusted_peers::store_of(bytes)->Ok_0)
            },
        LoadStep::Done(_) => false,
    }
}

/// Whether a step of acquiring the exclusive mutation lock can follow another.
pub open spec fn lock_follows(from: LockStep, to: LockStep, harden: bool) -> bool {
    ||| !(from is Done) && to matches LockStep::Done(Err(_))
    ||| match from {
        LockStep::Inspect => to == (LockStep::PrepareParent { harden_existing: harden }),
        LockStep::PrepareParent { harden_existing: _ } => to == (LockStep::Open {
            mode: PRIVATE_FILE_MODE,
        }),
        LockStep::Open { mode: _ } => to is InspectOpen,
        LockStep::InspectOpen => to is Harden,
        LockStep::Harden => to is TryLock,
        LockStep::TryLock => to == LockStep::Done(Ok(())),
        LockStep::Done(_) => false,
    }
}

/// Whether a step of a mutation can follow another.
pub open spec fn follows(from: MutationStep, to: MutationStep) -> bool {
    ||| !(from is Done) && to matches MutationStep::Done(Err(_))
    ||| match from {
        MutationStep::Lock { mutation } => to == (MutationStep::Load { mutation }),
        MutationStep::Load { mutation } => exists|records: Seq<TrustedRecord>, harden: bool|
            #[trigger] is_mutation_of(to, records, mutation, harden),
        MutationStep::WriteTemporary { contents, harden_existing, outcome } => to
            == (MutationStep::Replace { outcome }),
        MutationStep::Replace { outcome } => to == (MutationStep::SyncFile { outcome }),
        MutationStep::SyncFile { outcome } => to == (MutationStep::SyncDirectory { outcome }),
        MutationStep::SyncDirectory { outcome } => to == MutationStep::Done(Ok(outcome)),
        MutationStep::Done(_) => false,
    }
}

/// A filesystem-backed store for durable trusted-peer records.
///
/// One versioned, bounded store file holds every record and is replaced
/// atomically on each mutation. `load` returns only fully validated records;
/// any corruption fails the whole load closed rather than silently dropping a
/// security-significant record.
#[derive(Debug)]
pub struct TrustedPeerStore {
    location: StoreLocation,
    harden_existing_parent: bool,
}

impl Clone for TrustedPeerStore {
    fn clone(&self) -> (r: Self)
        ensures
            r == *self,
    {
        TrustedPeerStore {
            location: self.location.clone(),
            harden_existing_parent: self.harden_existing_parent,
        }
    }
}

impl TrustedPeerStore {
    /// The path of the store file.
    pub closed spec fn path(self) -> Seq<char> {
        self.location.path@
    }

    /// The path of the lock file.
    pub closed spec fn lock_path(self) -> Seq<char> {
        self.location.lock_path@
    }

    /// Whether the containing directory belongs to the application.
    pub closed spec fn hardens_existing_parent(self) -> bool {
        self.harden_existing_parent
    }

    /// Opens the store in a directory of the application, where the platform provides
    /// one, alongside the local device identity files.
    pub fn for_current_user(located: Option<StoreLocation>) -> (r: Result<
        Self,
        TrustedPeerStoreError,
    >)
        ensures
            match located {
                Some(location) => r is Ok && r->Ok_0.path() == location.path@
                    && r->Ok_0.lock_path() == location.lock_path@
                    && r->Ok_0.hardens_existing_parent(),
                None => r == Err::<Self, TrustedPeerStoreError>(
                    TrustedPeerStoreError::ConfigDirectoryUnavailable,
                ),
            },
    {
        match located {
            Some(location) => Ok(TrustedPeerStore { location, harden_existing_parent: true }),
            None => Err(TrustedPeerStoreError::ConfigDirectoryUnavailable),
        }
    }

    /// Opens the store at a path that the caller chose.
    #[must_use]
    pub fn at(location: StoreLocation) -> (r: Self)
        ensures
            r.path() == location.path@,
            r.lock_path() == location.lock_path@,
            !r.hardens_existing_parent(),
    {
        TrustedPeerStore { location, harden_existing_parent: false }
    }

    /// Begins to load and validate every durable trusted-peer record.
    ///
    /// A missing store is an empty store. A store path that is a symbolic link
    /// or not a regular file, an oversized file, invalid UTF-8, an unrecognised
    /// or unsupported header, a malformed record, an over-count store, or a
    /// key identity bound twice is returned as a typed error and yields no
    /// records.
    pub fn load(&self) -> (r: LoadStep)
        ensures
            if self.hardens_existing_parent() {
                r is HardenParent
            } else {
                r is Inspect
            },
    {
        if self.harden_existing_parent {
            LoadStep::HardenParent
        } else {
            LoadStep::Inspect
        }
    }

    /// Goes on after restricting access to the containing directory.
    pub fn after_harden_parent(&self, outcome: Result<(), PersistenceError>) -> (r: LoadStep)
        ensures
            match outcome {
                Ok(_) => r is HardenFile,
                Err(error) => r matches LoadStep::Done(Err(e)) && comes_from(e, error@),
            },
            load_follows(LoadStep::HardenParent, r),
    {
        match outcome {
            Ok(_) => LoadStep::HardenFile,
            Err(error) => LoadStep::Done(Err(Self::persistence_error(error))),
        }
    }

    /// Goes on after restricting access to the store file.
    pub fn after_harden_file(&self, outcome: Result<(), PersistenceError>) -> (r: LoadStep)
        ensures
            match outcome {
                Ok(_) => r is Inspect,
                Err(error) => r matches LoadStep::Done(Err(e)) && comes_from(e, error@),
            },
            load_follows(LoadStep::HardenFile, r),
    {
        match outcome {
            Ok(_) => LoadStep::Inspect,
            Err(error) => LoadStep::Done(Err(Self::persistence_error(error))),
        }
    }

    /// Goes on after looking at the store path.
    pub fn after_inspect(&self, inspected: Inspection) -> (r: LoadStep)
        ensures
            match inspected {
                Inspection::Found(PathKind::RegularFile) => r is Open,
                Inspection::Found(kind) => r matches LoadStep::Done(Err(e)) && refuses_path(
                    e,
                    self.path(),
                    kind,
                ),
                Inspection::Absent => loads(r, Seq::empty()),
                Inspection::Failed(source) => load_fails(
                    r,
                    "inspect trusted-peer store"@,
                    self.path(),
                    source@,
                ),
            },
            load_follows(LoadStep::Inspect, r),
    {
        match inspected {
            Inspection::Found(PathKind::RegularFile) => LoadStep::Open,
            Inspection::Found(kind) => LoadStep::Done(
                Err(refused(self.location.path.as_str(), kind)),
            ),
            Inspection::Absent => LoadStep::Done(Ok(TrustedPeers::empty())),
            Inspection::Failed(source) => self.load_error("inspect trusted-peer store", source),
        }
    }

    /// Goes on after opening the store file.
    pub fn after_open(&self, outcome: OpenOutcome) -> (r: LoadStep)
        ensures
            match outcome {
                OpenOutcome::Opened => r is InspectOpen,
                OpenOutcome::Absent => loads(r, Seq::empty()),
                OpenOutcome::Failed(source) => load_fails(
                    r,
                    "open trusted-peer store"@,
                    self.path(),
                    source@,
                ),
            },
            load_follows(LoadStep::Open, r),
    {
        match outcome {
            OpenOutcome::Opened => LoadStep::InspectOpen,
            OpenOutcome::Absent => LoadStep::Done(Ok(TrustedPeers::empty())),
            OpenOutcome::Failed(source) => self.load_error("open trusted-peer store", source),
        }
    }

    /// Goes on after looking at the open file.
    pub fn after_inspect_open(&self, inspected: Result<OpenFile, String>) -> (r: LoadStep)
        ensures
            match inspected {
                Ok(file) => if !file.is_file {
                    r matches LoadStep::Done(Err(e)) && is_irregular(e, self.path())
                } else if file.len > MAX_TRUSTED_PEERS_STORE_BYTES {
                    r == LoadStep::Done(
                        Err(
                            TrustedPeerStoreError::StoreTooLarge {
                                size: file.len,
                                maximum: MAX_TRUSTED_PEERS_STORE_BYTES,
                            },
                        ),
                    )
                } else {
                    r == (LoadStep::Read { ceiling: STORE_READ_CEILING })
                },
                Err(source) => load_fails(
                    r,
                    "inspect open trusted-peer store"@,
                    self.path(),
                    source@,
                ),
            },
            load_follows(LoadStep::InspectOpen, r),
    {
        match inspected {
            Ok(file) => if !file.is_file {
                LoadStep::Done(
                    Err(TrustedPeerStoreError::NotRegularFile { path: self.location.path.clone() }),
                )
            } else if file.len > MAX_TRUSTED_PEERS_STORE_BYTES as u64 {
                LoadStep::Done(
                    Err(
                        TrustedPeerStoreError::StoreTooLarge {
                            size: file.len,
                            maximum: MAX_TRUSTED_PEERS_STORE_BYTES,
                        },
                    ),
                )
            } else {
                LoadStep::Read { ceiling: STORE_READ_CEILING }
            },
            Err(source) => self.load_error("inspect open trusted-peer store", source),
        }
    }

    /// Ends after reading the open file.
    pub fn after_read(&self, outcome: Result<Vec<u8>, String>) -> (r: LoadStep)
        ensures
            match outcome {
                Ok(bytes) => match trusted_peers::store_of(bytes@) {
                    Ok(records) => loads(r, records) && trusted_peers::is_peer_set(records),
                    Err(error) => r == LoadStep::Done(Err(error)),
                },
                Err(source) => load_fails(r, "read trusted-peer store"@, self.path(), source@),
            },
            load_follows(LoadStep::Read { ceiling: STORE_READ_CEILING }, r),
    {
        match outcome {
            Ok(bytes) => LoadStep::Done(decode(bytes.as_slice())),
            Err(source) => self.load_error("read trusted-peer store", source),
        }
    }

    /// Begins to acquire the exclusive mutation lock, without blocking.
    pub fn lock_exclusive(&self) -> (r: LockStep)
        ensures
            r is Inspect,
    {
        LockStep::Inspect
    }

    /// Goes on after looking at the lock path.
    pub fn after_inspect_lock(&self, inspected: Inspection) -> (r: LockStep)
        ensures
            match inspected {
                Inspection::Found(PathKind::RegularFile) | Inspection::Absent => r == (
                LockStep::PrepareParent { harden_existing: self.hardens_existing_parent() }),
                Inspection::Found(kind) => r matches LockStep::Done(Err(e)) && refuses_path(
                    e,
                    self.lock_path(),
                    kind,
                ),
                Inspection::Failed(source) => lock_fails(
                    r,
                    "inspect the trusted-peer lock"@,
                    self.lock_path(),
                    source@,
                ),
            },
            lock_follows(LockStep::Inspect, r, self.hardens_existing_parent()),
    {
        match inspected {
            Inspection::Found(PathKind::RegularFile) | Inspection::Absent =>
                LockStep::PrepareParent { harden_existing: self.harden_existing_parent },
            Inspection::Found(kind) => LockStep::Done(
                Err(refused(self.location.lock_path.as_str(), kind)),
            ),
            Inspection::Failed(source) => self.lock_error("inspect the trusted-peer lock", source),
        }
    }

    /// Goes on after making the containing directory ready.
    pub fn after_prepare_lock_parent(&self, outcome: Result<(), PersistenceError>) -> (r: LockStep)
        ensures
            match outcome {
                Ok(_) => r == (LockStep::Open { mode: PRIVATE_FILE_MODE }),
                Err(error) => r matches LockStep::Done(Err(e)) && comes_from(e, error@),
            },
            forall|harden_existing: bool| #[trigger]
                lock_follows(
                    LockStep::PrepareParent { harden_existing },
                    r,
                    self.hardens_existing_parent(),
                ),
    {
        match outcome {
            Ok(_) => LockStep::Open { mode: PRIVATE_FILE_MODE },
            Err(error) => LockStep::Done(Err(Self::persistence_error(error))),
        }
    }

    /// Goes on after opening the lock file.
    pub fn after_open_lock(&self, outcome: Result<(), String>) -> (r: LockStep)
        ensures
            match outcome {
                Ok(_) => r is InspectOpen,
                Err(source) => lock_fails(
                    r,
                    "open the trusted-peer lock"@,
                    self.lock_path(),
                    source@,
                ),
            },
            lock_follows(
                LockStep::Open { mode: PRIVATE_FILE_MODE },
                r,
                self.hardens_existing_parent(),
            ),
    {
        match outcome {
            Ok(_) => LockStep::InspectOpen,
            Err(source) => self.lock_error("open the trusted-peer lock", source),
        }
    }

    /// Goes on after looking at the open lock file.
    pub fn after_inspect_open_lock(&self, inspected: Result<OpenFile, String>) -> (r: LockStep)
        ensures
            match inspected {
                Ok(file) => if file.is_file {
                    r is Harden
                } else {
                    r matches LockStep::Done(Err(e)) && is_irregular(e, self.lock_path())
                },
                Err(source) => lock_fails(
                    r,
                    "inspect the trusted-peer lock"@,
                    self.lock_path(),
                    source@,
                ),
            },
            lock_follows(LockStep::InspectOpen, r, self.hardens_existing_parent()),
    {
        match inspected {
            Ok(file) => if file.is_file {
                LockStep::Harden
            } else {
                LockStep::Done(
                    Err(
                        TrustedPeerStoreError::NotRegularFile {
                            path: self.location.lock_path.clone(),
                        },
                    ),
                )
            },
            Err(source) => self.lock_error("inspect the trusted-peer lock", source),
        }
    }

    /// Goes on after restricting access to the lock file.
    pub fn after_harden_lock(&self, outcome: Result<(), PersistenceError>) -> (r: LockStep)
        ensures
            match outcome {
                Ok(_) => r is TryLock,
                Err(error) => r matches LockStep::Done(Err(e)) && comes_from(e, error@),
            },
            lock_follows(LockStep::Harden, r, self.hardens_existing_parent()),
    {
        match outcome {
            Ok(_) => LockStep::TryLock,
            Err(error) => LockStep::Done(Err(Self::persistence_error(error))),
        }
    }

    /// Ends after asking for the lock.
    pub fn after_try_lock(&self, outcome: LockOutcome) -> (r: LockStep)
        ensures
            match outcome {
                LockOutcome::Acquired => r == LockStep::Done(Ok(())),
                LockOutcome::WouldBlock => r == LockStep::Done(
                    Err(TrustedPeerStoreError::StoreBusy),
                ),
                LockOutcome::Failed(source) => lock_fails(
                    r,
                    "lock the trusted-peer store"@,
                    self.lock_path(),
                    source@,
                ),
            },
            lock_follows(LockStep::TryLock, r, self.hardens_existing_parent()),
    {
        match outcome {
            LockOutcome::Acquired => LockStep::Done(Ok(())),
            LockOutcome::WouldBlock => LockStep::Done(Err(TrustedPeerStoreError::StoreBusy)),
            LockOutcome::Failed(source) => self.lock_error("lock the trusted-peer store", source),
        }
    }

    /// Begins to store a trusted-peer record durably, keyed by its authenticated key
    /// identity.
    ///
    /// If the identity is already present, its record is replaced, which can only
    /// change the presentation label, never the identity binding. Success is reported
    /// only after the replacement and its flushes complete, and another process
    /// holding the lock is reported as busy.
    pub fn store(&self, record: TrustedPeerRecord) -> (r: MutationStep)
        ensures
            r == (MutationStep::Lock { mutation: Mutation::Store(record) }),
    {
        MutationStep::Lock { mutation: Mutation::Store(record) }
    }

    /// Begins to remove the trusted-peer record for an authenticated key identity
    /// durably.
    ///
    /// Removal is idempotent: an absent identity is reported as such, not as an error.
    pub fn remove(&self, identity: &PeerKeyIdentity) -> (r: MutationStep)
        ensures
            r matches MutationStep::Lock { mutation: Mutation::Remove(i) } && i@ == identity@,
    {
        MutationStep::Lock { mutation: Mutation::Remove(identity.clone()) }
    }

    /// Goes on after acquiring the lock.
    pub fn after_lock(&self, mutation: Mutation, outcome: Result<(), TrustedPeerStoreError>) -> (r:
        MutationStep)
        ensures
            match outcome {
                Ok(_) => r == (MutationStep::Load { mutation }),
                Err(error) => r == MutationStep::Done(Err(error)),
            },
            follows(MutationStep::Lock { mutation }, r),
    {
        match outcome {
            Ok(_) => MutationStep::Load { mutation },
            Err(error) => MutationStep::Done(Err(error)),
        }
    }

    /// Goes on after loading every record.
    pub fn after_load(
        &self,
        mutation: Mutation,
        loaded: Result<TrustedPeers, TrustedPeerStoreError>,
    ) -> (r: MutationStep)
        ensures
            match loaded {
                Ok(peers) => is_mutation_of(r, peers@, mutation, self.hardens_existing_parent()),
                Err(error) => r == MutationStep::Done(Err(error)),
            },
            follows(MutationStep::Load { mutation }, r),
    {
        let peers = match loaded {
            Ok(peers) => peers,
            Err(error) => return MutationStep::Done(Err(error)),
        };
        let ghost asked = mutation;
        let (replacement, outcome) = match mutation {
            Mutation::Store(record) => match bytes_with(&peers, record) {
                Ok(bytes) => (Ok(Some(bytes)), MutationOutcome::Stored),
                Err(error) => (Err(error), MutationOutcome::Stored),
            },
            Mutation::Remove(identity) => (
                bytes_without(&peers, &identity),
                MutationOutcome::Removal(TrustedPeerRemoval::Removed),
            ),
        };
        let step = match replacement {
            Ok(Some(contents)) => MutationStep::WriteTemporary {
                contents,
                harden_existing: self.harden_existing_parent,
                outcome,
            },
            Ok(None) => MutationStep::Done(
                Ok(MutationOutcome::Removal(TrustedPeerRemoval::AlreadyAbsent)),
            ),
            Err(error) => MutationStep::Done(Err(error)),
        };
        assert(is_mutation_of(step, peers@, asked, self.hardens_existing_parent()));
        step
    }

    /// Goes on after writing the temporary file.
    pub fn after_write_temporary(
        &self,
        contents: Vec<u8>,
        harden_existing: bool,
        outcome: MutationOutcome,
        written: Result<(), PersistenceError>,
    ) -> (r: MutationStep)
        ensures
            match written {
                Ok(_) => r == (MutationStep::Replace { outcome }),
                Err(error) => r matches MutationStep::Done(Err(e)) && comes_from(e, error@),
            },
            follows(MutationStep::WriteTemporary { contents, harden_existing, outcome }, r),
    {
        match written {
            Ok(_) => MutationStep::Replace { outcome },
            Err(error) => MutationStep::Done(Err(Self::persistence_error(error))),
        }
    }

    /// Goes on after moving the temporary file in place of the store file.
    pub fn after_replace(&self, outcome: MutationOutcome, replaced: Result<(), String>) -> (r:
        MutationStep)
        ensures
            match replaced {
                Ok(_) => r == (MutationStep::SyncFile { outcome }),
                Err(source) => mutation_fails(
                    r,
                    "replace trusted-peer store"@,
                    self.path(),
                    source@,
                ),
            },
            follows(MutationStep::Replace { outcome }, r),
    {
        match replaced {
            Ok(_) => MutationStep::SyncFile { outcome },
            Err(source) => self.mutation_error("replace trusted-peer store", source),
        }
    }

    /// Goes on after flushing the store file.
    pub fn after_sync_file(&self, outcome: MutationOutcome, synced: Result<(), String>) -> (r:
        MutationStep)
        ensures
            match synced {
                Ok(_) => r == (MutationStep::SyncDirectory { outcome }),
                Err(source) => mutation_fails(r, "sync trusted-peer store"@, self.path(), source@),
            },
            follows(MutationStep::SyncFile { outcome }, r),
    {
        match synced {
            Ok(_) => MutationStep::SyncDirectory { outcome },
            Err(source) => self.mutation_error("sync trusted-peer store", source),
        }
    }

    /// Ends after flushing the containing directory.
    pub fn after_sync_directory(&self, outcome: MutationOutcome, synced: Result<(), String>) -> (r:
        MutationStep)
        ensures
            match synced {
                Ok(_) => r == MutationStep::Done(Ok(outcome)),
                Err(source) => mutation_fails(
                    r,
                    "sync trusted-peer store directory"@,
                    self.path(),
                    source@,
                ),
            },
            follows(MutationStep::SyncDirectory { outcome }, r),
    {
        match synced {
            Ok(_) => MutationStep::Done(Ok(outcome)),
            Err(source) => self.mutation_error("sync trusted-peer store directory", source),
        }
    }

    /// Ends a load with a failure at the store path.
    fn load_error(&self, operation: &'static str, source: String) -> (r: LoadStep)
        ensures
            load_fails(r, operation@, self.path(), source@),
    {
        LoadStep::Done(
            Err(
                TrustedPeerStoreError::Io { operation, path: self.location.path.clone(), source },
            ),
        )
    }

    /// Ends the acquisition with a failure at the lock path.
    fn lock_error(&self, operation: &'static str, source: String) -> (r: LockStep)
        ensures
            lock_fails(r, operation@, self.lock_path(), source@),
    {
        LockStep::Done(
            Err(
                TrustedPeerStoreError::Io {
                    operation,
                    path: self.location.lock_path.clone(),
                    source,
                },
            ),
        )
    }

    /// Ends a mutation with a failure at the store path.
    fn mutation_error(&self, operation: &'static str, source: String) -> (r: MutationStep)
        ensures
            mutation_fails(r, operation@, self.path(), source@),
    {
        MutationStep::Done(
            Err(
                TrustedPeerStoreError::Io { operation, path: self.location.path.clone(), source },
            ),
        )
    }

    /// The store failure that a preparation failure amounts to.
    fn persistence_error(error: PersistenceError) -> (r: TrustedPeerStoreError)
        ensures
            comes_from(r, error@),
    {
        match error {
            PersistenceError::InvalidPath { path } => TrustedPeerStoreError::InvalidStorePath {
                path,
            },
            PersistenceError::Io { operation, path, source } => {
                let operation = match operation {
                    PersistenceOperation::InspectDirectory =>
                        "inspect trusted-peer store directory",
                    PersistenceOperation::CreateDirectory => "create trusted-peer store directory",
                    PersistenceOperation::HardenDirectory =>
                        "harden trusted-peer store directory permissions",
                    PersistenceOperation::HardenFile =>
                        "harden trusted-peer store file permissions",
                    PersistenceOperation::CreateTemporary => "create temporary trusted-peer store",
                    PersistenceOperation::WriteTemporary => "write temporary trusted-peer store",
                    PersistenceOperation::SyncTemporary => "sync temporary trusted-peer store",
                };
                TrustedPeerStoreError::Io { operation, path, source }
            },
        }
    }
}

/// Refuses a path for what it leads to.
fn refused(path: &str, kind: PathKind) -> (r: TrustedPeerStoreError)
    requires
        !(kind is RegularFile),
    ensures
        refuses_path(r, path@, kind),
{
    match kind {
        PathKind::Symlink => TrustedPeerStoreError::SymlinkNotAllowed { path: path.to_owned() },
        _ => TrustedPeerStoreError::NotRegularFile { path: path.to_owned() },
    }
}

/// Whether each step of a mutation follows the one before.
pub open spec fn is_run(steps: Seq<MutationStep>) -> bool {
    forall|i: int| 0 < i < steps.len() ==> follows(steps[i - 1], #[trigger] steps[i])
}

/// A mutation that reports its change has been through every step in order: the lock,
/// the load, the written bytes, the replacement and both flushes. A failure anywhere
/// is never reported as success.
pub proof fn success_follows_every_step(steps: Seq<MutationStep>, mutation: Mutation)
    requires
        is_run(steps),
        steps.len() > 0,
        steps[0] == (MutationStep::Lock { mutation }),
        steps.last() == MutationStep::Done(Ok(success_of(mutation))),
    ensures
        steps.len() == 7,
        steps[1] == (MutationStep::Load { mutation }),
        steps[2] matches MutationStep::WriteTemporary { contents, harden_existing, outcome }
            && outcome == success_of(mutation) && exists|records: Seq<TrustedRecord>|
            writes_mutation_of(contents@, records, mutation),
        steps[3] == (MutationStep::Replace { outcome: success_of(mutation) }),
        steps[4] == (MutationStep::SyncFile { outcome: success_of(mutation) }),
        steps[5] == (MutationStep::SyncDirectory { outcome: success_of(mutation) }),
{
    let outcome = success_of(mutation);
    assert(steps.len() >= 2);
    assert(follows(steps[0], steps[1]));
    assert(steps[1] == (MutationStep::Load { mutation }));
    assert(follows(steps[1], steps[2]));
    let (records, harden) = choose|records: Seq<TrustedRecord>, harden: bool| #[trigger]
        is_mutation_of(steps[2], records, mutation, harden);
    assert(steps[2] is WriteTemporary);
    assert(writes_mutation_of(steps[2]->contents@, records, mutation));
    assert(follows(steps[2], steps[3]));
    assert(steps[3] == (MutationStep::Replace { outcome }));
    assert(follows(steps[3], steps[4]));
    assert(follows(steps[4], steps[5]));
    assert(follows(steps[5], steps[6]));
    if steps.len() > 7 {
        assert(follows(steps[6], steps[7]));
    }
}

/// The bytes are what replaces the store for records after a mutation.
pub open spec fn writes_mutation_of(
    contents: Seq<u8>,
    records: Seq<TrustedRecord>,
    mutation: Mutation,
) -> bool {
    mutated(records, mutation) matches Some(after) && trusted_peers::replacement_of(after) == Ok::<
        Seq<u8>,
        TrustedPeerStoreError,
    >(contents)
}

/// What a mutation writes loads back as the loaded set with just that change: the
/// stored record in place of any that binds its identity, or no record of the removed
/// identity, and every other record as it was.
pub proof fn written_mutation_loads_back(
    contents: Seq<u8>,
    records: Seq<TrustedRecord>,
    mutation: Mutation,
)
    requires
        trusted_peers::is_peer_set(records),
        mutation matches Mutation::Store(record) ==> trusted_peers::is_record(record@),
        writes_mutation_of(contents, records, mutation),
    ensures
        trusted_peers::store_of(contents) matches Ok(after) && trusted_peers::is_peer_set(after)
            && match mutation {
            Mutation::Store(record) => {
                &&& forall|x: TrustedRecord| #[trigger]
                    after.contains(x) <==> x == record@ || (records.contains(x) && x.identity
                        != record@.identity)
                &&& after.len() == if trusted_peers::binds(records, record@.identity) {
                    records.len()
                } else {
                    records.len() + 1
                }
            },
            Mutation::Remove(identity) => {
                &&& forall|x: TrustedRecord| #[trigger]
                    after.contains(x) <==> records.contains(x) && x.identity != identity@
                &&& after.len() == records.len() - 1
            },
        },
{
    match mutation {
        Mutation::Store(record) => {
            trusted_peers::storing_replaces_only_its_identity(records, record@);
            trusted_peers::stored_record_loads_back(records, record@);
        },
        Mutation::Remove(identity) => {
            trusted_peers::removal_loads_back(records, identity@);
        },
    }
}

/// What a mutation does with a loaded set of peers. Removing an identity that no record
/// binds ends at once as already absent. Removing one that a record binds writes the set
/// without that one record. Storing a record writes the set with it whenever that has at
/// most 128 records and takes at most 65536 bytes, and is otherwise refused for just
/// that. What is written is handed on with the outcome that its success will have.
pub proof fn mutation_changes_only_its_record(
    step: MutationStep,
    records: Seq<TrustedRecord>,
    mutation: Mutation,
    harden: bool,
)
    requires
        is_mutation_of(step, records, mutation, harden),
        trusted_peers::is_peer_set(records),
        trusted_peers::fits_budget(records),
        mutation matches Mutation::Store(record) ==> trusted_peers::is_record(record@),
    ensures
        mutation matches Mutation::Remove(identity) ==> {
            &&& (forall|i: int|
                0 <= i < records.len() ==> (#[trigger] records[i]).identity != identity@) <==> step
                == MutationStep::Done(
                Ok(MutationOutcome::Removal(TrustedPeerRemoval::AlreadyAbsent)),
            )
            &&& forall|k: int|
                0 <= k < records.len() && (#[trigger] records[k]).identity == identity@ ==> {
                    &&& step matches MutationStep::WriteTemporary {
                        contents,
                        harden_existing,
                        outcome,
                    }
                    &&& harden_existing == harden
                    &&& outcome == MutationOutcome::Removal(TrustedPeerRemoval::Removed)
                    &&& trusted_peers::store_of(contents@) == Ok::<
                        Seq<TrustedRecord>,
                        TrustedPeerStoreError,
                    >(records.remove(k))
                }
        },
        mutation matches Mutation::Store(record) ==> {
            let after = trusted_peers::stored(records, record@);
            let size = 32 + trusted_peers::lines_size(after);
            &&& after.len() <= 128 && size <= 65536 ==> {
                &&& step matches MutationStep::WriteTemporary { contents, harden_existing, outcome }
                &&& harden_existing == harden
                &&& outcome == MutationOutcome::Stored
                &&& trusted_peers::store_of(contents@) == Ok::<
                    Seq<TrustedRecord>,
                    TrustedPeerStoreError,
                >(after)
            }
            &&& after.len() > 128 ==> (step matches MutationStep::Done(
                Err(TrustedPeerStoreError::CapacityExceeded { count, maximum }),
            ) && count == after.len() && maximum == 128)
            &&& after.len() <= 128 && size > 65536 ==> (step matches MutationStep::Done(
                Err(TrustedPeerStoreError::StoreTooLarge { size: found, maximum }),
            ) && maximum == 65536)
            &&& step !is Load && step !is Lock && step !is Replace
            &&& step matches MutationStep::Done(result) ==> result is Err
        },
{
    match mutation {
        Mutation::Remove(identity) => {
            trusted_peers::removal_takes_out_one_record(records, identity@);
            trusted_peers::removed_record_stays_removed(records, identity@);
        },
        Mutation::Store(record) => {
            let after = trusted_peers::stored(records, record@);
            let all = trusted_peers::without(records, record@.identity).push(record@);
            trusted_peers::storing_is_accepted_when_the_set_fits(records, record@);
            trusted_peers::replacement_is_refused_only_for_its_size(all);
            trusted_peers::lemma_stored_len(records, record@);
        },
    }
}

/// A load that yields records has looked at the path, opened the file, looked at the open
/// file and read no more than one byte past the budget of it; the records are then those
/// of some bytes as a whole. One of the application's own directory has restricted access
/// to the directory and the file before.
pub proof fn records_come_from_a_read_store(
    steps: Seq<LoadStep>,
    harden: bool,
    peers: TrustedPeers,
)
    requires
        forall|i: int| 0 < i < steps.len() ==> load_follows(steps[i - 1], #[trigger] steps[i]),
        steps.len() > 0,
        if harden {
            steps[0] is HardenParent
        } else {
            steps[0] is Inspect
        },
        steps.last() == LoadStep::Done(Ok(peers)),
        peers@.len() > 0,
    ensures
        ({
            let n: int = if harden {
                2
            } else {
                0
            };
            &&& steps.len() == n + 5
            &&& harden ==> steps[1] is HardenFile
            &&& steps[n] is Inspect
            &&& steps[n + 1] is Open
            &&& steps[n + 2] is InspectOpen
            &&& steps[n + 3] == (LoadStep::Read { ceiling: 65537 })
            &&& exists|bytes: Seq<u8>| #[trigger] trusted_peers::store_of(bytes) == Ok::<
                Seq<TrustedRecord>,
                TrustedPeerStoreError,
            >(peers@)
        }),
{
    let n: int = if harden {
        2
    } else {
        0
    };
    assert(steps.len() > 1);
    if harden {
        assert(load_follows(steps[0], steps[1]));
        assert(load_follows(steps[1], steps[2]));
    }
    assert(load_follows(steps[n], steps[n + 1]));
    if steps[n + 1] is Done && steps.len() > n + 2 {
        assert(load_follows(steps[n + 1], steps[n + 2]));
    }
    assert(load_follows(steps[n + 1], steps[n + 2]));
    if steps[n + 2] is Done && steps.len() > n + 3 {
        assert(load_follows(steps[n + 2], steps[n + 3]));
    }
    assert(load_follows(steps[n + 2], steps[n + 3]));
    assert(load_follows(steps[n + 3], steps[n + 4]));
    if steps.len() > n + 5 {
        assert(load_follows(steps[n + 4], steps[n + 5]));
    }
}

/// The lock is held only after every step of acquiring it: looking at the path, making
/// the directory ready, opening the file for its owner alone, looking at the open file,
/// restricting access to it, and asking for the lock.
pub proof fn lock_follows_every_step(steps: Seq<LockStep>, harden: bool)
    requires
        forall|i: int|
            0 < i < steps.len() ==> lock_follows(steps[i - 1], #[trigger] steps[i], harden),
        steps.len() > 0,
        steps[0] is Inspect,
        steps.last() == LockStep::Done(Ok(())),
    ensures
        steps.len() == 7,
        steps[1] == (LockStep::PrepareParent { harden_existing: harden }),
        steps[2] == (LockStep::Open { mode: 0o600 }),
        steps[3] is InspectOpen,
        steps[4] is Harden,
        steps[5] is TryLock,
{
    assert(steps.len() > 1);
    assert(lock_follows(steps[0], steps[1], harden));
    assert(lock_follows(steps[1], steps[2], harden));
    assert(lock_follows(steps[2], steps[3], harden));
    assert(lock_follows(steps[3], steps[4], harden));
    assert(lock_follows(steps[4], steps[5], harden));
    assert(lock_follows(steps[5], steps[6], harden));
    if steps.len() > 7 {
        assert(lock_follows(steps[6], steps[7], harden));
    }
}

/// A store failure keeps the path and the cause of the preparation failure behind it, and
/// says which operation failed.
pub proof fn store_failure_keeps_its_cause(
    error: TrustedPeerStoreError,
    cause: PersistenceErrorModel,
)
    requires
        comes_from(error, cause),
    ensures
        cause matches PersistenceErrorModel::InvalidPath(path) ==> (
        error matches TrustedPeerStoreError::InvalidStorePath { path: p } && p@ == path),
        cause matches PersistenceErrorModel::Io(operation, path, source) ==> (
        error matches TrustedPeerStoreError::Io { operation: o, path: p, source: s } && p@ == path
            && s@ == source && o@ == store_operation(operation)),
{
}

/// Each operation is called by what it does and what it does it to, so that no two are
/// called the same.
pub proof fn operations_are_named_for_what_they_do()
    ensures
        store_operation(PersistenceOperation::InspectDirectory).take(8) == "inspect "@,
        store_operation(PersistenceOperation::InspectDirectory).skip(27) == "directory"@,
        store_operation(PersistenceOperation::CreateDirectory).take(7) == "create "@,
        store_operation(PersistenceOperation::CreateDirectory).skip(26) == "directory"@,
        store_operation(PersistenceOperation::HardenDirectory).take(7) == "harden "@,
        store_operation(PersistenceOperation::HardenDirectory).skip(26) == "directory permissions"@,
        store_operation(PersistenceOperation::HardenFile).take(7) == "harden "@,
        store_operation(PersistenceOperation::HardenFile).skip(26) == "file permissions"@,
        store_operation(PersistenceOperation::CreateTemporary).take(17) == "create temporary "@,
        store_operation(PersistenceOperation::WriteTemporary).take(16) == "write temporary "@,
        store_operation(PersistenceOperation::SyncTemporary).take(15) == "sync temporary "@,
{
    reveal_strlit("create ");
    reveal_strlit("create temporary ");
    reveal_strlit("create temporary trusted-peer store");
    reveal_strlit("create trusted-peer store directory");
    reveal_strlit("directory");
    reveal_strlit("directory permissions");
    reveal_strlit("file permissions");
    reveal_strlit("harden ");
    reveal_strlit("harden trusted-peer store directory permissions");
    reveal_strlit("harden trusted-peer store file permissions");
    reveal_strlit("inspect ");
    reveal_strlit("inspect trusted-peer store directory");
    reveal_strlit("sync temporary ");
    reveal_strlit("sync temporary trusted-peer store");
    reveal_strlit("write temporary ");
    reveal_strlit("write temporary trusted-peer store");
    assert("inspect trusted-peer store directory"@.take(8) =~= "inspect "@);
    assert("inspect trusted-peer store directory"@.skip(27) =~= "directory"@);
    assert("create trusted-peer store directory"@.take(7) =~= "create "@);
    assert("create trusted-peer store directory"@.skip(26) =~= "directory"@);
    assert("harden trusted-peer store directory permissions"@.take(7) =~= "harden "@);
    assert("harden trusted-peer store directory permissions"@.skip(26) =~= "directory permissions"@);
    assert("harden trusted-peer store file permissions"@.take(7) =~= "harden "@);
    assert("harden trusted-peer store file permissions"@.skip(26) =~= "file permissions"@);
    assert("create temporary trusted-peer store"@.take(17) =~= "create temporary "@);
    assert("write temporary trusted-peer store"@.take(16) =~= "write temporary "@);
    assert("sync temporary trusted-peer store"@.take(15) =~= "sync temporary "@);
}

/// A path is refused for what it leads to: a symbolic link as such, and a directory or
/// anything else as no regular file, each with the path. A regular file is never refused.
pub proof fn refusal_names_the_path(
    error: TrustedPeerStoreError,
    path: Seq<char>,
    kind: PathKind,
)
    requires
        refuses_path(error, path, kind),
    ensures
        kind != PathKind::RegularFile,
        kind == PathKind::Symlink ==> (error matches TrustedPeerStoreError::SymlinkNotAllowed {
            path: p,
        } && p@ == path),
        kind != PathKind::Symlink ==> (error matches TrustedPeerStoreError::NotRegularFile {
            path: p,
        } && p@ == path),
{
}

} // verus!
