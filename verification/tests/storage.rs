//! The device state and the trusted-peer store, driven against a filesystem in memory.

use std::cell::RefCell;
use std::collections::{BTreeMap, BTreeSet};
use std::rc::Rc;

use local_transfer_core::device_name::{
    DeviceName, DeviceNameError, DeviceNameErrorSource, DeviceNameStep, DeviceNameStore,
    DeviceNameValidationError, DEFAULT_DEVICE_NAME, MAX_DEVICE_NAME_CHARS,
};
use local_transfer_core::identity::{
    DeviceId, DeviceIdError, DeviceIdErrorSource, DeviceIdStep, DeviceIdStore,
};
use local_transfer_core::local_device::{
    LocalDeviceErrorSource, LocalDeviceStep, StorePaths,
};
use local_transfer_core::persistence::{
    create_synced_temporary, existing_file_hardened, existing_file_inspected,
    existing_parent_hardened, existing_parent_inspected, harden_existing_file,
    harden_existing_parent, parent_created, parent_hardened, parent_inspected, prepare_parent,
    temporary_created, temporary_hardened, temporary_synced, temporary_written, HardenStep,
    Inspection, ParentStep, PathKind, PersistOutcome, PersistenceError, ReadOutcome,
    TemporaryStep,
};
use local_transfer_core::platform::Platform;
use local_transfer_core::trusted_peer_store::{
    lock_file_name, LoadStep, LockOutcome, LockStep, MutationOutcome, MutationStep, OpenFile,
    OpenOutcome, StoreLocation, TrustedPeerRemoval, TrustedPeerStore,
};
use local_transfer_core::trusted_peers::{
    MalformedStoreReason, PeerKeyIdentity, TrustedPeerLabel, TrustedPeerRecord,
    TrustedPeerStoreError, TrustedPeers, MAX_PEER_IDENTITY_BYTES, MAX_TRUSTED_PEERS,
    MAX_TRUSTED_PEERS_STORE_BYTES, MAX_TRUSTED_PEER_LABEL_CHARS,
};
use local_transfer_core::{LocalDevice, LocalDeviceError, LocalDeviceManager};

// ----- a filesystem in memory -----

#[derive(Clone)]
enum Node {
    File { bytes: Vec<u8>, mode: u32 },
    Directory { mode: u32 },
    Link(String),
}

#[derive(Default)]
struct State {
    nodes: BTreeMap<String, Node>,
    locks: BTreeSet<String>,
    temporaries: usize,
    failing: BTreeSet<&'static str>,
}

/// A handle to one filesystem. Its root directory is `/t`.
#[derive(Clone)]
struct Disk(Rc<RefCell<State>>);

fn parent_of(path: &str) -> Option<String> {
    path.rfind('/').map(|end| path[..end].to_owned())
}

impl Disk {
    fn new() -> Self {
        let mut state = State::default();
        state.nodes.insert("/t".to_owned(), Node::Directory { mode: 0o700 });
        Self(Rc::new(RefCell::new(state)))
    }

    /// Makes every later operation of this name fail.
    fn fail(&self, operation: &'static str) {
        self.0.borrow_mut().failing.insert(operation);
    }

    fn check(&self, operation: &'static str) -> Result<(), String> {
        if self.0.borrow().failing.contains(operation) {
            Err(format!("injected {operation} failure"))
        } else {
            Ok(())
        }
    }

    fn node(&self, path: &str) -> Option<Node> {
        self.0.borrow().nodes.get(path).cloned()
    }

    fn has(&self, path: &str) -> bool {
        self.node(path).is_some()
    }

    fn inspect(&self, path: &str) -> Inspection {
        if let Err(source) = self.check("inspect") {
            return Inspection::Failed(source);
        }
        if let Some(parent) = parent_of(path) {
            if matches!(self.node(&parent), Some(Node::File { .. })) {
                return Inspection::Failed("not a directory".to_owned());
            }
        }
        match self.node(path) {
            None => Inspection::Absent,
            Some(Node::File { .. }) => Inspection::Found(PathKind::RegularFile),
            Some(Node::Directory { .. }) => Inspection::Found(PathKind::Directory),
            Some(Node::Link(_)) => Inspection::Found(PathKind::Symlink),
        }
    }

    fn read(&self, path: &str) -> Result<Option<Vec<u8>>, String> {
        self.check("read")?;
        if let Some(parent) = parent_of(path) {
            if matches!(self.node(&parent), Some(Node::File { .. })) {
                return Err("not a directory".to_owned());
            }
        }
        match self.node(path) {
            None => Ok(None),
            Some(Node::File { bytes, .. }) => Ok(Some(bytes)),
            Some(Node::Directory { .. }) => Err("is a directory".to_owned()),
            Some(Node::Link(target)) => self.read(&target),
        }
    }

    fn read_text(&self, path: &str) -> ReadOutcome {
        match self.read(path) {
            Ok(Some(bytes)) => match String::from_utf8(bytes) {
                Ok(text) => ReadOutcome::Text(text),
                Err(_) => ReadOutcome::Failed("stream did not contain valid UTF-8".to_owned()),
            },
            Ok(None) => ReadOutcome::Absent,
            Err(source) => ReadOutcome::Failed(source),
        }
    }

    fn read_raced(&self, path: &str) -> Result<String, String> {
        match self.read_text(path) {
            ReadOutcome::Text(text) => Ok(text),
            ReadOutcome::Absent => Err("not found".to_owned()),
            ReadOutcome::Failed(source) => Err(source),
        }
    }

    /// Puts a file in place, whatever the permissions.
    fn put(&self, path: &str, contents: impl AsRef<[u8]>) {
        self.create_dir_all(&parent_of(path).unwrap()).unwrap();
        self.0.borrow_mut().nodes.insert(
            path.to_owned(),
            Node::File { bytes: contents.as_ref().to_vec(), mode: 0o644 },
        );
    }

    fn bytes(&self, path: &str) -> Vec<u8> {
        self.read(path).unwrap().unwrap()
    }

    fn size(&self, path: &str) -> u64 {
        match self.node(path) {
            Some(Node::File { bytes, .. }) => bytes.len() as u64,
            _ => 0,
        }
    }

    fn text(&self, path: &str) -> String {
        String::from_utf8(self.bytes(path)).unwrap()
    }

    fn remove(&self, path: &str) {
        self.0.borrow_mut().nodes.remove(path);
    }

    fn link(&self, path: &str, target: &str) {
        self.create_dir_all(&parent_of(path).unwrap()).unwrap();
        self.0.borrow_mut().nodes.insert(path.to_owned(), Node::Link(target.to_owned()));
    }

    fn create_dir_all(&self, path: &str) -> Result<(), String> {
        self.check("mkdir")?;
        match self.node(path) {
            Some(Node::Directory { .. }) => return Ok(()),
            Some(_) => return Err("file exists".to_owned()),
            None => {}
        }
        if let Some(parent) = parent_of(path) {
            if !parent.is_empty() {
                self.create_dir_all(&parent)?;
            }
        }
        self.0
            .borrow_mut()
            .nodes
            .insert(path.to_owned(), Node::Directory { mode: 0o755 });
        Ok(())
    }

    fn mode(&self, path: &str) -> u32 {
        match self.node(path).unwrap() {
            Node::File { mode, .. } | Node::Directory { mode } => mode,
            Node::Link(target) => self.mode(&target),
        }
    }

    fn chmod(&self, path: &str, new_mode: u32) -> Result<(), String> {
        self.check("chmod")?;
        let target = match self.node(path) {
            Some(Node::Link(target)) => target,
            _ => path.to_owned(),
        };
        match self.0.borrow_mut().nodes.get_mut(&target) {
            Some(Node::File { mode, .. } | Node::Directory { mode }) => *mode = new_mode,
            _ => return Err("not found".to_owned()),
        }
        Ok(())
    }

    fn writable(&self, directory: &str) -> Result<(), String> {
        match self.node(directory) {
            Some(Node::Directory { mode }) if mode & 0o200 != 0 => Ok(()),
            Some(Node::Directory { .. }) => Err("permission denied".to_owned()),
            _ => Err("not a directory".to_owned()),
        }
    }

    fn create_temporary(&self, directory: &str) -> Result<String, String> {
        self.check("create")?;
        self.writable(directory)?;
        let mut state = self.0.borrow_mut();
        state.temporaries += 1;
        let path = format!("{directory}/.tmp{}", state.temporaries);
        state.nodes.insert(path.clone(), Node::File { bytes: Vec::new(), mode: 0o644 });
        Ok(path)
    }

    fn write(&self, path: &str, contents: &[u8]) -> Result<(), String> {
        self.check("write")?;
        match self.0.borrow_mut().nodes.get_mut(path) {
            Some(Node::File { bytes, .. }) => {
                bytes.extend_from_slice(contents);
                Ok(())
            }
            _ => Err("not found".to_owned()),
        }
    }

    fn sync(&self, operation: &'static str) -> Result<(), String> {
        self.check(operation)
    }

    fn replace(&self, temporary: &str, path: &str) -> Result<(), String> {
        self.check("persist")?;
        self.writable(&parent_of(path).unwrap())?;
        let node = self.node(temporary).unwrap();
        self.remove(temporary);
        self.0.borrow_mut().nodes.insert(path.to_owned(), node);
        Ok(())
    }

    fn persist_new(&self, temporary: &str, path: &str) -> PersistOutcome {
        if self.has(path) {
            self.remove(temporary);
            return PersistOutcome::AlreadyExists;
        }
        match self.replace(temporary, path) {
            Ok(()) => PersistOutcome::Done,
            Err(source) => PersistOutcome::Failed(source),
        }
    }
}

// ----- the steps of the preparation of private files -----

fn run_harden_file(disk: &Disk, path: &str) -> Result<(), PersistenceError> {
    let mut step = harden_existing_file();
    loop {
        step = match step {
            HardenStep::Inspect => existing_file_inspected(path, disk.inspect(path)),
            HardenStep::SetPermissions { mode } => {
                existing_file_hardened(path, disk.chmod(path, mode))
            }
            HardenStep::Done(result) => return result,
        };
    }
}

fn run_harden_parent(disk: &Disk, path: &str) -> Result<(), PersistenceError> {
    let parent = parent_of(path);
    let directory = parent.as_deref().unwrap_or("");
    let mut step = harden_existing_parent(path, parent.as_deref());
    loop {
        step = match step {
            HardenStep::Inspect => existing_parent_inspected(directory, disk.inspect(directory)),
            HardenStep::SetPermissions { mode } => {
                existing_parent_hardened(directory, disk.chmod(directory, mode))
            }
            HardenStep::Done(result) => return result,
        };
    }
}

fn run_prepare_parent(
    disk: &Disk,
    path: &str,
    harden_existing: bool,
) -> Result<(), PersistenceError> {
    let parent = parent_of(path);
    let directory = parent.as_deref().unwrap_or("");
    let mut step = prepare_parent(path, parent.as_deref());
    loop {
        step = match step {
            ParentStep::Inspect => {
                parent_inspected(directory, harden_existing, disk.inspect(directory))
            }
            ParentStep::Create { harden } => {
                parent_created(directory, harden, disk.create_dir_all(directory))
            }
            ParentStep::Harden { mode } => {
                parent_hardened(directory, disk.chmod(directory, mode))
            }
            ParentStep::Done(result) => return result,
        };
    }
}

fn run_temporary(
    disk: &Disk,
    path: &str,
    contents: &[u8],
    harden_existing: bool,
) -> Result<String, PersistenceError> {
    let mut step = create_synced_temporary(run_prepare_parent(disk, path, harden_existing));
    let directory = parent_of(path).unwrap_or_default();
    let mut temporary = String::new();
    loop {
        step = match step {
            TemporaryStep::Create => match disk.create_temporary(&directory) {
                Ok(created) => {
                    temporary = created;
                    temporary_created(&directory, Ok(()))
                }
                Err(source) => temporary_created(&directory, Err(source)),
            },
            TemporaryStep::Harden { mode } => {
                temporary_hardened(&temporary, disk.chmod(&temporary, mode))
            }
            TemporaryStep::Write => {
                temporary_written(&temporary, disk.write(&temporary, contents))
            }
            TemporaryStep::Sync => temporary_synced(&temporary, disk.sync("sync temporary")),
            TemporaryStep::Done(Ok(())) => return Ok(temporary),
            TemporaryStep::Done(Err(error)) => return Err(error),
        };
    }
}

// ----- the steps of the stores -----

struct IdStore {
    disk: Disk,
    path: String,
    store: DeviceIdStore,
}

impl IdStore {
    fn in_app_config(disk: &Disk, path: &str) -> Self {
        Self {
            disk: disk.clone(),
            path: path.to_owned(),
            store: DeviceIdStore::in_app_config(path.to_owned()),
        }
    }

    fn new(disk: &Disk, path: &str) -> Self {
        Self {
            disk: disk.clone(),
            path: path.to_owned(),
            store: DeviceIdStore::new(path.to_owned()),
        }
    }

    fn load_or_create(&self) -> Result<DeviceId, DeviceIdError> {
        self.run(&self.store, || {})
    }

    /// Runs the steps, with something else happening just before the file is moved
    /// into place.
    fn run(
        &self,
        store: &DeviceIdStore,
        mut meanwhile: impl FnMut(),
    ) -> Result<DeviceId, DeviceIdError> {
        let disk = &self.disk;
        let mut temporary = String::new();
        let mut step = store.load_or_create();
        loop {
            step = match step {
                DeviceIdStep::HardenParent => {
                    store.after_harden_parent(run_harden_parent(disk, &self.path))
                }
                DeviceIdStep::HardenFile => {
                    store.after_harden_file(run_harden_file(disk, &self.path))
                }
                DeviceIdStep::Read => store.after_read(disk.read_text(&self.path)),
                DeviceIdStep::WriteTemporary { id, contents, harden_existing } => {
                    let written =
                        run_temporary(disk, &self.path, contents.as_bytes(), harden_existing);
                    let outcome = match written {
                        Ok(created) => {
                            temporary = created;
                            Ok(())
                        }
                        Err(error) => Err(error),
                    };
                    store.after_write_temporary(id, contents, harden_existing, outcome)
                }
                DeviceIdStep::Persist { id } => {
                    meanwhile();
                    store.after_persist(id, disk.persist_new(&temporary, &self.path))
                }
                DeviceIdStep::SyncFile { id } => store.after_sync_file(id, disk.sync("sync")),
                DeviceIdStep::HardenRaced => {
                    store.after_harden_raced(run_harden_file(disk, &self.path))
                }
                DeviceIdStep::ReadRaced => store.after_read_raced(disk.read_raced(&self.path)),
                DeviceIdStep::Done(result) => return result,
            };
        }
    }
}

fn run_name(
    disk: &Disk,
    path: &str,
    store: &DeviceNameStore,
    first: DeviceNameStep,
    mut meanwhile: impl FnMut(),
) -> Result<DeviceName, DeviceNameError> {
    let mut temporary = String::new();
    let mut step = first;
    loop {
        step = match step {
            DeviceNameStep::HardenParent => {
                store.after_harden_parent(run_harden_parent(disk, path))
            }
            DeviceNameStep::HardenFile => store.after_harden_file(run_harden_file(disk, path)),
            DeviceNameStep::Read => store.after_read(disk.read_text(path)),
            DeviceNameStep::WriteTemporary { name, contents, harden_existing, replace } => {
                match run_temporary(disk, path, contents.as_bytes(), harden_existing) {
                    Ok(created) => {
                        temporary = created;
                        store.after_write_temporary(name, replace, Ok(()))
                    }
                    Err(error) => store.after_write_temporary(name, replace, Err(error)),
                }
            }
            DeviceNameStep::PersistNew { name } => {
                meanwhile();
                store.after_persist_new(name, disk.persist_new(&temporary, path))
            }
            DeviceNameStep::Replace { name } => {
                store.after_replace(name, disk.replace(&temporary, path))
            }
            DeviceNameStep::SyncFile { name } => store.after_sync_file(name, disk.sync("sync")),
            DeviceNameStep::HardenRaced => store.after_harden_raced(run_harden_file(disk, path)),
            DeviceNameStep::ReadRaced => store.after_read_raced(disk.read_raced(path)),
            DeviceNameStep::Done(result) => return result,
        };
    }
}

struct NameStore {
    disk: Disk,
    path: String,
    store: DeviceNameStore,
}

impl NameStore {
    fn new(disk: &Disk, path: &str) -> Self {
        Self {
            disk: disk.clone(),
            path: path.to_owned(),
            store: DeviceNameStore::new(path.to_owned()),
        }
    }

    fn in_app_config(disk: &Disk, path: &str) -> Self {
        Self { store: DeviceNameStore::in_app_config(path.to_owned()), ..Self::new(disk, path) }
    }

    fn load_or_create(&self) -> Result<DeviceName, DeviceNameError> {
        run_name(&self.disk, &self.path, &self.store, self.store.load_or_create(), || {})
    }

    fn update(&self, value: &str) -> Result<DeviceName, DeviceNameError> {
        run_name(&self.disk, &self.path, &self.store, self.store.update(value), || {})
    }
}

struct Manager {
    disk: Disk,
    ids: IdStore,
    name_path: String,
    manager: LocalDeviceManager,
    target_os: &'static str,
}

fn paths_in(directory: &str) -> StorePaths {
    StorePaths {
        device_id: format!("{directory}/device-id"),
        device_name: format!("{directory}/device-name"),
    }
}

impl Manager {
    fn for_test(disk: &Disk) -> Self {
        Self {
            disk: disk.clone(),
            ids: IdStore::new(disk, "/t/device-id"),
            name_path: "/t/device-name".to_owned(),
            manager: LocalDeviceManager::at(paths_in("/t")),
            target_os: "linux",
        }
    }

    fn load(&self) -> Result<LocalDevice, LocalDeviceError> {
        let manager = &self.manager;
        let mut step = manager.load(Platform::from_target_os(self.target_os));
        loop {
            step = match step {
                LocalDeviceStep::LoadId { platform, first } => {
                    assert!(matches!(first, DeviceIdStep::HardenFile));
                    manager.after_load_id(platform, self.ids.run(manager.id_store(), || {}))
                }
                LocalDeviceStep::LoadName { platform, id, first } => {
                    let loaded = run_name(
                        &self.disk,
                        &self.name_path,
                        manager.name_store(),
                        first,
                        || {},
                    );
                    manager.after_load_name(platform, id, loaded)
                }
                LocalDeviceStep::Done(result) => return result,
            };
        }
    }

    fn update_name(&self, value: &str) -> Result<DeviceName, LocalDeviceError> {
        let updated = run_name(
            &self.disk,
            &self.name_path,
            self.manager.name_store(),
            self.manager.update_name(value),
            || {},
        );
        self.manager.after_update_name(updated)
    }
}

struct PeerStore {
    disk: Disk,
    path: String,
    lock_path: String,
    store: TrustedPeerStore,
}

/// Holds the exclusive lock until it is dropped.
struct Guard {
    disk: Disk,
    lock_path: String,
}

impl Drop for Guard {
    fn drop(&mut self) {
        self.disk.0.borrow_mut().locks.remove(&self.lock_path);
    }
}

impl PeerStore {
    fn location(path: &str) -> StoreLocation {
        let (directory, name) = path.rsplit_once('/').unwrap();
        StoreLocation {
            path: path.to_owned(),
            lock_path: format!("{directory}/{}", lock_file_name(Some(name))),
        }
    }

    fn at(disk: &Disk, path: &str) -> Self {
        let location = Self::location(path);
        Self {
            disk: disk.clone(),
            path: path.to_owned(),
            lock_path: location.lock_path.clone(),
            store: TrustedPeerStore::at(location),
        }
    }

    fn in_app_config(disk: &Disk, path: &str) -> Self {
        Self {
            store: TrustedPeerStore::for_current_user(Some(Self::location(path))).unwrap(),
            ..Self::at(disk, path)
        }
    }

    fn load(&self) -> Result<TrustedPeers, TrustedPeerStoreError> {
        let (disk, store) = (&self.disk, &self.store);
        let mut step = store.load();
        loop {
            step = match step {
                LoadStep::HardenParent => {
                    store.after_harden_parent(run_harden_parent(disk, &self.path))
                }
                LoadStep::HardenFile => store.after_harden_file(run_harden_file(disk, &self.path)),
                LoadStep::Inspect => store.after_inspect(disk.inspect(&self.path)),
                LoadStep::Open => store.after_open(match disk.check("open") {
                    Err(source) => OpenOutcome::Failed(source),
                    Ok(()) if disk.has(&self.path) => OpenOutcome::Opened,
                    Ok(()) => OpenOutcome::Absent,
                }),
                LoadStep::InspectOpen => store.after_inspect_open(match disk.check("stat") {
                    Err(source) => Err(source),
                    Ok(()) => {
                        Ok(OpenFile { is_file: true, len: disk.size(&self.path) })
                    }
                }),
                LoadStep::Read { ceiling } => store.after_read(match disk.read(&self.path) {
                    Err(source) => Err(source),
                    Ok(bytes) => {
                        let mut bytes = bytes.unwrap();
                        bytes.truncate(ceiling as usize);
                        Ok(bytes)
                    }
                }),
                LoadStep::Done(result) => return result,
            };
        }
    }

    fn hold_exclusive_lock(&self) -> Result<Guard, TrustedPeerStoreError> {
        let (disk, store) = (&self.disk, &self.store);
        let mut step = store.lock_exclusive();
        loop {
            step = match step {
                LockStep::Inspect => store.after_inspect_lock(disk.inspect(&self.lock_path)),
                LockStep::PrepareParent { harden_existing } => store.after_prepare_lock_parent(
                    run_prepare_parent(disk, &self.lock_path, harden_existing),
                ),
                LockStep::Open { mode } => store.after_open_lock(self.open_lock(mode)),
                LockStep::InspectOpen => store.after_inspect_open_lock(match disk.check("stat") {
                    Err(source) => Err(source),
                    Ok(()) => Ok(OpenFile { is_file: true, len: 0 }),
                }),
                LockStep::Harden => {
                    store.after_harden_lock(run_harden_file(disk, &self.lock_path))
                }
                LockStep::TryLock => store.after_try_lock(match disk.check("lock") {
                    Err(source) => LockOutcome::Failed(source),
                    Ok(()) => {
                        if disk.0.borrow_mut().locks.insert(self.lock_path.clone()) {
                            LockOutcome::Acquired
                        } else {
                            LockOutcome::WouldBlock
                        }
                    }
                }),
                LockStep::Done(Ok(())) => {
                    return Ok(Guard {
                        disk: disk.clone(),
                        lock_path: self.lock_path.clone(),
                    });
                }
                LockStep::Done(Err(error)) => return Err(error),
            };
        }
    }

    fn open_lock(&self, mode: u32) -> Result<(), String> {
        self.disk.check("open lock")?;
        if !self.disk.has(&self.lock_path) {
            self.disk.writable(&parent_of(&self.lock_path).unwrap())?;
            self.disk.0.borrow_mut().nodes.insert(
                self.lock_path.clone(),
                Node::File { bytes: Vec::new(), mode },
            );
        }
        Ok(())
    }

    fn mutate(&self, first: MutationStep) -> Result<MutationOutcome, TrustedPeerStoreError> {
        let (disk, store) = (&self.disk, &self.store);
        let mut guard = None;
        let mut temporary = String::new();
        let mut step = first;
        loop {
            step = match step {
                MutationStep::Lock { mutation } => match self.hold_exclusive_lock() {
                    Ok(held) => {
                        guard = Some(held);
                        store.after_lock(mutation, Ok(()))
                    }
                    Err(error) => store.after_lock(mutation, Err(error)),
                },
                MutationStep::Load { mutation } => {
                    assert!(guard.is_some());
                    store.after_load(mutation, self.load())
                }
                MutationStep::WriteTemporary { contents, harden_existing, outcome } => {
                    match run_temporary(disk, &self.path, &contents, harden_existing) {
                        Ok(created) => {
                            temporary = created;
                            store.after_write_temporary(contents, harden_existing, outcome, Ok(()))
                        }
                        Err(error) => store.after_write_temporary(
                            contents,
                            harden_existing,
                            outcome,
                            Err(error),
                        ),
                    }
                }
                MutationStep::Replace { outcome } => {
                    store.after_replace(outcome, disk.replace(&temporary, &self.path))
                }
                MutationStep::SyncFile { outcome } => {
                    store.after_sync_file(outcome, disk.sync("sync"))
                }
                MutationStep::SyncDirectory { outcome } => {
                    store.after_sync_directory(outcome, disk.sync("sync directory"))
                }
                MutationStep::Done(result) => return result,
            };
        }
    }

    fn store(&self, record: TrustedPeerRecord) -> Result<(), TrustedPeerStoreError> {
        match self.mutate(self.store.store(record))? {
            MutationOutcome::Stored => Ok(()),
            other => panic!("expected a stored record, got {other:?}"),
        }
    }

    fn remove(
        &self,
        identity: &PeerKeyIdentity,
    ) -> Result<TrustedPeerRemoval, TrustedPeerStoreError> {
        match self.mutate(self.store.remove(identity))? {
            MutationOutcome::Removal(removal) => Ok(removal),
            other => panic!("expected a removal, got {other:?}"),
        }
    }
}

// ----- the device identifier -----

#[test]
fn first_initialization_generates_and_persists_a_version_four_uuid() {
    let disk = Disk::new();
    let path = "/t/nested/device-id";
    let store = IdStore::new(&disk, path);

    let device_id = store.load_or_create().unwrap();

    assert_eq!(device_id.to_text().parse::<DeviceId>().unwrap(), device_id);
    assert_eq!(disk.text(path), format!("{}\n", device_id.to_text()));
}

#[test]
fn loading_again_returns_exactly_the_same_identity() {
    let disk = Disk::new();
    let store = IdStore::new(&disk, "/t/device-id");

    let first = store.load_or_create().unwrap();
    let second = store.load_or_create().unwrap();

    assert_eq!(second, first);
}

#[test]
fn independent_storage_locations_receive_different_identities() {
    let first = IdStore::new(&Disk::new(), "/t/device-id").load_or_create().unwrap();
    let second = IdStore::new(&Disk::new(), "/t/device-id").load_or_create().unwrap();

    assert_ne!(first, second);
}

#[test]
fn concurrent_initialization_keeps_one_persisted_identity() {
    let disk = Disk::new();
    let slow = IdStore::new(&disk, "/t/device-id");
    let fast = IdStore::new(&disk, "/t/device-id");
    let mut winner = None;

    let loser = slow
        .run(&slow.store, || winner = Some(fast.load_or_create().unwrap()))
        .unwrap();

    assert_eq!(loser, winner.unwrap());
    assert_eq!(slow.load_or_create().unwrap(), loser);
}

#[test]
fn malformed_existing_identity_is_an_error_and_is_not_replaced() {
    let disk = Disk::new();
    let path = "/t/device-id";
    disk.put(path, "not-a-device-id\n");
    let store = IdStore::new(&disk, path);

    let error = store.load_or_create().unwrap_err();

    assert!(matches!(error, DeviceIdError::Invalid { .. }));
    assert_eq!(disk.text(path), "not-a-device-id\n");
}

#[test]
fn non_random_uuid_is_rejected() {
    let disk = Disk::new();
    let path = "/t/device-id";
    disk.put(path, "00000000-0000-0000-0000-000000000000\n");

    let error = IdStore::new(&disk, path).load_or_create().unwrap_err();

    assert!(matches!(error, DeviceIdError::Invalid { .. }));
}

#[test]
fn filesystem_failures_are_explicit() {
    let disk = Disk::new();
    disk.put("/t/not-a-directory", "occupied");

    let error = IdStore::new(&disk, "/t/not-a-directory/device-id")
        .load_or_create()
        .unwrap_err();

    assert!(matches!(error, DeviceIdError::Io { .. }));
}

#[test]
fn existing_directory_at_identity_path_is_an_explicit_read_error() {
    let disk = Disk::new();
    let path = "/t/device-id";
    disk.create_dir_all(path).unwrap();

    let error = IdStore::new(&disk, path).load_or_create().unwrap_err();

    assert!(matches!(error, DeviceIdError::Io { .. }));
}

#[test]
fn only_the_canonical_text_of_a_random_uuid_is_an_identity() {
    let canonical = "f47ac10b-58cc-4372-a567-0e02b2c3d479";
    assert_eq!(canonical.parse::<DeviceId>().unwrap().to_text(), canonical);
    for other in [
        "",
        "F47AC10B-58CC-4372-A567-0E02B2C3D479",
        "f47ac10b58cc4372a5670e02b2c3d479",
        "{f47ac10b-58cc-4372-a567-0e02b2c3d479}",
        "urn:uuid:f47ac10b-58cc-4372-a567-0e02b2c3d479",
        "f47ac10b-58cc-1372-a567-0e02b2c3d479",
        " f47ac10b-58cc-4372-a567-0e02b2c3d479",
        "f47ac10b-58cc-4372-a567-0e02b2c3d479\n",
    ] {
        let error = DeviceId::parse(other).unwrap_err();
        assert_eq!(error.message(), "expected a canonical UUID version 4 device ID");
    }
}

#[test]
fn one_line_break_at_the_end_of_a_file_is_optional() {
    let id = "f47ac10b-58cc-4372-a567-0e02b2c3d479";
    let disk = Disk::new();
    let store = IdStore::new(&disk, "/t/device-id");

    disk.put("/t/device-id", id);
    assert_eq!(store.load_or_create().unwrap().to_text(), id);
    disk.put("/t/device-id", format!("{id}\n"));
    assert_eq!(store.load_or_create().unwrap().to_text(), id);
    disk.put("/t/device-id", format!("{id}\n\n"));
    assert!(matches!(store.load_or_create(), Err(DeviceIdError::Invalid { .. })));
}

#[test]
fn every_failure_of_an_identity_file_is_named() {
    for (failing, operation, path) in [
        ("inspect", "harden device identity file permissions", "/t/device-id"),
        ("read", "read device identity", "/t/device-id"),
        ("mkdir", "create device identity directory", "/t"),
        ("create", "create temporary device identity", "/t"),
        ("chmod", "harden device identity file permissions", "/t/.tmp1"),
        ("write", "write temporary device identity", "/t/.tmp1"),
        ("sync temporary", "sync temporary device identity", "/t/.tmp1"),
        ("persist", "persist device identity", "/t/device-id"),
        ("sync", "sync device identity", "/t/device-id"),
    ] {
        let disk = Disk::new();
        disk.fail(failing);
        let error = IdStore::new(&disk, "/t/device-id").load_or_create().unwrap_err();
        assert_eq!(
            error.message(),
            format!("failed to {operation} at {path}: injected {failing} failure")
        );
        assert!(matches!(error.source(), Some(DeviceIdErrorSource::Io(_))));
    }

    let disk = Disk::new();
    let slow = IdStore::new(&disk, "/t/device-id");
    let error = slow
        .run(&slow.store, || {
            disk.put("/t/device-id", "taken");
            disk.fail("read");
        })
        .unwrap_err();
    assert!(error.message().starts_with("failed to read concurrently created device identity"));

    let disk = Disk::new();
    disk.fail("inspect");
    let error = IdStore::in_app_config(&disk, "/t/device-id").load_or_create().unwrap_err();
    assert!(error.message().starts_with("failed to inspect device identity directory at /t"));

    let disk = Disk::new();
    disk.fail("chmod");
    let error = IdStore::in_app_config(&disk, "/t/device-id").load_or_create().unwrap_err();
    assert!(error
        .message()
        .starts_with("failed to harden device identity directory permissions at /t"));
}

#[test]
fn a_created_identity_and_its_new_directory_are_owner_only() {
    let disk = Disk::new();

    IdStore::new(&disk, "/t/nested/device-id").load_or_create().unwrap();

    assert_eq!(disk.mode("/t/nested"), 0o700);
    assert_eq!(disk.mode("/t/nested/device-id"), 0o600);
}

#[test]
fn broad_access_to_an_app_owned_identity_is_tightened_on_load() {
    let disk = Disk::new();
    let id = IdStore::new(&disk, "/t/app/device-id").load_or_create().unwrap();
    disk.chmod("/t/app", 0o777).unwrap();
    disk.chmod("/t/app/device-id", 0o666).unwrap();

    assert_eq!(
        IdStore::in_app_config(&disk, "/t/app/device-id").load_or_create().unwrap(),
        id
    );
    assert_eq!(disk.mode("/t/app"), 0o700);
    assert_eq!(disk.mode("/t/app/device-id"), 0o600);
}

#[test]
fn an_existing_directory_that_the_caller_chose_keeps_its_access() {
    let disk = Disk::new();
    disk.chmod("/t", 0o755).unwrap();

    IdStore::new(&disk, "/t/device-id").load_or_create().unwrap();

    assert_eq!(disk.mode("/t"), 0o755);
    assert_eq!(disk.mode("/t/device-id"), 0o600);
}

#[test]
fn an_identity_that_another_process_created_first_is_tightened() {
    let disk = Disk::new();
    let slow = IdStore::new(&disk, "/t/device-id");
    let taken = "f47ac10b-58cc-4372-a567-0e02b2c3d479";

    let loaded = slow.run(&slow.store, || disk.put("/t/device-id", taken)).unwrap();

    assert_eq!(loaded.to_text(), taken);
    assert_eq!(disk.mode("/t/device-id"), 0o600);
}

#[test]
fn an_identity_path_needs_a_directory() {
    let error = IdStore::new(&Disk::new(), "device-id").load_or_create().unwrap_err();

    assert_eq!(error, DeviceIdError::InvalidPath { path: "device-id".to_owned() });
    assert_eq!(error.message(), "device identity path has no parent: device-id");
    assert_eq!(error.source(), None);
}

#[test]
fn stores_without_a_configuration_directory_are_unavailable() {
    assert_eq!(
        DeviceIdStore::for_current_user(None).unwrap_err().message(),
        "the local configuration directory is unavailable"
    );
    assert!(matches!(
        LocalDeviceManager::for_current_user(None),
        Err(LocalDeviceError::ConfigDirectoryUnavailable)
    ));
    assert!(matches!(
        TrustedPeerStore::for_current_user(None),
        Err(TrustedPeerStoreError::ConfigDirectoryUnavailable)
    ));
    let store = DeviceIdStore::for_current_user(Some("/t/device-id".to_owned())).unwrap();
    assert!(matches!(store.load_or_create(), DeviceIdStep::HardenParent));
    assert!(matches!(store.clone().load_or_create(), DeviceIdStep::HardenParent));
}

// ----- the display name -----

#[test]
fn first_load_establishes_and_persists_the_neutral_default() {
    let disk = Disk::new();
    let path = "/t/nested/device-name";
    let store = NameStore::new(&disk, path);

    let name = store.load_or_create().unwrap();

    assert_eq!(name.as_str(), DEFAULT_DEVICE_NAME);
    assert_eq!(disk.text(path), "Local Device\n");
    assert_eq!(store.load_or_create().unwrap(), name);
}

#[test]
fn editing_persists_and_reload_returns_the_new_name() {
    let disk = Disk::new();
    let path = "/t/device-name";
    let store = NameStore::new(&disk, path);
    store.load_or_create().unwrap();

    let edited = store.update("Studio Workstation").unwrap();

    assert_eq!(edited.as_str(), "Studio Workstation");
    assert_eq!(disk.text(path), "Studio Workstation\n");
    assert_eq!(store.load_or_create().unwrap(), edited);
}

#[test]
fn surrounding_whitespace_is_trimmed_before_persistence() {
    let disk = Disk::new();
    let path = "/t/device-name";
    let store = NameStore::new(&disk, path);

    let name = store.update("  Living Room Device  ").unwrap();

    assert_eq!(name.as_str(), "Living Room Device");
    assert_eq!(disk.text(path), "Living Room Device\n");
}

#[test]
fn empty_and_whitespace_only_names_are_rejected() {
    assert_eq!(DeviceName::new("").unwrap_err(), DeviceNameValidationError::Empty);
    assert_eq!(DeviceName::new("   ").unwrap_err(), DeviceNameValidationError::Empty);
}

#[test]
fn names_longer_than_the_character_limit_are_rejected() {
    let too_long = "界".repeat(MAX_DEVICE_NAME_CHARS + 1);

    assert_eq!(
        DeviceName::new(&too_long).unwrap_err(),
        DeviceNameValidationError::TooLong { maximum: MAX_DEVICE_NAME_CHARS }
    );
}

#[test]
fn control_characters_are_rejected_even_at_the_edges() {
    for value in ["Line\nBreak", "Tabbed\tName", "Trailing\n"] {
        assert_eq!(
            DeviceName::new(value).unwrap_err(),
            DeviceNameValidationError::ControlCharacter
        );
    }
}

#[test]
fn valid_unicode_and_interior_spaces_are_accepted() {
    let name = DeviceName::new("  Sala de José 🛰️  ").unwrap();

    assert_eq!(name.as_str(), "Sala de José 🛰️");
}

#[test]
fn corrupt_persisted_name_is_an_error_and_is_not_replaced() {
    let disk = Disk::new();
    let path = "/t/device-name";
    disk.put(path, "\n");

    let error = NameStore::new(&disk, path).load_or_create().unwrap_err();

    assert!(matches!(error, DeviceNameError::Invalid { .. }));
    assert_eq!(disk.text(path), "\n");
}

#[test]
fn update_validation_failure_leaves_the_persisted_name_unchanged() {
    let disk = Disk::new();
    let store = NameStore::new(&disk, "/t/device-name");
    let original = store.load_or_create().unwrap();

    let error = store.update("bad\nname").unwrap_err();

    assert!(matches!(error, DeviceNameError::Validation(_)));
    assert_eq!(store.load_or_create().unwrap(), original);
}

#[test]
fn changing_deleting_or_corrupting_the_name_leaves_the_device_id_unchanged() {
    let disk = Disk::new();
    let (id_path, name_path) = ("/t/device-id", "/t/device-name");
    let id_store = IdStore::new(&disk, id_path);
    let name_store = NameStore::new(&disk, name_path);
    let original_id = id_store.load_or_create().unwrap();
    let original_id_contents = disk.bytes(id_path);

    name_store.load_or_create().unwrap();
    name_store.update("Renamed Device").unwrap();
    assert_eq!(id_store.load_or_create().unwrap(), original_id);
    assert_eq!(disk.bytes(id_path), original_id_contents);

    disk.remove(name_path);
    assert_eq!(name_store.load_or_create().unwrap(), DeviceName::default());
    assert_eq!(id_store.load_or_create().unwrap(), original_id);
    assert_eq!(disk.bytes(id_path), original_id_contents);

    disk.put(name_path, "\n");
    assert!(matches!(
        name_store.load_or_create().unwrap_err(),
        DeviceNameError::Invalid { .. }
    ));

    assert_eq!(id_store.load_or_create().unwrap(), original_id);
    assert_eq!(disk.bytes(id_path), original_id_contents);
}

#[test]
fn filesystem_read_failures_are_explicit() {
    let disk = Disk::new();
    let path = "/t/device-name";
    disk.create_dir_all(path).unwrap();

    let error = NameStore::new(&disk, path).load_or_create().unwrap_err();

    assert!(matches!(error, DeviceNameError::Io { .. }));
}

#[test]
fn a_name_that_another_process_created_first_wins() {
    let disk = Disk::new();
    let store = NameStore::new(&disk, "/t/device-name");

    let loaded = run_name(
        &disk,
        "/t/device-name",
        &store.store,
        store.store.load_or_create(),
        || disk.put("/t/device-name", "Theirs\n"),
    );

    assert_eq!(loaded.unwrap().as_str(), "Theirs");
    assert_eq!(disk.mode("/t/device-name"), 0o600);
}

#[test]
fn every_failure_of_a_name_file_is_named() {
    for (failing, operation, path) in [
        ("inspect", "inspect device display name directory", "/t"),
        ("chmod", "harden device display name directory permissions", "/t"),
        ("mkdir", "create device display name directory", "/t"),
        ("create", "create temporary device display name", "/t"),
        ("write", "write temporary device display name", "/t/.tmp1"),
        ("sync temporary", "sync temporary device display name", "/t/.tmp1"),
        ("persist", "persist device display name", "/t/device-name"),
        ("sync", "sync device display name", "/t/device-name"),
        ("read", "read device display name", "/t/device-name"),
    ] {
        let disk = Disk::new();
        disk.fail(failing);
        let error = NameStore::in_app_config(&disk, "/t/device-name").load_or_create().unwrap_err();
        assert_eq!(
            error.message(),
            format!("failed to {operation} at {path}: injected {failing} failure")
        );
        assert!(matches!(error.source(), Some(DeviceNameErrorSource::Io(_))));
    }

    let disk = Disk::new();
    disk.put("/t/device-name", "Desk\n");
    disk.fail("chmod");
    assert_eq!(
        NameStore::new(&disk, "/t/device-name").load_or_create().unwrap_err().message(),
        "failed to harden device display name file permissions at /t/device-name: \
         injected chmod failure"
    );

    let disk = Disk::new();
    let store = NameStore::new(&disk, "/t/device-name");
    let raced = run_name(
        &disk,
        "/t/device-name",
        &store.store,
        store.store.load_or_create(),
        || {
            disk.put("/t/device-name", "Theirs\n");
            disk.fail("read");
        },
    );
    assert!(raced
        .unwrap_err()
        .message()
        .starts_with("failed to read concurrently created device display name"));
}

#[test]
fn display_name_failures_describe_themselves() {
    let invalid_path = NameStore::new(&Disk::new(), "device-name").load_or_create().unwrap_err();
    assert_eq!(invalid_path.message(), "device display name path has no parent: device-name");
    assert_eq!(invalid_path.source(), None);

    let disk = Disk::new();
    disk.put("/t/device-name", "a\tb");
    let invalid = NameStore::new(&disk, "/t/device-name").load_or_create().unwrap_err();
    assert_eq!(invalid.message(), "invalid persisted device display name at /t/device-name");
    assert_eq!(
        invalid.source(),
        Some(DeviceNameErrorSource::Validation(DeviceNameValidationError::ControlCharacter))
    );

    let too_long = NameStore::new(&disk, "/t/device-name").update(&"x".repeat(65)).unwrap_err();
    assert_eq!(
        too_long.message(),
        "device display name must not exceed 64 Unicode characters"
    );
    assert_eq!(
        DeviceNameError::ConfigDirectoryUnavailable.message(),
        "the local configuration directory is unavailable"
    );
}

// ----- the local device -----

#[test]
fn first_load_creates_and_returns_a_complete_device() {
    let disk = Disk::new();
    let manager = Manager::for_test(&disk);

    let device = manager.load().unwrap();

    assert_eq!(device.name().as_str(), DEFAULT_DEVICE_NAME);
    assert_eq!(device.platform(), Platform::Linux);
    assert_eq!(disk.text("/t/device-id"), format!("{}\n", device.id().to_text()));
    assert_eq!(disk.text("/t/device-name"), "Local Device\n");
}

#[test]
fn repeated_loads_preserve_the_device_id_and_persisted_name() {
    let manager = Manager::for_test(&Disk::new());
    let first = manager.load().unwrap();
    manager.update_name("Studio Workstation").unwrap();

    let second = manager.load().unwrap();

    assert_eq!(second.id(), first.id());
    assert_eq!(second.name().as_str(), "Studio Workstation");
}

#[test]
fn isolated_installations_have_distinct_ids_and_the_same_neutral_default_name() {
    let first = Manager::for_test(&Disk::new()).load().unwrap();
    let second = Manager::for_test(&Disk::new()).load().unwrap();

    assert_ne!(first.id(), second.id());
    assert_eq!(first.name(), second.name());
    assert_eq!(first.name().as_str(), DEFAULT_DEVICE_NAME);
}

#[test]
fn updating_name_is_visible_on_reload_and_leaves_id_bytes_unchanged() {
    let disk = Disk::new();
    let manager = Manager::for_test(&disk);
    manager.load().unwrap();
    let id_before = disk.bytes("/t/device-id");

    let updated = manager.update_name("  Sala de José 🛰️  ").unwrap();

    assert_eq!(updated.as_str(), "Sala de José 🛰️");
    assert_eq!(manager.load().unwrap().name(), &updated);
    assert_eq!(disk.bytes("/t/device-id"), id_before);
}

#[test]
fn name_validation_error_preserves_its_typed_cause() {
    let disk = Disk::new();
    let manager = Manager::for_test(&disk);

    let error = manager.update_name("bad\nname").unwrap_err();

    assert!(matches!(
        error,
        LocalDeviceError::DeviceName(DeviceNameError::Validation(
            DeviceNameValidationError::ControlCharacter
        ))
    ));
    assert!(!disk.has("/t/device-id"));
}

#[test]
fn invalid_name_update_preserves_the_previous_public_snapshot() {
    let manager = Manager::for_test(&Disk::new());
    manager.load().unwrap();
    manager.update_name("Studio Workstation").unwrap();
    let before = manager.load().unwrap();

    let error = manager.update_name("bad\nname").unwrap_err();
    let after = manager.load().unwrap();

    assert!(matches!(
        error,
        LocalDeviceError::DeviceName(DeviceNameError::Validation(
            DeviceNameValidationError::ControlCharacter
        ))
    ));
    assert_eq!(after, before);
}

#[test]
fn corrupt_id_propagates_without_creating_name_state() {
    let disk = Disk::new();
    disk.put("/t/device-id", "corrupt\n");
    let manager = Manager::for_test(&disk);

    let error = manager.load().unwrap_err();

    assert!(matches!(
        error,
        LocalDeviceError::DeviceId(DeviceIdError::Invalid { .. })
    ));
    assert!(!disk.has("/t/device-name"));
}

#[test]
fn corrupt_name_propagates_without_replacing_it_or_the_id() {
    let disk = Disk::new();
    let manager = Manager::for_test(&disk);
    let original = manager.load().unwrap();
    let id_before = disk.bytes("/t/device-id");
    disk.put("/t/device-name", "\n");

    let error = manager.load().unwrap_err();

    assert!(matches!(
        error,
        LocalDeviceError::DeviceName(DeviceNameError::Invalid { .. })
    ));
    assert_eq!(disk.bytes("/t/device-id"), id_before);
    assert_eq!(manager.ids.load_or_create().unwrap(), original.id());
    assert_eq!(disk.text("/t/device-name"), "\n");
}

#[test]
fn unsupported_platform_is_testable_and_creates_no_state() {
    let disk = Disk::new();
    let mut manager = Manager::for_test(&disk);
    manager.target_os = "freebsd";

    let error = manager.load().unwrap_err();

    assert!(matches!(error, LocalDeviceError::Platform(_)));
    assert_eq!(disk.0.borrow().nodes.len(), 1);
}

#[test]
fn detection_does_not_modify_device_id_or_device_name() {
    let disk = Disk::new();
    IdStore::new(&disk, "/t/device-id").load_or_create().unwrap();
    NameStore::new(&disk, "/t/device-name").load_or_create().unwrap();
    let id_before = disk.bytes("/t/device-id");
    let name_before = disk.bytes("/t/device-name");

    let _ = Platform::from_target_os("linux");

    assert_eq!(disk.bytes("/t/device-id"), id_before);
    assert_eq!(disk.bytes("/t/device-name"), name_before);
}

#[test]
fn local_device_failures_describe_themselves_and_their_cause() {
    let platform = LocalDeviceError::from(Platform::from_target_os("plan9").unwrap_err());
    assert_eq!(
        platform.message(),
        "local device platform error: unsupported operating-system target: plan9"
    );
    assert!(matches!(platform.source(), Some(LocalDeviceErrorSource::Platform(_))));

    let id = LocalDeviceError::from(DeviceIdError::ConfigDirectoryUnavailable);
    assert_eq!(
        id.message(),
        "local device ID error: the local configuration directory is unavailable"
    );
    let name = LocalDeviceError::from(DeviceNameError::Validation(
        DeviceNameValidationError::Empty,
    ));
    assert_eq!(
        name.message(),
        "local device name error: device display name must not be empty"
    );
    assert!(matches!(name.source(), Some(LocalDeviceErrorSource::DeviceName(_))));
    assert!(LocalDeviceError::ConfigDirectoryUnavailable.source().is_none());
}

// ----- permissions -----

#[test]
fn newly_created_storage_uses_restrictive_permissions() {
    let disk = Disk::new();
    let destination = "/t/local-transfer/device-id";

    let temporary = run_temporary(&disk, destination, b"identity\n", false).unwrap();
    disk.replace(&temporary, destination).unwrap();

    assert_eq!(disk.mode("/t/local-transfer"), 0o700);
    assert_eq!(disk.mode(destination), 0o600);
}

#[test]
fn broad_app_owned_permissions_are_tightened() {
    let disk = Disk::new();
    let destination = "/t/local-transfer/device-name";
    disk.put(destination, "Local Device\n");
    disk.chmod("/t/local-transfer", 0o777).unwrap();
    disk.chmod(destination, 0o666).unwrap();

    run_harden_parent(&disk, destination).unwrap();
    run_harden_file(&disk, destination).unwrap();

    assert_eq!(disk.mode("/t/local-transfer"), 0o700);
    assert_eq!(disk.mode(destination), 0o600);
}

#[test]
fn existing_explicit_parent_permissions_are_not_changed() {
    let disk = Disk::new();
    let destination = "/t/device-id";
    disk.chmod("/t", 0o755).unwrap();

    let temporary = run_temporary(&disk, destination, b"identity\n", false).unwrap();
    disk.replace(&temporary, destination).unwrap();

    assert_eq!(disk.mode("/t"), 0o755);
    assert_eq!(disk.mode(destination), 0o600);
}

#[test]
fn existing_app_owned_parents_are_tightened_before_writing() {
    let disk = Disk::new();
    disk.chmod("/t", 0o755).unwrap();

    run_temporary(&disk, "/t/device-id", b"identity\n", true).unwrap();

    assert_eq!(disk.mode("/t"), 0o700);
}

#[test]
fn a_path_without_a_directory_cannot_be_prepared() {
    let disk = Disk::new();
    let invalid = || PersistenceError::InvalidPath { path: "alone".to_owned() };

    assert_eq!(run_harden_parent(&disk, "alone").unwrap_err(), invalid());
    assert_eq!(run_prepare_parent(&disk, "alone", true).unwrap_err(), invalid());
    assert_eq!(run_temporary(&disk, "alone", b"", true).unwrap_err(), invalid());
}

// ----- trusted peers -----

fn key(scheme: u16, byte: u8, len: usize) -> PeerKeyIdentity {
    PeerKeyIdentity::new(scheme, vec![byte; len]).unwrap()
}

fn labelled(identity: PeerKeyIdentity, label: Option<&str>) -> TrustedPeerRecord {
    TrustedPeerRecord::new(identity, label.map(|label| TrustedPeerLabel::new(label).unwrap()))
}

fn record(scheme: u16, byte: u8, label: Option<&str>) -> TrustedPeerRecord {
    labelled(key(scheme, byte, 32), label)
}

/// A store at a not-yet-created nested directory, so directory creation and hardening
/// are exercised.
fn nested_store(disk: &Disk) -> PeerStore {
    PeerStore::at(disk, "/t/nested/trusted-peers")
}

fn malformed_reason(error: &TrustedPeerStoreError) -> Option<MalformedStoreReason> {
    match error {
        TrustedPeerStoreError::MalformedStore { reason } => Some(*reason),
        _ => None,
    }
}

#[test]
fn a_missing_store_loads_as_an_empty_set() {
    let peers = nested_store(&Disk::new()).load().unwrap();

    assert!(peers.is_empty());
    assert_eq!(peers.len(), 0);
    assert_eq!(peers.iter().len(), 0);
}

#[test]
fn a_record_round_trips_across_a_fresh_store_object() {
    let disk = Disk::new();
    let path = "/t/nested/trusted-peers";
    let written = record(7, 0xab, Some("Studio Workstation"));

    PeerStore::at(&disk, path).store(written.clone()).unwrap();

    // A brand-new store object stands in for a process restart.
    let reloaded = PeerStore::at(&disk, path).load().unwrap();
    assert_eq!(reloaded.len(), 1);
    assert!(reloaded.contains(written.identity()));
    assert_eq!(reloaded.get(written.identity()), Some(&written));
    assert_eq!(
        reloaded
            .get(written.identity())
            .and_then(TrustedPeerRecord::label)
            .map(TrustedPeerLabel::as_str),
        Some("Studio Workstation")
    );
}

#[test]
fn a_record_without_a_label_round_trips() {
    let store = nested_store(&Disk::new());
    let written = record(1, 0x01, None);

    store.store(written.clone()).unwrap();

    let reloaded = store.load().unwrap();
    assert_eq!(reloaded.get(written.identity()), Some(&written));
    assert!(reloaded.get(written.identity()).unwrap().label().is_none());
}

#[test]
fn the_persisted_form_holds_only_the_key_identity_and_an_encoded_label() {
    let disk = Disk::new();
    let path = "/t/nested/trusted-peers";
    PeerStore::at(&disk, path).store(record(9, 0xcd, Some("Kitchen"))).unwrap();

    let raw = disk.text(path);

    assert_eq!(
        raw,
        format!(
            "local-transfer-trusted-peers v1\n9 {} 4b69746368656e\n",
            "cd".repeat(32)
        )
    );
    for forbidden in ["192.", "10.0", ".local", "http", "lt-", "_local-transfer"] {
        assert!(!raw.contains(forbidden), "unexpected `{forbidden}` in store");
    }
}

#[test]
fn storing_an_existing_identity_replaces_only_the_label() {
    let store = nested_store(&Disk::new());
    let id = key(4, 0x22, 32);

    store.store(labelled(id.clone(), Some("First Name"))).unwrap();
    store.store(labelled(id.clone(), Some("Renamed"))).unwrap();

    let reloaded = store.load().unwrap();
    assert_eq!(reloaded.len(), 1);
    assert_eq!(
        reloaded
            .get(&id)
            .and_then(TrustedPeerRecord::label)
            .map(TrustedPeerLabel::as_str),
        Some("Renamed")
    );
    // The identity binding is unchanged; only the label moved.
    assert_eq!(reloaded.get(&id).unwrap().identity(), &id);
}

#[test]
fn lookup_and_dedup_key_on_identity_never_on_the_label() {
    let store = nested_store(&Disk::new());
    // Two distinct identities that deliberately share a display label.
    store.store(record(1, 0x01, Some("Laptop"))).unwrap();
    store.store(record(2, 0x02, Some("Laptop"))).unwrap();

    let reloaded = store.load().unwrap();
    assert_eq!(reloaded.len(), 2);
    assert!(reloaded.contains(&key(1, 0x01, 32)));
    assert!(reloaded.contains(&key(2, 0x02, 32)));
    assert!(!reloaded.contains(&key(3, 0x03, 32)));
}

#[test]
fn removal_is_deterministic_and_idempotent() {
    let store = nested_store(&Disk::new());
    let kept = record(1, 0x11, Some("Keep"));
    let gone = record(2, 0x22, Some("Drop"));
    store.store(kept.clone()).unwrap();
    store.store(gone.clone()).unwrap();

    assert_eq!(store.remove(gone.identity()).unwrap(), TrustedPeerRemoval::Removed);
    let after = store.load().unwrap();
    assert_eq!(after.len(), 1);
    assert!(!after.contains(gone.identity()));
    assert!(after.contains(kept.identity()));

    // Removing again, or removing an unknown identity, is absent-not-error.
    assert_eq!(
        store.remove(gone.identity()).unwrap(),
        TrustedPeerRemoval::AlreadyAbsent
    );
    assert_eq!(
        store.remove(&key(9, 0x99, 32)).unwrap(),
        TrustedPeerRemoval::AlreadyAbsent
    );
}

#[test]
fn removing_the_last_record_leaves_a_valid_empty_store() {
    let store = nested_store(&Disk::new());
    let only = record(1, 0x01, None);
    store.store(only.clone()).unwrap();

    assert_eq!(store.remove(only.identity()).unwrap(), TrustedPeerRemoval::Removed);
    assert!(store.load().unwrap().is_empty());
    // A reopened store still reads the empty file cleanly.
    assert!(store.load().unwrap().is_empty());
}

#[test]
fn the_store_bytes_are_deterministic_regardless_of_insertion_order() {
    let disk = Disk::new();
    let (first, second) = ("/t/a/trusted-peers", "/t/b/trusted-peers");

    let store_a = PeerStore::at(&disk, first);
    store_a.store(record(5, 0x05, Some("e"))).unwrap();
    store_a.store(record(1, 0x01, None)).unwrap();
    store_a.store(record(3, 0x03, Some("c"))).unwrap();

    let store_b = PeerStore::at(&disk, second);
    store_b.store(record(3, 0x03, Some("c"))).unwrap();
    store_b.store(record(5, 0x05, Some("e"))).unwrap();
    store_b.store(record(1, 0x01, None)).unwrap();

    assert_eq!(disk.bytes(first), disk.bytes(second));
    let schemes: Vec<u16> = store_a
        .load()
        .unwrap()
        .iter()
        .iter()
        .map(|record| record.identity().scheme())
        .collect();
    assert_eq!(schemes, [1, 3, 5]);
}

#[test]
fn structural_corruption_fails_the_whole_load_closed() {
    let disk = Disk::new();
    let valid = format!("1 {} -\n", "aa".repeat(32));

    // Empty file, bare newline, and a truncated header all fail.
    for contents in ["", "\n", "local-transfer-trusted-peers v1"] {
        let path = format!("/t/s{}/trusted-peers", contents.len());
        disk.put(&path, contents);
        assert!(PeerStore::at(&disk, &path).load().is_err());
    }

    // Unrecognised header.
    let path = "/t/other-header/trusted-peers";
    disk.put(path, "local-transfer-other v1\n");
    assert_eq!(
        malformed_reason(&PeerStore::at(&disk, path).load().unwrap_err()),
        Some(MalformedStoreReason::Header)
    );

    // Unsupported but well-formed version.
    let path = "/t/v2/trusted-peers";
    disk.put(path, "local-transfer-trusted-peers v2\n");
    assert!(matches!(
        PeerStore::at(&disk, path).load().unwrap_err(),
        TrustedPeerStoreError::UnsupportedVersion { version: 2 }
    ));

    // Non-canonical version text.
    let path = "/t/v01/trusted-peers";
    disk.put(path, "local-transfer-trusted-peers v01\n");
    assert_eq!(
        malformed_reason(&PeerStore::at(&disk, path).load().unwrap_err()),
        Some(MalformedStoreReason::Header)
    );

    // Trailing garbage after a valid record.
    let path = "/t/trailing/trusted-peers";
    disk.put(path, format!("local-transfer-trusted-peers v1\n{valid}garbage"));
    assert!(PeerStore::at(&disk, path).load().is_err());

    // Not UTF-8.
    let path = "/t/utf8/trusted-peers";
    disk.put(path, [b'l', 0xff, b'\n']);
    assert_eq!(
        malformed_reason(&PeerStore::at(&disk, path).load().unwrap_err()),
        Some(MalformedStoreReason::NotUtf8)
    );
}

#[test]
fn record_level_corruption_is_categorised_and_never_yields_a_record() {
    let disk = Disk::new();
    let long_material = format!("1 {} -\n", "aa".repeat(MAX_PEER_IDENTITY_BYTES + 1));
    let control_label = format!("1 {} 09\n", "aa".repeat(32));
    let bad_utf8_label = format!("1 {} ff\n", "aa".repeat(32));

    let cases: &[(&str, MalformedStoreReason)] = &[
        ("1 aa\n", MalformedStoreReason::RecordSyntax),
        ("1 aa - extra\n", MalformedStoreReason::RecordSyntax),
        ("x aa -\n", MalformedStoreReason::RecordSyntax),
        ("01 aa -\n", MalformedStoreReason::RecordSyntax),
        ("1  -\n", MalformedStoreReason::IdentityEncoding),
        ("1 az -\n", MalformedStoreReason::IdentityEncoding),
        ("1 AA -\n", MalformedStoreReason::IdentityEncoding),
        ("1 aaa -\n", MalformedStoreReason::IdentityEncoding),
        (long_material.as_str(), MalformedStoreReason::IdentityBounds),
        ("1 aa zz\n", MalformedStoreReason::LabelEncoding),
        (bad_utf8_label.as_str(), MalformedStoreReason::LabelEncoding),
        (control_label.as_str(), MalformedStoreReason::LabelValue),
    ];

    for (index, (line, reason)) in cases.iter().enumerate() {
        let path = format!("/t/rec{index}/trusted-peers");
        disk.put(&path, format!("local-transfer-trusted-peers v1\n{line}"));
        let error = PeerStore::at(&disk, &path).load().unwrap_err();
        assert_eq!(
            malformed_reason(&error),
            Some(*reason),
            "wrong category for {line:?}: {error:?}"
        );
    }
}

#[test]
fn duplicate_and_conflicting_identity_records_fail_closed() {
    let disk = Disk::new();
    let material = "bb".repeat(32);

    // Exact duplicate.
    let path = "/t/dup/trusted-peers";
    disk.put(
        path,
        format!("local-transfer-trusted-peers v1\n1 {material} -\n1 {material} -\n"),
    );
    assert!(matches!(
        PeerStore::at(&disk, path).load().unwrap_err(),
        TrustedPeerStoreError::DuplicateIdentity
    ));

    // Same identity, conflicting label (0x41 "A" vs 0x42 "B").
    let path = "/t/conflict/trusted-peers";
    disk.put(
        path,
        format!("local-transfer-trusted-peers v1\n1 {material} 41\n1 {material} 42\n"),
    );
    assert!(matches!(
        PeerStore::at(&disk, path).load().unwrap_err(),
        TrustedPeerStoreError::DuplicateIdentity
    ));

    // Records unsorted in the file are still deduplicated deterministically.
    let other = "cc".repeat(32);
    let path = "/t/unsorted-dup/trusted-peers";
    disk.put(
        path,
        format!("local-transfer-trusted-peers v1\n2 {other} -\n1 {material} -\n2 {other} -\n"),
    );
    assert!(matches!(
        PeerStore::at(&disk, path).load().unwrap_err(),
        TrustedPeerStoreError::DuplicateIdentity
    ));
}

#[test]
fn oversized_stores_and_record_counts_are_rejected_before_full_parsing() {
    let disk = Disk::new();

    // Whole-store byte budget, checked from metadata before the read.
    let path = "/t/big/trusted-peers";
    disk.put(path, vec![b'x'; MAX_TRUSTED_PEERS_STORE_BYTES + 1]);
    assert!(matches!(
        PeerStore::at(&disk, path).load().unwrap_err(),
        TrustedPeerStoreError::StoreTooLarge { .. }
    ));

    // Record-count budget.
    let mut contents = String::from("local-transfer-trusted-peers v1\n");
    for index in 0..=MAX_TRUSTED_PEERS {
        contents.push_str(&format!("{index} {} -\n", "aa".repeat(4)));
    }
    let path = "/t/many/trusted-peers";
    disk.put(path, &contents);
    assert!(matches!(
        PeerStore::at(&disk, path).load().unwrap_err(),
        TrustedPeerStoreError::CapacityExceeded { .. }
    ));

    // One over-long record line.
    let path = "/t/longrec/trusted-peers";
    disk.put(
        path,
        format!(
            "local-transfer-trusted-peers v1\n1 {} {}\n",
            "aa".repeat(32),
            "62".repeat(300)
        ),
    );
    assert!(matches!(
        PeerStore::at(&disk, path).load().unwrap_err(),
        TrustedPeerStoreError::RecordTooLarge { .. }
    ));
}

#[test]
fn a_write_over_capacity_is_rejected_and_leaves_the_durable_store_untouched() {
    let disk = Disk::new();
    let path = "/t/nested/trusted-peers";
    let store = PeerStore::at(&disk, path);
    for index in 0..MAX_TRUSTED_PEERS {
        store.store(record(u16::try_from(index).unwrap(), 0x01, None)).unwrap();
    }
    let full = disk.bytes(path);

    let error = store
        .store(record(u16::try_from(MAX_TRUSTED_PEERS).unwrap(), 0x01, None))
        .unwrap_err();

    assert!(matches!(error, TrustedPeerStoreError::CapacityExceeded { .. }));
    assert_eq!(disk.bytes(path), full);
    assert_eq!(store.load().unwrap().len(), MAX_TRUSTED_PEERS);
}

#[test]
fn a_maximum_length_identity_and_multibyte_label_round_trip() {
    let store = nested_store(&Disk::new());
    let big_identity = PeerKeyIdentity::new(65_535, vec![0xff; MAX_PEER_IDENTITY_BYTES]).unwrap();
    let big_label = "é".repeat(MAX_TRUSTED_PEER_LABEL_CHARS);
    let written = labelled(big_identity.clone(), Some(&big_label));

    store.store(written.clone()).unwrap();

    assert_eq!(store.load().unwrap().get(&big_identity), Some(&written));
}

#[test]
fn a_non_regular_store_path_is_a_typed_error_not_a_panic() {
    let disk = Disk::new();
    let path = "/t/trusted-peers";
    disk.create_dir_all(path).unwrap();

    assert!(matches!(
        PeerStore::at(&disk, path).load().unwrap_err(),
        TrustedPeerStoreError::NotRegularFile { .. }
    ));
}

#[test]
fn errors_preserve_their_io_source_and_never_echo_record_contents() {
    let disk = Disk::new();
    // Parent of the store path is a regular file: the lock file cannot be reached.
    disk.put("/t/occupied", "x");
    let store = PeerStore::at(&disk, "/t/occupied/trusted-peers");

    let error = store.store(record(1, 0x01, Some("Secret Label"))).unwrap_err();

    assert!(error.source().is_some());
    assert!(!error.message().contains("Secret Label"));
}

#[test]
fn a_written_store_and_its_new_directory_are_owner_only() {
    let disk = Disk::new();
    let path = "/t/nested/trusted-peers";
    PeerStore::at(&disk, path).store(record(1, 0x01, Some("Desk"))).unwrap();

    assert_eq!(disk.mode(path), 0o600);
    assert_eq!(disk.mode("/t/nested"), 0o700);
}

#[test]
fn a_write_or_remove_failure_never_reports_false_durable_success() {
    let disk = Disk::new();
    disk.create_dir_all("/t/store").unwrap();
    let path = "/t/store/trusted-peers";
    let store = PeerStore::at(&disk, path);
    store.store(record(1, 0x01, Some("Original"))).unwrap();
    let durable = disk.bytes(path);

    // A read-only directory blocks the atomic replacement entirely.
    disk.chmod("/t/store", 0o500).unwrap();

    let store_error = store.store(record(2, 0x02, Some("New"))).unwrap_err();
    let remove_error = store.remove(&key(1, 0x01, 32)).unwrap_err();
    assert!(matches!(store_error, TrustedPeerStoreError::Io { .. }));
    assert!(matches!(remove_error, TrustedPeerStoreError::Io { .. }));

    disk.chmod("/t/store", 0o700).unwrap();
    // Nothing partial was written; the previously durable record stands.
    assert_eq!(disk.bytes(path), durable);
    let reloaded = store.load().unwrap();
    assert_eq!(reloaded.len(), 1);
    assert!(reloaded.contains(&key(1, 0x01, 32)));
}

#[test]
fn a_competing_mutation_is_reported_busy_and_changes_nothing() {
    let disk = Disk::new();
    let path = "/t/nested/trusted-peers";
    let owner = PeerStore::at(&disk, path);
    owner.store(record(1, 0x11, Some("A"))).unwrap();
    owner.store(record(2, 0x22, Some("B"))).unwrap();
    let durable = disk.bytes(path);

    // Hold the exclusive lock, standing in for another process mid-mutation.
    let guard = owner.hold_exclusive_lock().unwrap();

    // A separate store instance cannot start any read-modify-write.
    let competitor = PeerStore::at(&disk, path);
    assert!(matches!(
        competitor.store(record(3, 0x33, None)).unwrap_err(),
        TrustedPeerStoreError::StoreBusy
    ));
    assert!(matches!(
        competitor.remove(&key(1, 0x11, 32)).unwrap_err(),
        TrustedPeerStoreError::StoreBusy
    ));
    // The durable file is byte-for-byte unchanged.
    assert_eq!(disk.bytes(path), durable);
    // Lock-free reads still work.
    assert_eq!(competitor.load().unwrap().len(), 2);

    // Releasing the lock lets the competitor proceed; no stale lock remains.
    drop(guard);
    competitor.store(record(3, 0x33, None)).unwrap();
    assert_eq!(owner.load().unwrap().len(), 3);
}

#[test]
fn a_stale_concurrent_writer_cannot_resurrect_a_removed_record() {
    // The lock forces the second mutation to load after the first one has fully
    // committed.
    let disk = Disk::new();
    let path = "/t/nested/trusted-peers";
    let store = PeerStore::at(&disk, path);
    let alice = record(1, 0xaa, Some("Alice"));
    let bob = record(2, 0xbb, Some("Bob"));
    store.store(alice.clone()).unwrap();
    store.store(bob.clone()).unwrap();

    // Process A holds the lock and removes Alice.
    let a = PeerStore::at(&disk, path);
    let guard = a.hold_exclusive_lock().unwrap();

    // Process B tries to relabel Bob from its own (now soon-to-be-stale) view. It
    // cannot even begin until A is done.
    let b = PeerStore::at(&disk, path);
    assert!(matches!(
        b.store(labelled(key(2, 0xbb, 32), Some("Bob 2"))).unwrap_err(),
        TrustedPeerStoreError::StoreBusy
    ));

    // A completes the removal and releases.
    drop(guard);
    assert_eq!(a.remove(alice.identity()).unwrap(), TrustedPeerRemoval::Removed);

    // Only now can B run, and it necessarily loads the post-removal store.
    b.store(labelled(key(2, 0xbb, 32), Some("Bob 2"))).unwrap();

    let final_state = store.load().unwrap();
    assert_eq!(final_state.len(), 1);
    assert!(!final_state.contains(alice.identity()));
    assert_eq!(
        final_state
            .get(bob.identity())
            .and_then(TrustedPeerRecord::label)
            .map(TrustedPeerLabel::as_str),
        Some("Bob 2")
    );
}

#[test]
fn a_mutation_error_path_still_releases_the_lock() {
    let disk = Disk::new();
    let path = "/t/nested/trusted-peers";
    let store = PeerStore::at(&disk, path);
    for index in 0..MAX_TRUSTED_PEERS {
        store.store(record(u16::try_from(index).unwrap(), 0x01, None)).unwrap();
    }

    // This mutation fails the capacity check after the lock is taken.
    assert!(matches!(
        store
            .store(record(u16::try_from(MAX_TRUSTED_PEERS).unwrap(), 0x01, None))
            .unwrap_err(),
        TrustedPeerStoreError::CapacityExceeded { .. }
    ));

    // The lock is free again: a fresh instance can immediately mutate.
    let other = PeerStore::at(&disk, path);
    assert_eq!(other.remove(&key(0, 0x01, 32)).unwrap(), TrustedPeerRemoval::Removed);
}

#[test]
fn an_oversized_file_never_forces_an_unbounded_read() {
    let disk = Disk::new();
    let path = "/t/nested/trusted-peers";
    disk.put(path, vec![b'x'; MAX_TRUSTED_PEERS_STORE_BYTES * 4]);

    // Rejected via the open-handle metadata check before any large read.
    assert!(matches!(
        PeerStore::at(&disk, path).load().unwrap_err(),
        TrustedPeerStoreError::StoreTooLarge { size, .. }
            if size as usize == MAX_TRUSTED_PEERS_STORE_BYTES * 4
    ));

    // A file exactly at the limit is read; one byte over is rejected.
    let at_limit = format!(
        "local-transfer-trusted-peers v1\n{}",
        "x".repeat(MAX_TRUSTED_PEERS_STORE_BYTES - "local-transfer-trusted-peers v1\n".len())
    );
    assert_eq!(at_limit.len(), MAX_TRUSTED_PEERS_STORE_BYTES);
    disk.put(path, &at_limit);
    // (Malformed content, but it was read rather than size-rejected.)
    assert!(matches!(
        PeerStore::at(&disk, path).load().unwrap_err(),
        TrustedPeerStoreError::MalformedStore { .. }
    ));
}

#[test]
fn a_symlink_at_the_store_path_is_rejected_and_never_hardened_through() {
    let disk = Disk::new();
    disk.put("/t/real-file", "local-transfer-trusted-peers v1\n");
    disk.chmod("/t/real-file", 0o644).unwrap();
    disk.link("/t/nested/trusted-peers", "/t/real-file");

    // Production hardening path is on; it must not chmod the link target.
    let store = PeerStore::in_app_config(&disk, "/t/nested/trusted-peers");
    assert!(matches!(
        store.load().unwrap_err(),
        TrustedPeerStoreError::SymlinkNotAllowed { .. }
    ));
    assert!(matches!(
        store.store(record(1, 0x01, None)).unwrap_err(),
        TrustedPeerStoreError::SymlinkNotAllowed { .. }
    ));
    // The link target keeps its loose permissions, untouched.
    assert_eq!(disk.mode("/t/real-file"), 0o644);
}

#[test]
fn a_symlink_at_the_lock_path_is_rejected() {
    let disk = Disk::new();
    disk.put("/t/elsewhere", "x");
    disk.link("/t/nested/trusted-peers.lock", "/t/elsewhere");

    assert!(matches!(
        PeerStore::at(&disk, "/t/nested/trusted-peers")
            .store(record(1, 0x01, None))
            .unwrap_err(),
        TrustedPeerStoreError::SymlinkNotAllowed { .. }
    ));
}

#[test]
fn the_lock_file_and_its_directory_are_owner_only() {
    let disk = Disk::new();
    PeerStore::at(&disk, "/t/nested/trusted-peers").store(record(1, 0x01, None)).unwrap();

    assert_eq!(disk.mode("/t/nested/trusted-peers.lock"), 0o600);
    assert_eq!(disk.mode("/t/nested"), 0o700);
}

#[test]
fn lock_files_are_named_after_their_store() {
    assert_eq!(lock_file_name(Some("peers")), "peers.lock");
    assert_eq!(lock_file_name(None), "trusted-peers.lock");
}

#[test]
fn every_failure_of_a_store_is_named() {
    for (failing, operation, path) in [
        ("open", "open trusted-peer store", "/t/p"),
        ("stat", "inspect the trusted-peer lock", "/t/p.lock"),
        ("open lock", "open the trusted-peer lock", "/t/p.lock"),
        ("lock", "lock the trusted-peer store", "/t/p.lock"),
        ("read", "read trusted-peer store", "/t/p"),
        ("mkdir", "create trusted-peer store directory", "/t"),
        ("create", "create temporary trusted-peer store", "/t"),
        ("write", "write temporary trusted-peer store", "/t/.tmp2"),
        ("sync temporary", "sync temporary trusted-peer store", "/t/.tmp2"),
        ("persist", "replace trusted-peer store", "/t/p"),
        ("sync", "sync trusted-peer store", "/t/p"),
        ("sync directory", "sync trusted-peer store directory", "/t/p"),
        ("inspect", "inspect the trusted-peer lock", "/t/p.lock"),
        ("chmod", "harden trusted-peer store file permissions", "/t/p.lock"),
    ] {
        let disk = Disk::new();
        let store = PeerStore::at(&disk, "/t/p");
        store.store(record(1, 0x01, None)).unwrap();
        disk.fail(failing);
        let error = store.store(record(2, 0x02, None)).unwrap_err();
        assert_eq!(
            error.message(),
            format!("failed to {operation} at {path}: injected {failing} failure")
        );
    }

    let disk = Disk::new();
    let store = PeerStore::in_app_config(&disk, "/t/p");
    store.store(record(1, 0x01, None)).unwrap();
    disk.fail("stat");
    assert!(store.load().unwrap_err().message().contains("inspect open trusted-peer store"));
    disk.fail("inspect");
    assert!(store.load().unwrap_err().message().contains("inspect trusted-peer store directory"));

    let disk = Disk::new();
    disk.fail("inspect");
    assert!(PeerStore::at(&disk, "/t/p")
        .load()
        .unwrap_err()
        .message()
        .contains("inspect trusted-peer store at"));
}

#[test]
fn the_longest_labels_of_the_widest_characters_load_back() {
    let disk = Disk::new();
    let store = nested_store(&disk);
    let identity = PeerKeyIdentity::new(65_535, vec![0xff; MAX_PEER_IDENTITY_BYTES]).unwrap();
    let wide = labelled(identity.clone(), Some(&"\u{1f6f0}".repeat(64)));
    let other = record(1, 0x01, Some(&"界".repeat(64)));

    store.store(wide.clone()).unwrap();
    store.store(other.clone()).unwrap();

    let loaded = store.load().unwrap();
    assert_eq!(loaded.len(), 2);
    assert_eq!(loaded.get(&identity), Some(&wide));
    assert_eq!(loaded.get(other.identity()), Some(&other));
    assert_eq!(loaded.clone(), loaded);
}

#[test]
fn a_set_beyond_the_byte_budget_is_refused_and_leaves_the_store_as_it_was() {
    let store = nested_store(&Disk::new());
    let wide = "\u{1f6f0}".repeat(64);
    let mut stored = 0;
    let refused = loop {
        let identity = PeerKeyIdentity::new(60_000 + stored, vec![0xff; 64]).unwrap();
        match store.store(labelled(identity, Some(&wide))) {
            Ok(()) => stored += 1,
            Err(error) => break error,
        }
    };

    // Each line takes 648 bytes with its line break, the header 32.
    assert_eq!(stored, 101);
    assert_eq!(
        refused,
        TrustedPeerStoreError::StoreTooLarge { size: 66_128, maximum: 65_536 }
    );
    let loaded = store.load().unwrap();
    assert_eq!(loaded.len(), 101);
    store.remove(loaded.iter()[0].identity()).unwrap();
    assert_eq!(store.load().unwrap().len(), 100);
}
