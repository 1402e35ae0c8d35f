# local-transfer-core

The shared domain library of `local-transfer`, a peer-to-peer file transfer tool for
devices on one local network, and the command-line program around it. The library is
written and verified in Verus.

The library decides and never touches the network or the filesystem. An operation that
needs either is a sequence of steps: the owner performs a step, hands its outcome back,
and gets the next step or the result.

- `src/discovery.rs`: bounded, unauthenticated DNS-SD metadata.
- `src/advertisement.rs`, `src/browser.rs`: describing this device and recognising others.
- `src/discovered_peers.rs`: which peers are visible, on a caller-owned timeline.
- `src/pairing.rs`: the pairing messages and both sides of an attempt.
- `src/trusted_peers.rs`, `src/trusted_peer_store.rs`: durable trusted-peer records.
- `src/identity.rs`, `src/device_name.rs`, `src/platform.rs`, `src/local_device.rs`: this
  device, as it is stored and shown.
- `src/persistence.rs`: the steps that stored files share.
- `src/discover.rs`, `src/command.rs`: the `discover` and `device` commands.
- `src/text.rs`, `src/ordered.rs`, `src/text_map.rs`, `src/time.rs`, `src/uuids.rs`: what
  the other modules are built on.
- `app/`: the program: argument parsing, the mDNS daemon, files, locks and signals.

Every public function states its exact result in its contract. What holds across several
functions is stated as a public proof function beside them.
