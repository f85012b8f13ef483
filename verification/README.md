# firmware_updater

Firmware update rules for a bootloader that keeps an active, a DFU and a state
partition on NOR flash, written and proved in Verus.

The library in `src/` decides and touches no flash. An operation, such as
writing a piece of firmware or marking a swap, names the flash access that it
needs next as a `Request`. The caller makes the access and resumes the operation
with the outcome, until the operation is done.

- `state`, `firmware_state`: the bootloader state, how it is encoded, and how a
  new one is marked, access by access.
- `firmware_updater`: writing firmware sector by sector, erasing the DFU
  partition, reading it, and asking for USB DFU.
- `hash`, `digest`: the digest of the image in the DFU partition.
- `verify`, `signature`, `ed25519_with_dalek`, `ed25519_with_salty`: checking
  the signature of an image before it is marked for a swap.
- `model`: a mathematical flash, and each operation carried through on it. Any
  access may fail, and one that fails changes nothing: the laws cover a stop
  between accesses, not one within an erasure or a write.
- `marking_laws`, `writing_laws`, `image_laws`: what holds of whole operations.

`app/` owns real partitions and drives the operations over `embedded-storage-async`
flashes. It is ordinary Rust and is not verified.

What is trusted: the hashers and signature checks of `ed25519-dalek` and `salty`,
declared in the two `ed25519_with_*` modules, and any other implementation of
`digest::Digest` that was not verified.
