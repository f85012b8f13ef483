//! What holds of reading, digesting and checking an image.

use vstd::prelude::*;

use vstd::arithmetic::div_mod::{
    lemma_fundamental_div_mod, lemma_mod_bound, lemma_mod_multiples_basic,
};

use crate::digest::Digest;
use crate::error::{FirmwareUpdaterError, NorFlashErrorKind, Outcome};
use crate::firmware_state::{mark_access, mark_next, state_read, MarkStage};
use crate::flash::{Access, NorFlashParams, Partition, Progress};
use crate::hash::{chunk_read, chunk_share, hash_next};
use crate::marking_laws::{can_be_marked, law_marked_state_reads_back, law_marking_completes};
use crate::model::{
    get_state_run, hash_reads, hash_run, mark_run, no_faults, sound_params, stages_left,
    verify_and_mark_run, verify_booted_run, verify_run, write_pieces_run, Faults, Flashes, Setup,
};
use crate::signature::SignatureScheme;
use crate::state::{State, SWAP_MAGIC};
use crate::verify::{verify_access, VerifyStep, SIGNED_CHUNK_LEN};
use crate::writing_laws::{is_addressable, law_firmware_written_in_pieces_lies_in_dfu};

verus! {

/// Digesting goes on from what was digested to the end of the image.
proof fn lemma_hash_run<D: Digest>(
    setup: Setup,
    flashes: Flashes,
    offset: u32,
    update_len: u32,
    chunk_len: nat,
    faults: Faults,
    k: nat,
)
    requires
        flashes.fit(setup),
        chunk_len > 0,
        offset <= update_len,
        offset <= flashes.dfu.len(),
    ensures
        match hash_run::<D>(
            setup,
            flashes,
            flashes.dfu.subrange(0, offset as int),
            offset,
            update_len,
            chunk_len,
            faults,
            k,
        ) {
            Ok(digest) => {
                &&& update_len <= flashes.dfu.len()
                &&& digest == D::digest_of(flashes.dfu.subrange(0, update_len as int))
            },
            Err(error) => error is Flash,
        },
    decreases update_len - offset,
{
    let outcome = setup.outcome(chunk_read(offset, chunk_len), faults, k);
    if offset < update_len && outcome is Ok {
        let absorbed = flashes.dfu.subrange(0, offset as int);
        let chunk = flashes.dfu.subrange(offset as int, offset + chunk_len);
        let share = chunk_share(update_len as int, offset as int, chunk_len as int);
        let next = absorbed + chunk.take(share);
        assert(next =~= flashes.dfu.subrange(0, offset + share));
        if offset + chunk_len < update_len {
            lemma_hash_run::<D>(
                setup,
                flashes,
                (offset + chunk_len) as u32,
                update_len,
                chunk_len,
                faults,
                k + 1,
            );
        }
    }
}

/// The digest of an image is that of the first `update_len` bytes of the DFU partition, in
/// whatever chunks they are read. Only a failed read keeps it from being computed.
pub proof fn law_digest_is_that_of_the_image<D: Digest>(
    setup: Setup,
    flashes: Flashes,
    update_len: u32,
    chunk_len: nat,
    faults: Faults,
    k: nat,
)
    requires
        flashes.fit(setup),
        chunk_len > 0,
    ensures
        match hash_run::<D>(
            setup,
            flashes,
            Seq::empty(),
            0,
            update_len,
            chunk_len,
            faults,
            k,
        ) {
            Ok(digest) => {
                &&& update_len <= flashes.dfu.len()
                &&& digest == D::digest_of(flashes.dfu.subrange(0, update_len as int))
            },
            Err(error) => error is Flash,
        },
{
    assert(flashes.dfu.subrange(0, 0) =~= Seq::empty());
    lemma_hash_run::<D>(setup, flashes, 0, update_len, chunk_len, faults, k);
}

/// Every chunk of an image, read in full, lies in the partition where the last one does.
proof fn lemma_hash_completes<D: Digest>(
    setup: Setup,
    flashes: Flashes,
    absorbed: Seq<u8>,
    chunk: nat,
    offset: u32,
    update_len: u32,
    chunk_len: nat,
    k: nat,
)
    requires
        0 < setup.dfu.read_size,
        0 < chunk_len,
        chunk_len % (setup.dfu.read_size as nat) == 0,
        offset == chunk * chunk_len,
        hash_reads(update_len as int, chunk_len as int) * chunk_len <= setup.dfu.capacity,
    ensures
        hash_run::<D>(setup, flashes, absorbed, offset, update_len, chunk_len, no_faults(), k) is Ok,
    decreases update_len - offset,
{
    if offset < update_len {
        let read_size = setup.dfu.read_size as int;
        let len = chunk_len as int;
        let chunks = hash_reads(update_len as int, len) as int;
        lemma_fundamental_div_mod(update_len + len - 1, len);
        lemma_mod_bound(update_len + len - 1, len);
        assert(chunk < chunks) by (nonlinear_arith)
            requires
                chunk * len < update_len,
                update_len + len - 1 == len * ((update_len + len - 1) / len) + (update_len + len
                    - 1) % len,
                (update_len + len - 1) % len < len,
                chunks == (update_len + len - 1) / len,
                len > 0,
        ;
        assert((chunk + 1) * len == offset + len) by (nonlinear_arith)
            requires
                offset == chunk * len,
        ;
        assert((chunk + 1) * len <= chunks * len) by (nonlinear_arith)
            requires
                chunk < chunks,
                len > 0,
        ;
        // A chunk starts at a multiple of the read size, as it is made of whole reads.
        lemma_fundamental_div_mod(len, read_size);
        let reads = len / read_size;
        assert(offset == (chunk * reads) * read_size) by (nonlinear_arith)
            requires
                offset == chunk * len,
                len == read_size * reads,
        ;
        lemma_mod_multiples_basic(chunk * reads, read_size);
        let share = chunk_share(update_len as int, offset as int, len);
        let bytes = flashes.dfu.subrange(offset as int, offset + chunk_len);
        if offset + chunk_len < update_len {
            lemma_hash_completes::<D>(
                setup,
                flashes,
                absorbed + bytes.take(share),
                chunk + 1,
                (offset + chunk_len) as u32,
                update_len,
                chunk_len,
                k + 1,
            );
        }
    }
}

/// An image can be digested where chunks are made of whole reads and the last one, read in
/// full, lies in the partition.
pub proof fn law_digesting_completes<D: Digest>(
    setup: Setup,
    flashes: Flashes,
    update_len: u32,
    chunk_len: nat,
    k: nat,
)
    requires
        0 < setup.dfu.read_size,
        0 < chunk_len,
        chunk_len % (setup.dfu.read_size as nat) == 0,
        hash_reads(update_len as int, chunk_len as int) * chunk_len <= setup.dfu.capacity,
    ensures
        hash_run::<D>(
            setup,
            flashes,
            Seq::empty(),
            0,
            update_len,
            chunk_len,
            no_faults(),
            k,
        ) is Ok,
{
    lemma_hash_completes::<D>(setup, flashes, Seq::empty(), 0, 0, update_len, chunk_len, k);
}

/// The digest does not depend on the chunks in which the image is read.
pub proof fn law_digest_does_not_depend_on_chunks<D: Digest>(
    setup: Setup,
    flashes: Flashes,
    update_len: u32,
    chunk_len: nat,
    other_chunk_len: nat,
    faults: Faults,
    other_faults: Faults,
)
    requires
        flashes.fit(setup),
        chunk_len > 0,
        other_chunk_len > 0,
    ensures
        ({
            let digest = hash_run::<D>(
                setup,
                flashes,
                Seq::empty(),
                0,
                update_len,
                chunk_len,
                faults,
                0,
            );
            let other = hash_run::<D>(
                setup,
                flashes,
                Seq::empty(),
                0,
                update_len,
                other_chunk_len,
                other_faults,
                0,
            );
            digest is Ok && other is Ok ==> digest == other
        }),
{
    law_digest_is_that_of_the_image::<D>(setup, flashes, update_len, chunk_len, faults, 0);
    law_digest_is_that_of_the_image::<D>(
        setup,
        flashes,
        update_len,
        other_chunk_len,
        other_faults,
        0,
    );
}

/// Firmware that was written from the start of the DFU partition on, in pieces of any sizes, has
/// the digest of the data that were written.
pub proof fn law_written_firmware_has_the_digest_of_its_data<D: Digest>(
    setup: Setup,
    flashes: Flashes,
    last_erased: Option<int>,
    pieces: Seq<Seq<u8>>,
    write_faults: spec_fn(nat) -> Faults,
    update_len: u32,
    chunk_len: nat,
    read_faults: Faults,
)
    requires
        flashes.fit(setup),
        is_addressable(setup.dfu.erase_size as int, 0, pieces.flatten().len() as int),
        pieces.flatten().len() <= setup.dfu.capacity,
        update_len <= pieces.flatten().len(),
        chunk_len > 0,
    ensures
        ({
            let (result, after) = write_pieces_run(
                setup,
                flashes,
                last_erased,
                0,
                pieces,
                write_faults,
            );
            let digest = hash_run::<D>(
                setup,
                after,
                Seq::empty(),
                0,
                update_len,
                chunk_len,
                read_faults,
                0,
            );
            result is Ok && digest is Ok ==> digest == Ok::<Seq<u8>, FirmwareUpdaterError>(
                D::digest_of(pieces.flatten().take(update_len as int)),
            )
        }),
{
    let data = pieces.flatten();
    law_firmware_written_in_pieces_lies_in_dfu(
        setup,
        flashes,
        last_erased,
        0,
        pieces,
        write_faults,
    );
    let (result, after) = write_pieces_run(setup, flashes, last_erased, 0, pieces, write_faults);
    law_digest_is_that_of_the_image::<D>(setup, after, update_len, chunk_len, read_faults, 0);
    if result is Ok {
        assert(after.dfu.subrange(0, update_len as int) =~= data.take(update_len as int));
    }
}

/// Once the signature is verified, what is left is to mark a swap.
proof fn lemma_verify_marks<S: SignatureScheme>(
    setup: Setup,
    flashes: Flashes,
    public_key: Seq<u8>,
    signature: Seq<u8>,
    update_len: u32,
    stage: MarkStage,
    faults: Faults,
    k: nat,
)
    ensures
        verify_run::<S>(
            setup,
            flashes,
            public_key,
            signature,
            update_len,
            VerifyStep::Mark(stage),
            faults,
            k,
        ) == mark_run(setup, flashes, SWAP_MAGIC, stage, faults, k),
    decreases stages_left(stage),
{
    let access = mark_access(setup.state, SWAP_MAGIC, stage);
    let outcome = setup.outcome(access, faults, k);
    let after = flashes.after(setup, access, outcome);
    match mark_next(setup.state, SWAP_MAGIC, stage, outcome, flashes.read_state(access)) {
        Progress::Done(_) => {},
        Progress::Pending(next) => {
            lemma_verify_marks::<S>(
                setup,
                after,
                public_key,
                signature,
                update_len,
                next,
                faults,
                k + 1,
            );
        },
    }
}

/// What follows once `digest` is known, or could not be computed.
spec fn after_digest<S: SignatureScheme>(
    setup: Setup,
    flashes: Flashes,
    public_key: Seq<u8>,
    signature: Seq<u8>,
    digest: Result<Seq<u8>, FirmwareUpdaterError>,
    faults: Faults,
    k: nat,
) -> (Result<(), FirmwareUpdaterError>, Flashes) {
    match digest {
        Err(error) => (Err(error), flashes),
        Ok(message) => if S::verifies(public_key, message, signature) {
            mark_run(setup, flashes, SWAP_MAGIC, MarkStage::ReadMagic, faults, k)
        } else {
            (Err(FirmwareUpdaterError::Signature), flashes)
        },
    }
}

/// Checking an image digests what is left of it, and goes by the digest.
proof fn lemma_verify_digests<S: SignatureScheme>(
    setup: Setup,
    flashes: Flashes,
    public_key: Seq<u8>,
    signature: Seq<u8>,
    absorbed: Seq<u8>,
    offset: u32,
    update_len: u32,
    faults: Faults,
    k: nat,
)
    requires
        offset < update_len,
    ensures
        verify_run::<S>(
            setup,
            flashes,
            public_key,
            signature,
            update_len,
            VerifyStep::Hash { offset, absorbed },
            faults,
            k,
        ) == after_digest::<S>(
            setup,
            flashes,
            public_key,
            signature,
            hash_run::<S::Hash>(
                setup,
                flashes,
                absorbed,
                offset,
                update_len,
                SIGNED_CHUNK_LEN as nat,
                faults,
                k,
            ),
            faults,
            k + hash_reads(update_len - offset, SIGNED_CHUNK_LEN as int),
        ),
    decreases update_len - offset,
{
    let access = chunk_read(offset, SIGNED_CHUNK_LEN as nat);
    let outcome = setup.outcome(access, faults, k);
    assert(flashes.after(setup, access, outcome) == flashes);
    match hash_next(
        update_len,
        SIGNED_CHUNK_LEN as nat,
        offset,
        absorbed,
        outcome,
        flashes.read_dfu(access),
    ) {
        Progress::Done(_) => {
            lemma_verify_marks::<S>(
                setup,
                flashes,
                public_key,
                signature,
                update_len,
                MarkStage::ReadMagic,
                faults,
                k + 1,
            );
        },
        Progress::Pending((next, longer)) => {
            lemma_verify_digests::<S>(
                setup,
                flashes,
                public_key,
                signature,
                longer,
                next,
                update_len,
                faults,
                k + 1,
            );
        },
    }
}

/// Checking an image looks at the state, at the key and at the digest, in this order.
proof fn lemma_verify_run<S: SignatureScheme>(
    setup: Setup,
    flashes: Flashes,
    public_key: Seq<u8>,
    signature: Seq<u8>,
    update_len: u32,
    faults: Faults,
)
    requires
        S::enabled(),
    ensures
        verify_and_mark_run::<S>(setup, flashes, public_key, signature, update_len, faults)
            == match verify_booted_run(setup, flashes, faults, 0) {
            Err(error) => (Err::<(), FirmwareUpdaterError>(error), flashes),
            Ok(()) => if !S::accepts_key(public_key) {
                (Err(FirmwareUpdaterError::Signature), flashes)
            } else {
                after_digest::<S>(
                    setup,
                    flashes,
                    public_key,
                    signature,
                    hash_run::<S::Hash>(
                        setup,
                        flashes,
                        Seq::empty(),
                        0,
                        update_len,
                        SIGNED_CHUNK_LEN as nat,
                        faults,
                        1,
                    ),
                    faults,
                    1 + hash_reads(update_len as int, SIGNED_CHUNK_LEN as int),
                )
            },
        },
{
    let access = state_read(setup.state);
    assert(flashes.after(setup, access, setup.outcome(access, faults, 0)) == flashes);
    if update_len == 0 {
        lemma_verify_marks::<S>(
            setup,
            flashes,
            public_key,
            signature,
            update_len,
            MarkStage::ReadMagic,
            faults,
            1,
        );
    } else {
        lemma_verify_digests::<S>(
            setup,
            flashes,
            public_key,
            signature,
            Seq::empty(),
            0,
            update_len,
            faults,
            1,
        );
    }
}

/// An image is marked for a swap only if its signature vouches for its digest.
///
/// An image that is rejected, or that cannot be read, leaves both partitions as they were. It
/// ends with a signature error where it is not signed, unless the state did not allow the check
/// or a read failed before that was found: then it ends with the error of that.
pub proof fn law_only_signed_images_are_marked<S: SignatureScheme>(
    setup: Setup,
    flashes: Flashes,
    public_key: Seq<u8>,
    signature: Seq<u8>,
    update_len: u32,
    faults: Faults,
)
    requires
        flashes.fit(setup),
        sound_params(setup.state),
    ensures
        ({
            let (result, after) = verify_and_mark_run::<S>(
                setup,
                flashes,
                public_key,
                signature,
                update_len,
                faults,
            );
            let message = S::Hash::digest_of(flashes.dfu.subrange(0, update_len as int));
            let signed = S::accepts_key(public_key) && S::verifies(public_key, message, signature);
            let booted = verify_booted_run(setup, flashes, faults, 0);
            let digest = hash_run::<S::Hash>(
                setup,
                flashes,
                Seq::empty(),
                0,
                update_len,
                SIGNED_CHUNK_LEN as nat,
                faults,
                1,
            );
            &&& after.dfu == flashes.dfu
            &&& result is Ok ==> {
                &&& S::enabled()
                &&& update_len <= flashes.dfu.len()
                &&& signed
                &&& get_state_run(setup, after, no_faults(), 0) == Ok::<State, FirmwareUpdaterError>(
                    State::Swap,
                )
            }
            &&& !S::enabled() ==> result == Err::<(), FirmwareUpdaterError>(
                FirmwareUpdaterError::Signature,
            )
            &&& !S::enabled() || !signed ==> after == flashes && result is Err
            &&& S::enabled() && booted is Err ==> result == booted && after == flashes
            &&& S::enabled() && booted is Ok && !S::accepts_key(public_key) ==> result == Err::<
                (),
                FirmwareUpdaterError,
            >(FirmwareUpdaterError::Signature)
            &&& S::enabled() && booted is Ok && S::accepts_key(public_key) && digest is Err ==> {
                &&& result == Err::<(), FirmwareUpdaterError>(digest->Err_0)
                &&& after == flashes
            }
            &&& S::enabled() && booted is Ok && S::accepts_key(public_key) && digest is Ok
                && !signed ==> result == Err::<(), FirmwareUpdaterError>(
                FirmwareUpdaterError::Signature,
            )
            &&& S::enabled() && booted is Ok && !signed && !(result matches Err(
                FirmwareUpdaterError::Flash(_),
            )) ==> result == Err::<(), FirmwareUpdaterError>(FirmwareUpdaterError::Signature)
            &&& result == Err::<(), FirmwareUpdaterError>(FirmwareUpdaterError::Signature) ==> !(
            S::enabled() && signed)
        }),
{
    if S::enabled() {
        lemma_verify_run::<S>(setup, flashes, public_key, signature, update_len, faults);
    }
    law_digest_is_that_of_the_image::<S::Hash>(
        setup,
        flashes,
        update_len,
        SIGNED_CHUNK_LEN as nat,
        faults,
        1,
    );
    let k = 1 + hash_reads(update_len as int, SIGNED_CHUNK_LEN as int);
    law_marked_state_reads_back(setup, flashes, SWAP_MAGIC, faults, k);
}

/// An image that its signature vouches for is marked for a swap, where the running firmware has
/// been booted and no access fails but for its arguments.
pub proof fn law_signed_images_are_marked<S: SignatureScheme>(
    setup: Setup,
    flashes: Flashes,
    public_key: Seq<u8>,
    signature: Seq<u8>,
    update_len: u32,
)
    requires
        flashes.fit(setup),
        0 < setup.dfu.read_size,
        SIGNED_CHUNK_LEN % setup.dfu.read_size == 0,
        update_len + update_len % 2 <= setup.dfu.capacity,
        can_be_marked(setup.state),
        S::enabled(),
        S::accepts_key(public_key),
        S::verifies(
            public_key,
            S::Hash::digest_of(flashes.dfu.subrange(0, update_len as int)),
            signature,
        ),
        verify_booted_run(setup, flashes, no_faults(), 0) is Ok,
    ensures
        ({
            let (result, after) = verify_and_mark_run::<S>(
                setup,
                flashes,
                public_key,
                signature,
                update_len,
                no_faults(),
            );
            &&& result is Ok
            &&& after.dfu == flashes.dfu
            &&& get_state_run(setup, after, no_faults(), 0) == Ok::<State, FirmwareUpdaterError>(
                State::Swap,
            )
        }),
{
    let chunk_len = SIGNED_CHUNK_LEN as nat;
    let k = 1 + hash_reads(update_len as int, chunk_len as int);
    lemma_verify_run::<S>(setup, flashes, public_key, signature, update_len, no_faults());
    law_digesting_completes::<S::Hash>(setup, flashes, update_len, chunk_len, 1);
    law_digest_is_that_of_the_image::<S::Hash>(
        setup,
        flashes,
        update_len,
        chunk_len,
        no_faults(),
        1,
    );
    law_marking_completes(setup, flashes, SWAP_MAGIC, k);
    law_only_signed_images_are_marked::<S>(
        setup,
        flashes,
        public_key,
        signature,
        update_len,
        no_faults(),
    );
}

/// No image is marked while a swap is marked already.
pub proof fn law_marking_an_image_needs_booted_firmware<S: SignatureScheme>(
    setup: Setup,
    flashes: Flashes,
    public_key: Seq<u8>,
    signature: Seq<u8>,
    update_len: u32,
    faults: Faults,
)
    requires
        S::enabled(),
        get_state_run(setup, flashes, faults, 0) == Ok::<State, FirmwareUpdaterError>(State::Swap),
    ensures
        verify_and_mark_run::<S>(setup, flashes, public_key, signature, update_len, faults) == (
            Err::<(), FirmwareUpdaterError>(FirmwareUpdaterError::BadState),
            flashes,
        ),
{
}

/// A read of the DFU partition fails for its arguments exactly where they are out of bounds or
/// not aligned.
pub proof fn law_reads_are_checked(setup: Setup, offset: u32, len: nat, k: nat)
    ensures
        ({
            let access = Access::Read { partition: Partition::Dfu, offset, len };
            let read_size = setup.dfu.read_size as int;
            setup.outcome(access, no_faults(), k) == if offset + len > setup.dfu.capacity {
                Err::<(), NorFlashErrorKind>(NorFlashErrorKind::OutOfBounds)
            } else if (offset as int) % read_size != 0 || (len as int) % read_size != 0 {
                Err(NorFlashErrorKind::NotAligned)
            } else {
                Ok(())
            }
        }),
{
}

/// An image is read from the DFU partition, chunk after chunk, and a check of a signed image reads
/// the state, then the image in chunks of two bytes, and then makes the accesses of a marking.
pub proof fn law_images_are_read_from_dfu(
    params: NorFlashParams,
    offset: u32,
    chunk_len: nat,
    absorbed: Seq<u8>,
    stage: MarkStage,
)
    ensures
        chunk_read(offset, chunk_len) == (Access::Read {
            partition: Partition::Dfu,
            offset,
            len: chunk_len,
        }),
        verify_access(params, VerifyStep::CheckBooted) == (Access::Read {
            partition: Partition::State,
            offset: 0,
            len: params.buffer_len(),
        }),
        verify_access(params, VerifyStep::Hash { offset, absorbed }) == (Access::Read {
            partition: Partition::Dfu,
            offset,
            len: 2,
        }),
        verify_access(params, VerifyStep::Mark(stage)) == mark_access(params, 0xF0, stage),
{
}

/// A step of digesting takes in the bytes of the chunk that belong to the image and goes on to the
/// next chunk, or has the image where none is left.
pub proof fn law_digesting_takes_in_the_image(
    update_len: u32,
    chunk_len: nat,
    image: Seq<u8>,
    offset: u32,
    outcome: Outcome,
)
    requires
        0 < chunk_len,
        offset < update_len,
        offset + chunk_len <= image.len(),
        update_len <= image.len(),
    ensures
        hash_next(
            update_len,
            chunk_len,
            offset,
            image.subrange(0, offset as int),
            outcome,
            image.subrange(offset as int, offset + chunk_len),
        ) == match outcome {
            Err(kind) => Progress::<(u32, Seq<u8>), Result<Seq<u8>, FirmwareUpdaterError>>::Done(
                Err(FirmwareUpdaterError::Flash(kind)),
            ),
            Ok(()) => if offset + chunk_len < update_len {
                Progress::Pending(
                    ((offset + chunk_len) as u32, image.subrange(0, offset + chunk_len)),
                )
            } else {
                Progress::Done(Ok(image.subrange(0, update_len as int)))
            },
        },
{
    let chunk = image.subrange(offset as int, offset + chunk_len);
    let share = chunk_share(update_len as int, offset as int, chunk_len as int);
    assert(image.subrange(0, offset as int) + chunk.take(share) =~= image.subrange(
        0,
        offset + share,
    ));
}

} // verus!
