//! What holds of marking a bootloader state, whatever fails on the way.

use vstd::prelude::*;

use crate::error::{FirmwareUpdaterError, Outcome};
use crate::firmware_state::{
    after_progress, booted_result, erase_value_is_distinct, mark_access, mark_buffer, mark_next,
    rotated, state_read, state_result, FirmwareState, MarkStage,
};
use crate::flash::{Access, NorFlashParams, Partition, Progress};
use crate::model::{
    erased_byte, get_state_run, mark_dfu_run, mark_history, mark_run, no_faults, reads_erased,
    sound_params, stages_left, verify_booted_run, Faults, Flashes, Setup,
};
use crate::state::{
    decode_state, fill_of, filled_with, is_magic, law_every_byte_tells_the_state,
    law_magic_round_trip, state_of_magic, State, BOOT_MAGIC, DFU_DETACH_MAGIC, PROGRESS_MAGIC,
    SWAP_MAGIC,
};

verus! {

/// An erased word means `Boot`, and is not the mark of void progress.
pub proof fn law_erased_word_means_boot(erase_value: Seq<u8>)
    requires
        erase_value_is_distinct(erase_value),
    ensures
        decode_state(erase_value) == State::Boot,
        erase_value != fill_of(PROGRESS_MAGIC, erase_value.len()),
{
    let i = choose|i: int| 0 <= i < erase_value.len() && !is_magic(#[trigger] erase_value[i]);
    assert(erase_value[i] != SWAP_MAGIC);
}

/// Marking from `stage` on touches the state partition alone, and fails only as an access does.
/// Where it ends well it has written the magic, and nothing but that after the erasure.
proof fn lemma_mark_from(
    setup: Setup,
    flashes: Flashes,
    magic: u8,
    stage: MarkStage,
    faults: Faults,
    k: nat,
)
    requires
        flashes.fit(setup),
        sound_params(setup.state),
    ensures
        ({
            let (result, after) = mark_run(setup, flashes, magic, stage, faults, k);
            let word_len = setup.state.write_size as int;
            let capacity = setup.state.capacity as int;
            let marked = filled_with(flashes.magic_word(setup), magic);
            &&& after.dfu == flashes.dfu
            &&& after.fit(setup)
            &&& result is Err ==> result->Err_0 is Flash
            &&& result is Ok ==> {
                &&& filled_with(after.magic_word(setup), magic)
                &&& word_len <= capacity
                &&& setup.state.read_size <= capacity || stage != MarkStage::ReadMagic
                &&& match stage {
                    MarkStage::WriteMagic => forall|i: int|
                        word_len <= i < capacity ==> after.state[i] == flashes.state[i],
                    MarkStage::ReadMagic => if marked {
                        after == flashes
                    } else {
                        reads_erased(setup.state, after.state, word_len, capacity)
                    },
                    _ => reads_erased(setup.state, after.state, word_len, capacity),
                }
            }
        }),
    decreases stages_left(stage),
{
    let word_len = setup.state.write_size as int;
    let access = mark_access(setup.state, magic, stage);
    let outcome = setup.outcome(access, faults, k);
    let next = flashes.after(setup, access, outcome);
    if outcome is Ok {
        if stage == MarkStage::ReadMagic {
            assert(flashes.read_state(access).subrange(0, word_len) =~= flashes.magic_word(setup));
        }
        match mark_next(setup.state, magic, stage, outcome, flashes.read_state(access)) {
            Progress::Done(_) => {},
            Progress::Pending(to) => {
                lemma_mark_from(setup, next, magic, to, faults, k + 1);
            },
        }
    }
}

/// Marking that ends well leaves the magic in the first word, and no other partition touched. A
/// later read of the state brings the marked state back. Where the magic was not there before,
/// all that follows it reads as erased; where it was, nothing has changed.
pub proof fn law_marked_state_reads_back(
    setup: Setup,
    flashes: Flashes,
    magic: u8,
    faults: Faults,
    k: nat,
)
    requires
        flashes.fit(setup),
        sound_params(setup.state),
    ensures
        ({
            let (result, after) = mark_run(setup, flashes, magic, MarkStage::ReadMagic, faults, k);
            &&& after.dfu == flashes.dfu
            &&& after.fit(setup)
            &&& result is Err ==> result->Err_0 is Flash
            &&& result is Ok ==> {
                &&& filled_with(after.magic_word(setup), magic)
                &&& if filled_with(flashes.magic_word(setup), magic) {
                    after == flashes
                } else {
                    reads_erased(
                        setup.state,
                        after.state,
                        setup.state.write_size as int,
                        setup.state.capacity as int,
                    )
                }
                &&& decode_state(after.magic_word(setup)) == state_of_magic(magic)
                &&& get_state_run(setup, after, no_faults(), 0) == Ok::<State, FirmwareUpdaterError>(
                    state_of_magic(magic),
                )
            }
        }),
{
    let word_len = setup.state.write_size as int;
    let access = state_read(setup.state);
    let (result, after) = mark_run(setup, flashes, magic, MarkStage::ReadMagic, faults, k);
    law_magic_round_trip(magic, word_len as nat);
    lemma_mark_from(setup, flashes, magic, MarkStage::ReadMagic, faults, k);
    if result is Ok {
        assert(flashes.read_state(access).subrange(0, word_len) =~= flashes.magic_word(setup));
        assert(after.read_state(access).subrange(0, word_len) =~= after.magic_word(setup));
    }
}

/// Marking that stops between two accesses, or at one that fails and changes nothing, leaves a
/// state partition that tells the old state, the new one, or `Boot`: its first word is the old
/// one, an erased one, or filled with the new magic. Nothing is said of an erasure or a write
/// that is cut off halfway.
#[verifier::spinoff_prover]
pub proof fn law_interrupted_marking_is_old_new_or_boot(
    setup: Setup,
    flashes: Flashes,
    magic: u8,
    faults: Faults,
    k: nat,
)
    requires
        flashes.fit(setup),
        sound_params(setup.state),
        setup.state.erase_value@.len() == setup.state.write_size,
        erase_value_is_distinct(setup.state.erase_value@),
    ensures
        ({
            let (result, after) = mark_run(setup, flashes, magic, MarkStage::ReadMagic, faults, k);
            let word = after.magic_word(setup);
            ||| word == flashes.magic_word(setup)
            ||| word == setup.state.erase_value@ && decode_state(word) == State::Boot
            ||| filled_with(word, magic) && decode_state(word) == state_of_magic(magic)
        }),
{
    law_marked_state_reads_back(setup, flashes, magic, faults, k);
    reveal_with_fuel(mark_run, 6);
    let word_len = setup.state.write_size as int;
    let erase_value = setup.state.erase_value@;
    let (result, after) = mark_run(setup, flashes, magic, MarkStage::ReadMagic, faults, k);
    law_erased_word_means_boot(erase_value);
    if result is Err {
        let word = after.magic_word(setup);
        if word_len <= setup.state.capacity {
            assert forall|i: int| 0 <= i < word_len implies #[trigger] erased_byte(setup.state, i)
                == erase_value[i] by {
                vstd::arithmetic::div_mod::lemma_small_mod(i as nat, word_len as nat);
            }
            assert(word =~= flashes.magic_word(setup) || word =~= erase_value);
        }
    }
}

/// Progress that still counts is made void before the state partition is erased: no erasure
/// begins while the progress word reads as erased.
#[verifier::spinoff_prover]
pub proof fn law_progress_is_void_before_erasure(
    setup: Setup,
    flashes: Flashes,
    magic: u8,
    faults: Faults,
    k: nat,
)
    requires
        flashes.fit(setup),
        sound_params(setup.state),
        erase_value_is_distinct(setup.state.erase_value@),
    ensures
        ({
            let history = mark_history(setup, flashes, magic, MarkStage::ReadMagic, faults, k);
            forall|i: int|
                0 <= i < history.len() && (#[trigger] history[i]).0 is Erase
                    ==> history[i].1.progress_word(setup) != setup.state.erase_value@
        }),
{
    reveal_with_fuel(mark_history, 6);
    let word_len = setup.state.write_size as int;
    let erase_value = setup.state.erase_value@;
    law_erased_word_means_boot(erase_value);
    let history = mark_history(setup, flashes, magic, MarkStage::ReadMagic, faults, k);
    let first = state_read(setup.state);
    let second = mark_access(setup.state, magic, MarkStage::ReadProgress);
    assert forall|i: int|
        0 <= i < history.len() && (#[trigger] history[i]).0 is Erase implies history[i].1.progress_word(
        setup,
    ) != erase_value by {
        let before = history[i].1;
        if before.state == flashes.state {
            assert(flashes.read_state(first).subrange(word_len, 2 * word_len)
                =~= flashes.progress_word(setup) || setup.state.read_size <= 2 * word_len);
            assert(flashes.read_state(second).subrange(0, word_len) =~= flashes.progress_word(
                setup,
            ) || setup.state.read_size > 2 * word_len);
        } else {
            assert(before.progress_word(setup) =~= fill_of(PROGRESS_MAGIC, word_len as nat));
        }
    }
}

/// Marking a state that is marked already reads it, and does nothing else.
pub proof fn law_marking_again_changes_nothing(
    setup: Setup,
    flashes: Flashes,
    magic: u8,
    faults: Faults,
    k: nat,
)
    requires
        flashes.fit(setup),
        filled_with(flashes.magic_word(setup), magic),
        setup.outcome(state_read(setup.state), faults, k) is Ok,
    ensures
        mark_run(setup, flashes, magic, MarkStage::ReadMagic, faults, k) == (
            Ok::<(), FirmwareUpdaterError>(()),
            flashes,
        ),
        mark_history(setup, flashes, magic, MarkStage::ReadMagic, faults, k) == seq![
            (state_read(setup.state), flashes),
        ],
{
    let access = state_read(setup.state);
    assert(flashes.read_state(access).subrange(0, setup.state.write_size as int)
        =~= flashes.magic_word(setup));
}

/// The accesses of marking are aligned and lie in the partition. The progress word can be
/// read on its own, or comes with the magic.
pub open spec fn can_be_marked(params: NorFlashParams) -> bool {
    &&& sound_params(params)
    &&& params.capacity % params.erase_size == 0
    &&& if params.read_size <= 2 * params.write_size {
        &&& params.write_size % params.read_size == 0
        &&& 2 * params.write_size <= params.capacity
    } else {
        params.read_size <= params.capacity
    }
}

/// Marking ends well where no access fails but for its arguments.
#[verifier::spinoff_prover]
pub proof fn law_marking_completes(setup: Setup, flashes: Flashes, magic: u8, k: nat)
    requires
        flashes.fit(setup),
        can_be_marked(setup.state),
    ensures
        mark_run(setup, flashes, magic, MarkStage::ReadMagic, no_faults(), k).0 is Ok,
{
    reveal_with_fuel(mark_run, 6);
    let params = setup.state;
    let read_size = params.read_size as int;
    let word_len = params.write_size as int;
    vstd::arithmetic::div_mod::lemma_mod_self_0(read_size);
    vstd::arithmetic::div_mod::lemma_mod_self_0(word_len);
    vstd::arithmetic::div_mod::lemma_small_mod(0, params.read_size as nat);
    vstd::arithmetic::div_mod::lemma_small_mod(0, params.write_size as nat);
    vstd::arithmetic::div_mod::lemma_small_mod(0, params.erase_size as nat);
    if read_size <= 2 * word_len {
        if word_len < read_size {
            vstd::arithmetic::div_mod::lemma_small_mod(word_len as nat, read_size as nat);
        }
        assert(params.buffer_len() == word_len);
    }
}

/// A request for USB DFU that ends well is there to be read. It is refused while a swap is
/// marked, and nothing is written then.
pub proof fn law_dfu_request_needs_booted_firmware(setup: Setup, flashes: Flashes, faults: Faults)
    requires
        flashes.fit(setup),
        sound_params(setup.state),
    ensures
        ({
            let (result, after) = mark_dfu_run(setup, flashes, faults);
            &&& after.dfu == flashes.dfu
            &&& result is Ok ==> get_state_run(setup, after, no_faults(), 0) == Ok::<
                State,
                FirmwareUpdaterError,
            >(State::DfuDetach)
            &&& get_state_run(setup, flashes, faults, 0) == Ok::<State, FirmwareUpdaterError>(
                State::Swap,
            ) ==> (result, after) == (
                Err::<(), FirmwareUpdaterError>(FirmwareUpdaterError::BadState),
                flashes,
            )
        }),
{
    law_marked_state_reads_back(setup, flashes, DFU_DETACH_MAGIC, faults, 1);
}

/// The check for booted firmware fails with `BadState` exactly where the state that is read is
/// `Swap`. It fails as the read does, and passes for every other state.
pub proof fn law_only_swap_is_a_bad_state(setup: Setup, flashes: Flashes, faults: Faults, k: nat)
    ensures
        verify_booted_run(setup, flashes, faults, k) == match get_state_run(
            setup,
            flashes,
            faults,
            k,
        ) {
            Err(error) => Err(error),
            Ok(State::Swap) => Err(FirmwareUpdaterError::BadState),
            Ok(State::Boot) => Ok(()),
            Ok(State::Revert) => Ok(()),
            Ok(State::DfuDetach) => Ok(()),
        },
{
}

/// Marking firmware as booted allows updates again: what `mark_updated` forbade, `mark_booted`
/// permits.
pub proof fn law_marking_booted_ends_a_swap(
    setup: Setup,
    flashes: Flashes,
    swap_faults: Faults,
    boot_faults: Faults,
)
    requires
        flashes.fit(setup),
        sound_params(setup.state),
    ensures
        ({
            let (swap_result, swapped) = mark_run(
                setup,
                flashes,
                SWAP_MAGIC,
                MarkStage::ReadMagic,
                swap_faults,
                0,
            );
            let (boot_result, booted) = mark_run(
                setup,
                swapped,
                BOOT_MAGIC,
                MarkStage::ReadMagic,
                boot_faults,
                0,
            );
            &&& swap_result is Ok ==> verify_booted_run(setup, swapped, no_faults(), 0) == Err::<
                (),
                FirmwareUpdaterError,
            >(FirmwareUpdaterError::BadState)
            &&& boot_result is Ok ==> verify_booted_run(setup, booted, no_faults(), 0) is Ok
        }),
{
    law_marked_state_reads_back(setup, flashes, SWAP_MAGIC, swap_faults, 0);
    let (swap_result, swapped) = mark_run(
        setup,
        flashes,
        SWAP_MAGIC,
        MarkStage::ReadMagic,
        swap_faults,
        0,
    );
    law_marked_state_reads_back(setup, swapped, BOOT_MAGIC, boot_faults, 0);
}

/// The state is judged by the first word of the buffer alone, and by all of it. What a longer
/// read brought behind that word plays no part.
pub proof fn law_the_first_word_is_judged(state: FirmwareState, read: Outcome)
    requires
        state.wf(),
        state.params().write_size > 0,
    ensures
        ({
            let word_len = state.params().write_size as int;
            let result = state_result(read, state.word());
            let booted = booted_result(read, state.word());
            &&& state.word().len() == word_len
            &&& forall|i: int| 0 <= i < word_len ==> state.word()[i] == state.buffer()[i]
            &&& read matches Err(kind) ==> {
                &&& result == Err::<State, FirmwareUpdaterError>(FirmwareUpdaterError::Flash(kind))
                &&& booted == Err::<(), FirmwareUpdaterError>(FirmwareUpdaterError::Flash(kind))
            }
            &&& read is Ok ==> {
                &&& result is Ok
                &&& result->Ok_0 == State::Swap <==> forall|i: int|
                    0 <= i < word_len ==> state.buffer()[i] == 0xF0
                &&& result->Ok_0 == State::Revert <==> forall|i: int|
                    0 <= i < word_len ==> state.buffer()[i] == 0xC0
                &&& result->Ok_0 == State::DfuDetach <==> forall|i: int|
                    0 <= i < word_len ==> state.buffer()[i] == 0xE0
                &&& booted == if forall|i: int| 0 <= i < word_len ==> state.buffer()[i] == 0xF0 {
                    Err::<(), FirmwareUpdaterError>(FirmwareUpdaterError::BadState)
                } else {
                    Ok(())
                }
            }
        }),
{
    let word = state.word();
    law_every_byte_tells_the_state(word);
    assert(forall|i: int| 0 <= i < word.len() ==> word[i] == state.buffer()[i]);
    assert(decode_state(word) == State::Swap <==> forall|i: int|
        0 <= i < state.params().write_size ==> state.buffer()[i] == 0xF0) by {
        if decode_state(word) == State::Swap {
            assert forall|i: int| 0 <= i < state.params().write_size implies state.buffer()[i]
                == 0xF0 by {
                assert(word[i] == 0xF0);
            }
        }
    }
    assert(decode_state(word) == State::Revert <==> forall|i: int|
        0 <= i < state.params().write_size ==> state.buffer()[i] == 0xC0) by {
        if decode_state(word) == State::Revert {
            assert forall|i: int| 0 <= i < state.params().write_size implies state.buffer()[i]
                == 0xC0 by {
                assert(word[i] == 0xC0);
            }
        }
    }
    assert(decode_state(word) == State::DfuDetach <==> forall|i: int|
        0 <= i < state.params().write_size ==> state.buffer()[i] == 0xE0) by {
        if decode_state(word) == State::DfuDetach {
            assert forall|i: int| 0 <= i < state.params().write_size implies state.buffer()[i]
                == 0xE0 by {
                assert(word[i] == 0xE0);
            }
        }
    }
}

/// The state is what the first bytes of the state partition tell, where they can be read.
pub proof fn law_the_partition_tells_the_state(
    setup: Setup,
    flashes: Flashes,
    faults: Faults,
    k: nat,
)
    requires
        flashes.fit(setup),
        setup.state.write_size > 0,
    ensures
        ({
            let word_len = setup.state.write_size as int;
            let len = if word_len >= setup.state.read_size {
                word_len as nat
            } else {
                setup.state.read_size as nat
            };
            let read = Access::Read { partition: Partition::State, offset: 0, len };
            let result = get_state_run(setup, flashes, faults, k);
            &&& setup.outcome(read, faults, k) matches Err(kind) ==> result == Err::<
                State,
                FirmwareUpdaterError,
            >(FirmwareUpdaterError::Flash(kind))
            &&& setup.outcome(read, faults, k) is Ok ==> {
                &&& result is Ok
                &&& result->Ok_0 == State::Swap <==> forall|i: int|
                    0 <= i < word_len ==> flashes.state[i] == 0xF0
                &&& result->Ok_0 == State::Revert <==> forall|i: int|
                    0 <= i < word_len ==> flashes.state[i] == 0xC0
                &&& result->Ok_0 == State::DfuDetach <==> forall|i: int|
                    0 <= i < word_len ==> flashes.state[i] == 0xE0
            }
        }),
{
    let word_len = setup.state.write_size as int;
    let access = state_read(setup.state);
    let word = flashes.read_state(access).subrange(0, word_len);
    if setup.outcome(access, faults, k) is Ok {
        law_every_byte_tells_the_state(word);
        assert(forall|i: int| 0 <= i < word_len ==> word[i] == flashes.state[i]);
        if decode_state(word) == State::Swap {
            assert forall|i: int| 0 <= i < word_len implies flashes.state[i] == 0xF0 by {
                assert(word[i] == 0xF0);
            }
        }
        if decode_state(word) == State::Revert {
            assert forall|i: int| 0 <= i < word_len implies flashes.state[i] == 0xC0 by {
                assert(word[i] == 0xC0);
            }
        }
        if decode_state(word) == State::DfuDetach {
            assert forall|i: int| 0 <= i < word_len implies flashes.state[i] == 0xE0 by {
                assert(word[i] == 0xE0);
            }
        }
    }
}

/// An updater takes a state partition where an erased word holds at least one byte that is none
/// of the magic bytes.
pub proof fn law_one_byte_makes_an_erased_word_distinct(erase_value: Seq<u8>)
    ensures
        erase_value_is_distinct(erase_value) <==> exists|i: int|
            0 <= i < erase_value.len() && #[trigger] erase_value[i] != 0xD0 && erase_value[i] != 0xF0
                && erase_value[i] != 0xE0 && erase_value[i] != 0xC0 && erase_value[i]
                != PROGRESS_MAGIC,
{
    if erase_value_is_distinct(erase_value) {
        let i = choose|i: int| 0 <= i < erase_value.len() && !is_magic(#[trigger] erase_value[i]);
        assert(erase_value[i] != 0xD0);
    }
    if exists|i: int|
        0 <= i < erase_value.len() && #[trigger] erase_value[i] != 0xD0 && erase_value[i] != 0xF0
            && erase_value[i] != 0xE0 && erase_value[i] != 0xC0 && erase_value[i] != PROGRESS_MAGIC {
        let i = choose|i: int|
            0 <= i < erase_value.len() && #[trigger] erase_value[i] != 0xD0 && erase_value[i] != 0xF0
                && erase_value[i] != 0xE0 && erase_value[i] != 0xC0 && erase_value[i]
                != PROGRESS_MAGIC;
        assert(!is_magic(erase_value[i]));
    }
}

/// The accesses that set `magic` in a partition that holds `flashes.state`, if none fails.
pub open spec fn marking_accesses(setup: Setup, flashes: Flashes, magic: u8) -> Seq<Access> {
    let word_len = setup.state.write_size as int;
    let len = if word_len >= setup.state.read_size {
        word_len as nat
    } else {
        setup.state.read_size as nat
    };
    let partition = Partition::State;
    let read = seq![Access::Read { partition, offset: 0, len }];
    if flashes.state.subrange(0, word_len) == Seq::new(word_len as nat, |i: int| magic) {
        read
    } else {
        let second = if setup.state.read_size <= 2 * word_len {
            seq![Access::Read { partition, offset: word_len as u32, len }]
        } else {
            Seq::empty()
        };
        let voiding = if flashes.state.subrange(word_len, 2 * word_len)
            == setup.state.erase_value@ {
            seq![
                Access::Write {
                    partition,
                    offset: word_len as u32,
                    data: Seq::new(word_len as nat, |i: int| PROGRESS_MAGIC),
                },
            ]
        } else {
            Seq::empty()
        };
        read + second + voiding + seq![
            Access::Erase { partition, from: 0, to: setup.state.capacity as u32 },
            Access::Write {
                partition,
                offset: 0,
                data: Seq::new(word_len as nat, |i: int| magic),
            },
        ]
    }
}

/// `history` makes `accesses` one by one, each of them once, and `result` is that of the first that
/// fails, or is well after the last.
pub open spec fn makes_accesses(
    setup: Setup,
    history: Seq<(Access, Flashes)>,
    result: Result<(), FirmwareUpdaterError>,
    accesses: Seq<Access>,
    faults: Faults,
    k: nat,
) -> bool {
    let last = history.len() - 1;
    &&& 0 < history.len() <= accesses.len()
    &&& forall|i: int| 0 <= i < history.len() ==> (#[trigger] history[i]).0 == accesses[i]
    &&& forall|i: int|
        0 <= i < last ==> setup.outcome(#[trigger] accesses[i], faults, (k + i) as nat) is Ok
    &&& match setup.outcome(accesses[last], faults, (k + last) as nat) {
        Ok(()) => history.len() == accesses.len() && result == Ok::<(), FirmwareUpdaterError>(()),
        Err(kind) => result == Err::<(), FirmwareUpdaterError>(FirmwareUpdaterError::Flash(kind)),
    }
}

/// The accesses of marking from `stage` on, by the first of them and those after it.
#[verifier::spinoff_prover]
proof fn lemma_makes_first_access(
    setup: Setup,
    flashes: Flashes,
    magic: u8,
    stage: MarkStage,
    accesses: Seq<Access>,
    faults: Faults,
    k: nat,
)
    requires
        accesses.len() > 0,
        accesses[0] == mark_access(setup.state, magic, stage),
        ({
            let access = accesses[0];
            let outcome = setup.outcome(access, faults, k);
            let after = flashes.after(setup, access, outcome);
            outcome is Ok ==> match mark_next(
                setup.state,
                magic,
                stage,
                outcome,
                flashes.read_state(access),
            ) {
                Progress::Done(ended) => ended is Ok && accesses.len() == 1,
                Progress::Pending(next) => makes_accesses(
                    setup,
                    mark_history(setup, after, magic, next, faults, k + 1),
                    mark_run(setup, after, magic, next, faults, k + 1).0,
                    accesses.drop_first(),
                    faults,
                    k + 1,
                ),
            }
        }),
    ensures
        makes_accesses(
            setup,
            mark_history(setup, flashes, magic, stage, faults, k),
            mark_run(setup, flashes, magic, stage, faults, k).0,
            accesses,
            faults,
            k,
        ),
{
    let access = accesses[0];
    let outcome = setup.outcome(access, faults, k);
    let after = flashes.after(setup, access, outcome);
    let history = mark_history(setup, flashes, magic, stage, faults, k);
    let next = mark_next(setup.state, magic, stage, outcome, flashes.read_state(access));
    if outcome is Ok && next is Pending {
        let rest = mark_history(setup, after, magic, next->Pending_0, faults, k + 1);
        let left = accesses.drop_first();
        assert(history == seq![(access, flashes)] + rest);
        assert forall|i: int| 0 <= i < history.len() implies (#[trigger] history[i]).0
            == accesses[i] by {
            if i > 0 {
                assert(history[i] == rest[i - 1]);
                assert(accesses[i] == left[i - 1]);
            }
        }
        assert forall|i: int| 0 <= i < history.len() - 1 implies setup.outcome(
            #[trigger] accesses[i],
            faults,
            (k + i) as nat,
        ) is Ok by {
            if i > 0 {
                assert(accesses[i] == left[i - 1]);
                assert(k + i == k + 1 + (i - 1));
            }
        }
        assert(accesses[history.len() - 1] == left[rest.len() - 1]);
        assert(k + (history.len() - 1) == k + 1 + (rest.len() - 1));
    }
}

/// Marking makes its accesses one by one, each of them once. It ends with the first that fails,
/// as that failed, or well after the last.
#[verifier::spinoff_prover]
pub proof fn law_marking_makes_its_accesses(
    setup: Setup,
    flashes: Flashes,
    magic: u8,
    faults: Faults,
    k: nat,
)
    requires
        flashes.fit(setup),
        sound_params(setup.state),
    ensures
        makes_accesses(
            setup,
            mark_history(setup, flashes, magic, MarkStage::ReadMagic, faults, k),
            mark_run(setup, flashes, magic, MarkStage::ReadMagic, faults, k).0,
            marking_accesses(setup, flashes, magic),
            faults,
            k,
        ),
{
    let state = setup.state;
    let word_len = state.write_size as int;
    let accesses = marking_accesses(setup, flashes, magic);
    let first = mark_access(state, magic, MarkStage::ReadMagic);
    let second = mark_access(state, magic, MarkStage::ReadProgress);
    let voiding = mark_access(state, magic, MarkStage::InvalidateProgress);
    let erasure = mark_access(state, magic, MarkStage::Erase);
    let write = mark_access(state, magic, MarkStage::WriteMagic);
    let word = flashes.state.subrange(0, word_len);
    let progress = flashes.state.subrange(word_len, 2 * word_len);
    assert(fill_of(magic, word_len as nat) =~= Seq::new(word_len as nat, |i: int| magic));
    assert(fill_of(PROGRESS_MAGIC, word_len as nat) =~= Seq::new(
        word_len as nat,
        |i: int| PROGRESS_MAGIC,
    ));
    if setup.outcome(first, faults, k) is Ok {
        assert(flashes.read_state(first).subrange(0, word_len) =~= word);
        law_every_byte_tells_the_state(word);
        assert(filled_with(word, magic) <==> word == Seq::new(word_len as nat, |i: int| magic));
    }
    if setup.outcome(first, faults, k) is Ok && !filled_with(word, magic) {
        let again = state.read_size <= 2 * word_len;
        let known = if again {
            k + 2
        } else {
            k + 1
        };
        let ends = seq![erasure, write];
        if again {
            if setup.outcome(second, faults, k + 1) is Ok {
                assert(flashes.read_state(second).subrange(0, word_len) =~= progress);
            }
        } else {
            assert(flashes.read_state(first).subrange(word_len, 2 * word_len) =~= progress);
        }
        if progress == state.erase_value@ {
            let voided = flashes.after(setup, voiding, Ok(()));
            lemma_makes_ends(setup, voided, magic, faults, known + 1);
            let left = seq![voiding] + ends;
            assert(left.drop_first() =~= ends);
            lemma_makes_first_access(
                setup,
                flashes,
                magic,
                MarkStage::InvalidateProgress,
                left,
                faults,
                known,
            );
            lemma_makes_reads(setup, flashes, magic, left, faults, k);
        } else {
            lemma_makes_ends(setup, flashes, magic, faults, known);
            lemma_makes_reads(setup, flashes, magic, ends, faults, k);
        }
        let left = if progress == state.erase_value@ {
            seq![voiding] + ends
        } else {
            ends
        };
        if again {
            assert(accesses =~= seq![first, second] + left);
        } else {
            assert(accesses =~= seq![first] + left);
        }
    } else {
        assert(accesses[0] == first);
        lemma_makes_first_access(setup, flashes, magic, MarkStage::ReadMagic, accesses, faults, k);
    }
}

/// Marking ends with the erasure and the write of the magic.
proof fn lemma_makes_ends(setup: Setup, flashes: Flashes, magic: u8, faults: Faults, k: nat)
    ensures
        makes_accesses(
            setup,
            mark_history(setup, flashes, magic, MarkStage::Erase, faults, k),
            mark_run(setup, flashes, magic, MarkStage::Erase, faults, k).0,
            seq![
                mark_access(setup.state, magic, MarkStage::Erase),
                mark_access(setup.state, magic, MarkStage::WriteMagic),
            ],
            faults,
            k,
        ),
{
    let erasure = mark_access(setup.state, magic, MarkStage::Erase);
    let write = mark_access(setup.state, magic, MarkStage::WriteMagic);
    let erased = flashes.after(setup, erasure, Ok(()));
    lemma_makes_first_access(
        setup,
        erased,
        magic,
        MarkStage::WriteMagic,
        seq![write],
        faults,
        k + 1,
    );
    assert(seq![erasure, write].drop_first() =~= seq![write]);
    lemma_makes_first_access(
        setup,
        flashes,
        magic,
        MarkStage::Erase,
        seq![erasure, write],
        faults,
        k,
    );
}

/// Marking of what is not marked yet begins with the reads that bring the progress word.
#[verifier::spinoff_prover]
proof fn lemma_makes_reads(
    setup: Setup,
    flashes: Flashes,
    magic: u8,
    left: Seq<Access>,
    faults: Faults,
    k: nat,
)
    requires
        flashes.fit(setup),
        sound_params(setup.state),
        setup.outcome(state_read(setup.state), faults, k) is Ok,
        !filled_with(flashes.state.subrange(0, setup.state.write_size as int), magic),
        ({
            let word_len = setup.state.write_size as int;
            let known = if setup.state.read_size <= 2 * word_len {
                k + 2
            } else {
                k + 1
            };
            let stage = after_progress(setup.state, flashes.state.subrange(word_len, 2 * word_len));
            makes_accesses(
                setup,
                mark_history(setup, flashes, magic, stage, faults, known),
                mark_run(setup, flashes, magic, stage, faults, known).0,
                left,
                faults,
                known,
            )
        }),
    ensures
        ({
            let first = mark_access(setup.state, magic, MarkStage::ReadMagic);
            let second = mark_access(setup.state, magic, MarkStage::ReadProgress);
            makes_accesses(
                setup,
                mark_history(setup, flashes, magic, MarkStage::ReadMagic, faults, k),
                mark_run(setup, flashes, magic, MarkStage::ReadMagic, faults, k).0,
                if setup.state.read_size <= 2 * setup.state.write_size {
                    seq![first, second] + left
                } else {
                    seq![first] + left
                },
                faults,
                k,
            )
        }),
{
    let state = setup.state;
    let word_len = state.write_size as int;
    let first = mark_access(state, magic, MarkStage::ReadMagic);
    let second = mark_access(state, magic, MarkStage::ReadProgress);
    let progress = flashes.state.subrange(word_len, 2 * word_len);
    assert(flashes.read_state(first).subrange(0, word_len) =~= flashes.state.subrange(0, word_len));
    assert(flashes.after(setup, first, Ok(())) == flashes);
    if state.read_size <= 2 * state.write_size {
        assert(flashes.after(setup, second, Ok(())) == flashes);
        if setup.outcome(second, faults, k + 1) is Ok {
            assert(flashes.read_state(second).subrange(0, word_len) =~= progress);
        }
        let from_second = seq![second] + left;
        assert(from_second.drop_first() =~= left);
        lemma_makes_first_access(
            setup,
            flashes,
            magic,
            MarkStage::ReadProgress,
            from_second,
            faults,
            k + 1,
        );
        let all = seq![first, second] + left;
        assert(all.drop_first() =~= from_second);
        lemma_makes_first_access(setup, flashes, magic, MarkStage::ReadMagic, all, faults, k);
    } else {
        assert(flashes.read_state(first).subrange(word_len, 2 * word_len) =~= progress);
        let all = seq![first] + left;
        assert(all.drop_first() =~= left);
        lemma_makes_first_access(setup, flashes, magic, MarkStage::ReadMagic, all, faults, k);
    }
}

/// What a step of marking leaves in the buffer, byte by byte.
pub proof fn law_marking_leaves_the_buffer(
    params: NorFlashParams,
    magic: u8,
    stage: MarkStage,
    outcome: Outcome,
    buffer: Seq<u8>,
    i: int,
)
    requires
        buffer.len() == params.buffer_len(),
        0 <= i < buffer.len(),
    ensures
        ({
            let word_len = params.write_size as int;
            let len = buffer.len() as int;
            let after = mark_buffer(params, magic, stage, outcome, buffer);
            let marked = forall|j: int| 0 <= j < word_len ==> buffer[j] == magic;
            &&& after.len() == len
            &&& outcome is Err ==> after == buffer
            &&& outcome is Ok ==> match stage {
                MarkStage::Erase => after[i] == magic,
                MarkStage::InvalidateProgress => after == buffer,
                MarkStage::WriteMagic => after == buffer,
                MarkStage::ReadProgress => after[i] == if buffer.subrange(0, word_len)
                    == params.erase_value@ {
                    PROGRESS_MAGIC
                } else {
                    buffer[i]
                },
                MarkStage::ReadMagic => if marked || params.read_size <= 2 * word_len {
                    after == buffer
                } else {
                    after[i] == if buffer.subrange(word_len, 2 * word_len) == params.erase_value@ {
                        PROGRESS_MAGIC
                    } else if i + word_len < len {
                        buffer[i + word_len]
                    } else {
                        buffer[i + word_len - len]
                    }
                },
            }
        }),
{
    let word_len = params.write_size as int;
    let word = buffer.subrange(0, word_len);
    assert(filled_with(word, magic) <==> forall|j: int|
        0 <= j < word_len ==> buffer[j] == magic) by {
        if filled_with(word, magic) {
            assert forall|j: int| 0 <= j < word_len implies buffer[j] == magic by {
                assert(word[j] == magic);
            }
        }
    }
    if params.read_size > 2 * word_len {
        assert(rotated(buffer, word_len).subrange(0, word_len) =~= buffer.subrange(
            word_len,
            2 * word_len,
        ));
    }
}

/// What is answered for the state, and whether the running firmware counts as booted, goes by the
/// first bytes of the buffer, as many as a word has.
pub proof fn law_the_state_is_answered(
    state: FirmwareState,
    read: Outcome,
    answer: Result<State, FirmwareUpdaterError>,
    booted: Result<(), FirmwareUpdaterError>,
)
    requires
        state.wf(),
        state.params().write_size > 0,
        call_ensures(FirmwareState::get_state, (&state, read), answer),
        call_ensures(FirmwareState::verify_booted, (&state, read), booted),
    ensures
        ({
            let word_len = state.params().write_size as int;
            &&& read matches Err(kind) ==> {
                &&& answer == Err::<State, FirmwareUpdaterError>(FirmwareUpdaterError::Flash(kind))
                &&& booted == Err::<(), FirmwareUpdaterError>(FirmwareUpdaterError::Flash(kind))
            }
            &&& read is Ok ==> {
                &&& answer is Ok
                &&& answer->Ok_0 == State::Swap <==> forall|i: int|
                    0 <= i < word_len ==> state.buffer()[i] == 0xF0
                &&& answer->Ok_0 == State::Revert <==> forall|i: int|
                    0 <= i < word_len ==> state.buffer()[i] == 0xC0
                &&& answer->Ok_0 == State::DfuDetach <==> forall|i: int|
                    0 <= i < word_len ==> state.buffer()[i] == 0xE0
                &&& booted == if answer->Ok_0 == State::Swap {
                    Err::<(), FirmwareUpdaterError>(FirmwareUpdaterError::BadState)
                } else {
                    Ok(())
                }
            }
        }),
{
    law_the_first_word_is_judged(state, read);
}

/// A state partition takes a buffer that has the larger of its write and read size, and no other,
/// where an erased word holds a byte that is no magic.
pub proof fn law_buffers_have_the_larger_size(params: NorFlashParams, len: usize, accepted: bool)
    requires
        call_ensures(FirmwareState::accepts, (&params, len), accepted),
    ensures
        accepted <==> len >= params.write_size && len >= params.read_size && (len
            == params.write_size || len == params.read_size) && exists|i: int|
            0 <= i < params.erase_value@.len() && !is_magic(#[trigger] params.erase_value@[i]),
{
}

} // verus!
