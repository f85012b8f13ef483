//! What holds of writing firmware, whatever fails on the way.

use vstd::prelude::*;

use vstd::arithmetic::div_mod::{
    lemma_fundamental_div_mod, lemma_fundamental_div_mod_converse, lemma_mod_bound,
};

use crate::error::{FirmwareUpdaterError, Outcome};
use crate::firmware_state::state_read;
use crate::firmware_updater::{
    last_erased_after, lemma_same_sector, lemma_sector_bounds, lemma_sectors_ordered, sector_end,
    sector_share, sector_start, write_fits, write_plan, FirmwareUpdater, WriteFirmware, WriteStage,
};
use crate::flash::{Access, NorFlashParams, Partition};
use crate::marking_laws::law_the_first_word_is_judged;
use crate::model::{
    bytes_after, erased_byte, get_state_run, no_faults, partition_of, plan_effect, plan_run,
    prepare_update_run, reads_erased, verify_booted_run, write_firmware_run,
    write_pieces_run, Faults, Flashes, Setup,
};
use crate::state::State;

verus! {

/// Byte `i` lies in a sector that is erased while `len` bytes are written from `offset` on:
/// every sector that they reach, but for the first where that was erased last.
pub open spec fn is_renewed(
    erase_size: int,
    last_erased: Option<int>,
    offset: int,
    len: int,
    i: int,
) -> bool {
    &&& len > 0
    &&& sector_start(erase_size, offset) <= i < sector_end(erase_size, offset + len - 1)
    &&& last_erased == Some(offset / erase_size) ==> sector_end(erase_size, offset) <= i
}

/// What the DFU partition holds once `data` were written from `offset` on.
pub open spec fn written(
    params: NorFlashParams,
    bytes: Seq<u8>,
    last_erased: Option<int>,
    offset: int,
    data: Seq<u8>,
) -> Seq<u8> {
    Seq::new(
        bytes.len(),
        |i: int|
            if offset <= i < offset + data.len() {
                data[i - offset]
            } else if is_renewed(
                params.erase_size as int,
                last_erased,
                offset,
                data.len() as int,
                i,
            ) {
                erased_byte(params, i)
            } else {
                bytes[i]
            },
    )
}

/// The sectors that `len` bytes from `offset` on reach can be named in an access.
pub open spec fn is_addressable(erase_size: int, offset: int, len: int) -> bool {
    &&& erase_size > 0
    &&& offset >= 0
    &&& len > 0 ==> sector_end(erase_size, offset + len - 1) <= u32::MAX
}

/// All bytes of a sector have the bounds of that sector, and the next sector starts at its end.
proof fn lemma_sector(erase_size: int, offset: int, other: int)
    requires
        erase_size > 0,
        offset >= 0,
    ensures
        0 <= sector_start(erase_size, offset) <= offset < sector_end(erase_size, offset),
        sector_start(erase_size, offset) <= other < sector_end(erase_size, offset) ==> {
            &&& sector_start(erase_size, other) == sector_start(erase_size, offset)
            &&& other / erase_size == offset / erase_size
        },
        sector_start(erase_size, sector_end(erase_size, offset)) == sector_end(erase_size, offset),
        sector_end(erase_size, offset) / erase_size == offset / erase_size + 1,
{
    let sector = offset / erase_size;
    lemma_sector_bounds(erase_size, offset);
    assert((sector + 1) * erase_size == sector * erase_size + erase_size) by (nonlinear_arith);
    if sector_start(erase_size, offset) <= other < sector_end(erase_size, offset) {
        lemma_same_sector(erase_size, offset, other);
    }
    lemma_fundamental_div_mod_converse(
        sector_end(erase_size, offset),
        erase_size,
        sector + 1,
        0,
    );
}

/// How the sectors of a write divide into those of its first part and of its rest.
proof fn lemma_share(erase_size: int, offset: int, len: int)
    requires
        is_addressable(erase_size, offset, len),
        len > 0,
    ensures
        ({
            let share = sector_share(erase_size, offset, len);
            &&& 0 < share <= len
            &&& 0 <= sector_start(erase_size, offset) <= offset
            &&& offset + share <= sector_end(erase_size, offset)
            &&& sector_end(erase_size, offset) <= sector_end(erase_size, offset + len - 1)
            &&& is_addressable(erase_size, offset + share, len - share)
            &&& share == len ==> sector_end(erase_size, offset + len - 1) == sector_end(
                erase_size,
                offset,
            )
            &&& share < len ==> {
                &&& offset + share == sector_end(erase_size, offset)
                &&& sector_start(erase_size, offset + share) == offset + share
                &&& (offset + share) / erase_size == offset / erase_size + 1
            }
        }),
{
    lemma_sector(erase_size, offset, offset + len - 1);
    lemma_sector(erase_size, offset + len - 1, offset + len - 1);
    lemma_sectors_ordered(erase_size, offset, offset + len - 1);
}

/// The plan by its first accesses and the plan of the rest.
proof fn lemma_plan_unfolds(erase_size: int, last_erased: Option<int>, offset: int, data: Seq<u8>)
    requires
        is_addressable(erase_size, offset, data.len() as int),
        data.len() > 0,
    ensures
        ({
            let plan = write_plan(erase_size, last_erased, offset, data);
            let sector = offset / erase_size;
            let share = sector_share(erase_size, offset, data.len() as int);
            let rest = write_plan(erase_size, Some(sector), offset + share, data.skip(share));
            let write = Access::Write {
                partition: Partition::Dfu,
                offset: offset as u32,
                data: data.take(share),
            };
            if last_erased == Some(sector) {
                &&& plan.len() == 1 + rest.len()
                &&& plan[0] == write
                &&& plan.drop_first() == rest
                &&& plan == seq![write] + rest
            } else {
                &&& plan.len() == 2 + rest.len()
                &&& plan[0] == (Access::Erase {
                    partition: Partition::Dfu,
                    from: sector_start(erase_size, offset) as u32,
                    to: sector_end(erase_size, offset) as u32,
                })
                &&& plan[1] == write
                &&& plan.drop_first()[0] == write
                &&& plan.drop_first().drop_first() == rest
                &&& plan.drop_first() == write_plan(erase_size, Some(sector), offset, data)
            }
        }),
{
    let plan = write_plan(erase_size, last_erased, offset, data);
    let sector = offset / erase_size;
    let share = sector_share(erase_size, offset, data.len() as int);
    let rest = write_plan(erase_size, Some(sector), offset + share, data.skip(share));
    if last_erased == Some(sector) {
        assert(plan.drop_first() =~= rest);
    } else {
        assert(plan.drop_first() =~= write_plan(erase_size, Some(sector), offset, data));
        assert(plan.drop_first().drop_first() =~= rest);
    }
}

/// A plan that succeeds writes exactly the data, erases exactly the sectors that are new to it,
/// and leaves every other byte.
pub proof fn law_plan_writes_the_data(
    params: NorFlashParams,
    bytes: Seq<u8>,
    last_erased: Option<int>,
    offset: int,
    data: Seq<u8>,
)
    requires
        is_addressable(params.erase_size as int, offset, data.len() as int),
    ensures
        plan_effect(
            params,
            bytes,
            write_plan(params.erase_size as int, last_erased, offset, data),
        ) == written(params, bytes, last_erased, offset, data),
    decreases data.len(),
{
    reveal_with_fuel(plan_effect, 3);
    let erase_size = params.erase_size as int;
    let plan = write_plan(erase_size, last_erased, offset, data);
    if data.len() == 0 {
        assert(written(params, bytes, last_erased, offset, data) =~= bytes);
    } else {
        let sector = offset / erase_size;
        let len = data.len() as int;
        let share = sector_share(erase_size, offset, len);
        lemma_share(erase_size, offset, len);
        lemma_plan_unfolds(erase_size, last_erased, offset, data);
        let renewed = if last_erased == Some(sector) {
            bytes
        } else {
            bytes_after(params, bytes, plan[0])
        };
        let begun = bytes_after(
            params,
            renewed,
            Access::Write {
                partition: Partition::Dfu,
                offset: offset as u32,
                data: data.take(share),
            },
        );
        let rest = data.skip(share);
        law_plan_writes_the_data(params, begun, Some(sector), offset + share, rest);
        assert(written(params, begun, Some(sector), offset + share, rest) =~= written(
            params,
            bytes,
            last_erased,
            offset,
            data,
        ));
    }
}

/// The erasures of a plan, in order.
pub open spec fn erasures(plan: Seq<Access>) -> Seq<Access> {
    plan.filter(|access: Access| access is Erase)
}

/// The erasures of a plan by those of its first sector and of the rest.
proof fn lemma_erasures_unfold(
    erase_size: int,
    last_erased: Option<int>,
    offset: int,
    data: Seq<u8>,
)
    requires
        is_addressable(erase_size, offset, data.len() as int),
        data.len() > 0,
    ensures
        ({
            let sector = offset / erase_size;
            let share = sector_share(erase_size, offset, data.len() as int);
            let rest = write_plan(erase_size, Some(sector), offset + share, data.skip(share));
            let erasure = Access::Erase {
                partition: Partition::Dfu,
                from: sector_start(erase_size, offset) as u32,
                to: sector_end(erase_size, offset) as u32,
            };
            erasures(write_plan(erase_size, last_erased, offset, data)) == if last_erased == Some(
                sector,
            ) {
                erasures(rest)
            } else {
                seq![erasure] + erasures(rest)
            }
        }),
{
    let plan = write_plan(erase_size, last_erased, offset, data);
    let is_erasure = |access: Access| access is Erase;
    let sector = offset / erase_size;
    let share = sector_share(erase_size, offset, data.len() as int);
    let rest = write_plan(erase_size, Some(sector), offset + share, data.skip(share));
    lemma_plan_unfolds(erase_size, last_erased, offset, data);
    let begin = plan.take(plan.len() - rest.len());
    reveal_with_fuel(Seq::filter, 3);
    assert(plan =~= begin + rest);
    Seq::filter_distributes_over_add(begin, rest, is_erasure);
    if last_erased == Some(sector) {
        assert(begin.drop_last() =~= Seq::empty());
        assert(erasures(begin) =~= Seq::empty());
    } else {
        assert(begin.drop_last() =~= seq![plan[0]]);
        assert(begin.drop_last().drop_last() =~= Seq::empty());
        assert(erasures(begin) =~= seq![plan[0]]);
    }
    assert(erasures(begin) + erasures(rest) =~= erasures(plan));
}

/// A piece that ends in the sector that it begins in, and the piece after it, erase what the
/// whole does.
#[verifier::spinoff_prover]
proof fn lemma_piece_in_one_sector(
    erase_size: int,
    last_erased: Option<int>,
    offset: int,
    first: Seq<u8>,
    second: Seq<u8>,
)
    requires
        is_addressable(erase_size, offset, (first + second).len() as int),
        first.len() > 0,
        second.len() > 0,
        sector_share(erase_size, offset, first.len() as int) == first.len(),
    ensures
        ({
            let between = last_erased_after(erase_size, last_erased, offset, first.len() as int);
            erasures(write_plan(erase_size, last_erased, offset, first)) + erasures(
                write_plan(erase_size, between, offset + first.len(), second),
            ) == erasures(write_plan(erase_size, last_erased, offset, first + second))
        }),
{
    let whole = first + second;
    let len = first.len() as int;
    let next = offset + len;
    let between = last_erased_after(erase_size, last_erased, offset, len);
    let whole_share = sector_share(erase_size, offset, whole.len() as int);
    lemma_sectors_ordered(erase_size, next - 1, next + second.len() - 1);
    lemma_sector_bounds(erase_size, offset);
    lemma_same_sector(erase_size, offset, next - 1);
    lemma_erasures_unfold(erase_size, last_erased, offset, first);
    lemma_erasures_unfold(erase_size, last_erased, offset, whole);
    assert(first.skip(len) =~= Seq::empty());
    let rest = erasures(
        write_plan(erase_size, between, offset + whole_share, whole.skip(whole_share)),
    );
    assert(rest == erasures(write_plan(erase_size, between, next, second))) by {
        if whole_share > len {
            lemma_same_sector(erase_size, offset, next);
            lemma_erasures_unfold(erase_size, between, next, second);
            let second_share = sector_share(erase_size, next, second.len() as int);
            assert(whole.skip(whole_share) =~= second.skip(second_share));
        } else {
            assert(whole.skip(whole_share) =~= second);
        }
    }
    assert(erasures(write_plan(erase_size, last_erased, offset, first)) + rest =~= erasures(
        write_plan(erase_size, last_erased, offset, whole),
    ));
}

/// Two consecutive pieces erase what the whole does.
#[verifier::spinoff_prover]
proof fn lemma_pieces_erase_like_the_whole(
    erase_size: int,
    last_erased: Option<int>,
    offset: int,
    first: Seq<u8>,
    second: Seq<u8>,
)
    requires
        is_addressable(erase_size, offset, (first + second).len() as int),
    ensures
        ({
            let between = last_erased_after(erase_size, last_erased, offset, first.len() as int);
            erasures(write_plan(erase_size, last_erased, offset, first)) + erasures(
                write_plan(erase_size, between, offset + first.len(), second),
            ) == erasures(write_plan(erase_size, last_erased, offset, first + second))
        }),
    decreases first.len(),
{
    let whole = first + second;
    let len = first.len() as int;
    let next = offset + len;
    let between = last_erased_after(erase_size, last_erased, offset, len);
    let first_plan = write_plan(erase_size, last_erased, offset, first);
    let second_plan = write_plan(erase_size, between, next, second);
    if len == 0 {
        assert(whole =~= second);
        assert(erasures(first_plan) =~= Seq::empty());
    } else if second.len() == 0 {
        assert(whole =~= first);
        assert(erasures(second_plan) =~= Seq::empty());
    } else {
        let sector = offset / erase_size;
        let share = sector_share(erase_size, offset, len);
        lemma_sectors_ordered(erase_size, next - 1, next + second.len() - 1);
        lemma_share(erase_size, offset, len);
        if share < len {
            let rest = first.skip(share);
            lemma_share(erase_size, offset, whole.len() as int);
            lemma_erasures_unfold(erase_size, last_erased, offset, first);
            lemma_erasures_unfold(erase_size, last_erased, offset, whole);
            assert(whole.skip(share) =~= rest + second);
            lemma_pieces_erase_like_the_whole(
                erase_size,
                Some(sector),
                offset + share,
                rest,
                second,
            );
            assert(erasures(first_plan) + erasures(second_plan) =~= erasures(
                write_plan(erase_size, last_erased, offset, whole),
            ));
        } else {
            lemma_piece_in_one_sector(erase_size, last_erased, offset, first, second);
        }
    }
}

/// Data that are written in consecutive pieces, of any size, leave the same bytes as if they
/// were written at once, and the same sector erased last. The same sectors are erased, in the
/// same order.
pub proof fn law_pieces_write_like_the_whole(
    params: NorFlashParams,
    bytes: Seq<u8>,
    last_erased: Option<int>,
    offset: int,
    first: Seq<u8>,
    second: Seq<u8>,
)
    requires
        is_addressable(params.erase_size as int, offset, (first + second).len() as int),
    ensures
        ({
            let erase_size = params.erase_size as int;
            let whole = first + second;
            let between = last_erased_after(erase_size, last_erased, offset, first.len() as int);
            let next = offset + first.len();
            &&& plan_effect(
                params,
                plan_effect(params, bytes, write_plan(erase_size, last_erased, offset, first)),
                write_plan(erase_size, between, next, second),
            ) == plan_effect(params, bytes, write_plan(erase_size, last_erased, offset, whole))
            &&& last_erased_after(erase_size, between, next, second.len() as int)
                == last_erased_after(erase_size, last_erased, offset, whole.len() as int)
            &&& erasures(write_plan(erase_size, last_erased, offset, first)) + erasures(
                write_plan(erase_size, between, next, second),
            ) == erasures(write_plan(erase_size, last_erased, offset, whole))
        }),
{
    let erase_size = params.erase_size as int;
    lemma_pieces_erase_like_the_whole(erase_size, last_erased, offset, first, second);
    let whole = first + second;
    let between = last_erased_after(erase_size, last_erased, offset, first.len() as int);
    let next = offset + first.len();
    if first.len() == 0 {
        assert(whole =~= second);
    } else if second.len() == 0 {
        assert(whole =~= first);
    } else {
        let first_end = offset + first.len() - 1;
        let whole_end = offset + whole.len() - 1;
        lemma_sectors_ordered(erase_size, offset, first_end);
        lemma_sectors_ordered(erase_size, first_end, next);
        lemma_sectors_ordered(erase_size, next, whole_end);
        lemma_sector(erase_size, first_end, next);
        lemma_sector(erase_size, offset, first_end);
        lemma_sector(erase_size, next, whole_end);
        law_plan_writes_the_data(params, bytes, last_erased, offset, first);
        let begun = written(params, bytes, last_erased, offset, first);
        law_plan_writes_the_data(params, begun, between, next, second);
        law_plan_writes_the_data(params, bytes, last_erased, offset, whole);
        let ended = written(params, begun, between, next, second);
        let at_once = written(params, bytes, last_erased, offset, whole);
        assert forall|i: int| 0 <= i < bytes.len() implies ended[i] == at_once[i] by {
            if next / erase_size == first_end / erase_size {
                lemma_fundamental_div_mod(next, erase_size);
                lemma_fundamental_div_mod(first_end, erase_size);
            } else {
                assert(next >= sector_end(erase_size, first_end));
            }
        }
        assert(ended =~= at_once);
    }
}

/// Every access of a plan is about the DFU partition and stays in the sectors that the data
/// reach.
proof fn lemma_plan_stays_in_sectors(
    erase_size: int,
    last_erased: Option<int>,
    offset: int,
    data: Seq<u8>,
)
    requires
        is_addressable(erase_size, offset, data.len() as int),
    ensures
        ({
            let plan = write_plan(erase_size, last_erased, offset, data);
            let from = sector_start(erase_size, offset);
            let to = sector_end(erase_size, offset + data.len() - 1);
            forall|j: int| 0 <= j < plan.len() ==> is_dfu_access_within(#[trigger] plan[j], from, to)
        }),
    decreases data.len(),
{
    let plan = write_plan(erase_size, last_erased, offset, data);
    let from = sector_start(erase_size, offset);
    let to = sector_end(erase_size, offset + data.len() - 1);
    if data.len() > 0 {
        let sector = offset / erase_size;
        let len = data.len() as int;
        let share = sector_share(erase_size, offset, len);
        lemma_share(erase_size, offset, len);
        lemma_plan_unfolds(erase_size, last_erased, offset, data);
        let rest = write_plan(erase_size, Some(sector), offset + share, data.skip(share));
        lemma_plan_stays_in_sectors(erase_size, Some(sector), offset + share, data.skip(share));
        let skipped: int = plan.len() - rest.len();
        assert forall|j: int| 0 <= j < plan.len() implies is_dfu_access_within(
            #[trigger] plan[j],
            from,
            to,
        ) by {
            if j >= skipped {
                if skipped == 1 {
                    assert(plan.drop_first()[j - 1] == plan[j]);
                } else {
                    assert(plan.drop_first().drop_first()[j - 2] == plan[j]);
                }
                assert(is_dfu_access_within(rest[j - skipped], offset + share, to));
            }
        }
    }
}

/// The access is about the DFU partition, and changes no byte outside `from..to`.
pub open spec fn is_dfu_access_within(access: Access, from: int, to: int) -> bool {
    &&& partition_of(access) == Partition::Dfu
    &&& match access {
        Access::Read { .. } => true,
        Access::Write { offset, data, .. } => from <= offset && offset + data.len() <= to,
        Access::Erase { from: first, to: end, .. } => from <= first && end <= to,
    }
}

/// A run of a plan for the DFU partition touches that partition alone, and there only the
/// range that the plan is for. One that ends well has the whole effect of the plan.
proof fn lemma_plan_run(
    setup: Setup,
    flashes: Flashes,
    plan: Seq<Access>,
    from: int,
    to: int,
    faults: Faults,
    k: nat,
)
    requires
        forall|j: int| 0 <= j < plan.len() ==> is_dfu_access_within(#[trigger] plan[j], from, to),
    ensures
        ({
            let (result, after) = plan_run(setup, flashes, plan, faults, k);
            &&& after.state == flashes.state
            &&& after.dfu.len() == flashes.dfu.len()
            &&& forall|i: int|
                0 <= i < flashes.dfu.len() && !(from <= i < to) ==> after.dfu[i] == flashes.dfu[i]
            &&& result is Ok ==> after.dfu == plan_effect(setup.dfu, flashes.dfu, plan)
        }),
    decreases plan.len(),
{
    if plan.len() > 0 {
        let outcome = setup.outcome(plan[0], faults, k);
        let after = flashes.after(setup, plan[0], outcome);
        assert(is_dfu_access_within(plan[0], from, to));
        if outcome is Ok {
            assert forall|j: int|
                0 <= j < plan.drop_first().len() implies is_dfu_access_within(
                #[trigger] plan.drop_first()[j],
                from,
                to,
            ) by {
                assert(is_dfu_access_within(plan[j + 1], from, to));
            }
            lemma_plan_run(setup, after, plan.drop_first(), from, to, faults, k + 1);
        }
    }
}

/// Every access of a plan is about the DFU partition, also where its sectors cannot all be named
/// in an access.
proof fn lemma_plan_is_for_dfu(
    erase_size: int,
    last_erased: Option<int>,
    offset: int,
    data: Seq<u8>,
)
    ensures
        ({
            let plan = write_plan(erase_size, last_erased, offset, data);
            let to = u32::MAX + data.len();
            forall|j: int| 0 <= j < plan.len() ==> is_dfu_access_within(#[trigger] plan[j], 0, to)
        }),
    decreases data.len(),
{
    if erase_size > 0 && data.len() > 0 {
        lemma_mod_bound(offset, erase_size);
        let plan = write_plan(erase_size, last_erased, offset, data);
        let sector = offset / erase_size;
        let share = sector_share(erase_size, offset, data.len() as int);
        let rest = write_plan(erase_size, Some(sector), offset + share, data.skip(share));
        lemma_plan_is_for_dfu(erase_size, Some(sector), offset + share, data.skip(share));
        let skipped: int = plan.len() - rest.len();
        assert forall|j: int| 0 <= j < plan.len() implies is_dfu_access_within(
            #[trigger] plan[j],
            0,
            u32::MAX + data.len(),
        ) by {
            if j >= skipped {
                assert(plan[j] == rest[j - skipped]);
                assert(is_dfu_access_within(
                    rest[j - skipped],
                    0,
                    u32::MAX + data.skip(share).len(),
                ));
            }
        }
    }
}

/// Whatever fails, writing firmware leaves the state partition as it was. Where the sectors that
/// the data reach can be named in an access, all other sectors stay as they were too, and data
/// that were written lie in the DFU partition.
pub proof fn law_written_firmware_lies_in_dfu(
    setup: Setup,
    flashes: Flashes,
    last_erased: Option<int>,
    offset: int,
    data: Seq<u8>,
    faults: Faults,
)
    requires
        flashes.fit(setup),
    ensures
        ({
            let (result, after) = write_firmware_run(
                setup,
                flashes,
                last_erased,
                offset,
                data,
                faults,
            );
            let erase_size = setup.dfu.erase_size as int;
            &&& after.fit(setup)
            &&& after.state == flashes.state
            &&& is_addressable(erase_size, offset, data.len() as int) ==> {
                &&& forall|i: int|
                    0 <= i < flashes.dfu.len() && !(data.len() > 0 && sector_start(
                        erase_size,
                        offset,
                    ) <= i < sector_end(erase_size, offset + data.len() - 1)) ==> after.dfu[i]
                        == flashes.dfu[i]
                &&& result is Ok ==> after.dfu == written(
                    setup.dfu,
                    flashes.dfu,
                    last_erased,
                    offset,
                    data,
                )
                &&& result is Ok && offset + data.len() <= setup.dfu.capacity
                    ==> after.dfu.subrange(offset, offset + data.len()) == data
            }
        }),
{
    let erase_size = setup.dfu.erase_size as int;
    let plan = write_plan(erase_size, last_erased, offset, data);
    lemma_plan_is_for_dfu(erase_size, last_erased, offset, data);
    lemma_plan_run(setup, flashes, plan, 0, u32::MAX + data.len(), faults, 1);
    if is_addressable(erase_size, offset, data.len() as int) {
        lemma_plan_stays_in_sectors(erase_size, last_erased, offset, data);
        lemma_plan_run(
            setup,
            flashes,
            plan,
            sector_start(erase_size, offset),
            sector_end(erase_size, offset + data.len() - 1),
            faults,
            1,
        );
        law_plan_writes_the_data(setup.dfu, flashes.dfu, last_erased, offset, data);
        let (result, after) = write_firmware_run(setup, flashes, last_erased, offset, data, faults);
        if result is Ok && offset + data.len() <= setup.dfu.capacity {
            assert(after.dfu.subrange(offset, offset + data.len()) =~= data);
        }
    }
}

/// Whatever fails, writing firmware in consecutive pieces leaves the state partition as it was.
/// Where the sectors that they reach can be named in an access, pieces of any sizes that were
/// written lie in the DFU partition as if they had been written at once.
pub proof fn law_firmware_written_in_pieces_lies_in_dfu(
    setup: Setup,
    flashes: Flashes,
    last_erased: Option<int>,
    offset: int,
    pieces: Seq<Seq<u8>>,
    faults: spec_fn(nat) -> Faults,
)
    requires
        flashes.fit(setup),
    ensures
        ({
            let (result, after) = write_pieces_run(
                setup,
                flashes,
                last_erased,
                offset,
                pieces,
                faults,
            );
            &&& after.fit(setup)
            &&& after.state == flashes.state
            &&& result is Ok && is_addressable(
                setup.dfu.erase_size as int,
                offset,
                pieces.flatten().len() as int,
            ) ==> after.dfu == written(
                setup.dfu,
                flashes.dfu,
                last_erased,
                offset,
                pieces.flatten(),
            )
        }),
    decreases pieces.len(),
{
    let erase_size = setup.dfu.erase_size as int;
    if pieces.len() == 0 {
        assert(written(setup.dfu, flashes.dfu, last_erased, offset, pieces.flatten())
            =~= flashes.dfu);
    } else {
        let first = pieces[0];
        let rest = pieces.drop_first();
        let second = rest.flatten();
        assert(pieces.flatten() == first + second);
        let len = first.len() as int;
        let next = offset + len;
        let addressable = is_addressable(erase_size, offset, (first + second).len() as int);
        if addressable && len > 0 && second.len() > 0 {
            lemma_sectors_ordered(erase_size, next - 1, next + second.len() - 1);
        }
        law_written_firmware_lies_in_dfu(setup, flashes, last_erased, offset, first, faults(0));
        let (result, after) = write_firmware_run(
            setup,
            flashes,
            last_erased,
            offset,
            first,
            faults(0),
        );
        if result is Ok {
            let between = last_erased_after(erase_size, last_erased, offset, len);
            law_firmware_written_in_pieces_lies_in_dfu(
                setup,
                after,
                between,
                next,
                rest,
                |call: nat| faults(call + 1),
            );
            if addressable {
                law_pieces_write_like_the_whole(
                    setup.dfu,
                    flashes.dfu,
                    last_erased,
                    offset,
                    first,
                    second,
                );
                law_plan_writes_the_data(setup.dfu, flashes.dfu, last_erased, offset, first);
                law_plan_writes_the_data(setup.dfu, after.dfu, between, next, second);
                law_plan_writes_the_data(
                    setup.dfu,
                    flashes.dfu,
                    last_erased,
                    offset,
                    first + second,
                );
            }
        }
    }
}

/// Firmware is not written, and nothing is erased, while a swap is marked.
pub proof fn law_writing_needs_booted_firmware(
    setup: Setup,
    flashes: Flashes,
    last_erased: Option<int>,
    offset: int,
    data: Seq<u8>,
    faults: Faults,
)
    requires
        get_state_run(setup, flashes, faults, 0) == Ok::<State, FirmwareUpdaterError>(State::Swap),
    ensures
        write_firmware_run(setup, flashes, last_erased, offset, data, faults) == (
            Err::<(), FirmwareUpdaterError>(FirmwareUpdaterError::BadState),
            flashes,
        ),
        prepare_update_run(setup, flashes, faults) == (
            Err::<(), FirmwareUpdaterError>(FirmwareUpdaterError::BadState),
            flashes,
        ),
{
}

/// Every write goes to bytes that read as erased, provided that those in a sector that is not
/// erased again do so to begin with. No word is written twice.
pub proof fn law_writes_go_to_erased_bytes(
    params: NorFlashParams,
    bytes: Seq<u8>,
    last_erased: Option<int>,
    offset: int,
    data: Seq<u8>,
    j: int,
)
    requires
        is_addressable(params.erase_size as int, offset, data.len() as int),
        offset + data.len() <= bytes.len(),
        last_erased == Some(offset / (params.erase_size as int)) ==> reads_erased(
            params,
            bytes,
            offset,
            offset + sector_share(params.erase_size as int, offset, data.len() as int),
        ),
        0 <= j < write_plan(params.erase_size as int, last_erased, offset, data).len(),
    ensures
        ({
            let plan = write_plan(params.erase_size as int, last_erased, offset, data);
            plan[j] matches Access::Write { offset: at, data: piece, .. } ==> reads_erased(
                params,
                plan_effect(params, bytes, plan.take(j)),
                at as int,
                at + piece.len(),
            )
        }),
    decreases data.len(), j,
{
    reveal_with_fuel(plan_effect, 3);
    let erase_size = params.erase_size as int;
    let plan = write_plan(erase_size, last_erased, offset, data);
    let sector = offset / erase_size;
    let len = data.len() as int;
    if len > 0 {
        let share = sector_share(erase_size, offset, len);
        lemma_share(erase_size, offset, len);
        lemma_plan_unfolds(erase_size, last_erased, offset, data);
        if j == 0 {
            assert(plan.take(0) =~= Seq::empty());
        } else {
            let next = bytes_after(params, bytes, plan[0]);
            assert(plan.take(j)[0] == plan[0]);
            assert(plan.take(j).drop_first() =~= plan.drop_first().take(j - 1));
            if last_erased == Some(sector) {
                law_writes_go_to_erased_bytes(
                    params,
                    next,
                    Some(sector),
                    offset + share,
                    data.skip(share),
                    j - 1,
                );
            } else {
                law_writes_go_to_erased_bytes(params, next, Some(sector), offset, data, j - 1);
            }
        }
    }
}

/// The data can be written as they are: they are made of whole words and lie in the partition.
pub open spec fn can_be_written(params: NorFlashParams, offset: int, len: int) -> bool {
    &&& 0 < params.write_size
    &&& 0 < params.erase_size
    &&& params.capacity <= u32::MAX
    &&& params.capacity % params.erase_size == 0
    &&& params.erase_size % params.write_size == 0
    &&& 0 <= offset
    &&& offset + len <= params.capacity
    &&& offset % (params.write_size as int) == 0
    &&& len % (params.write_size as int) == 0
}

/// No sector of the data reaches beyond the partition.
proof fn lemma_sectors_in_partition(params: NorFlashParams, offset: int, len: int)
    requires
        can_be_written(params, offset, len),
        len > 0,
    ensures
        is_addressable(params.erase_size as int, offset, len),
        sector_end(params.erase_size as int, offset + len - 1) <= params.capacity,
{
    let erase_size = params.erase_size as int;
    let capacity = params.capacity as int;
    let last = offset + len - 1;
    lemma_sector(erase_size, last, last);
    if sector_end(erase_size, last) > capacity {
        lemma_sector(erase_size, last, capacity);
    }
}

/// The accesses of a plan for whole words in the partition are aligned and in bounds.
proof fn lemma_plan_completes(
    setup: Setup,
    flashes: Flashes,
    last_erased: Option<int>,
    offset: int,
    data: Seq<u8>,
    k: nat,
)
    requires
        can_be_written(setup.dfu, offset, data.len() as int),
    ensures
        plan_run(
            setup,
            flashes,
            write_plan(setup.dfu.erase_size as int, last_erased, offset, data),
            no_faults(),
            k,
        ).0 is Ok,
    decreases data.len(),
{
    reveal_with_fuel(plan_run, 3);
    let params = setup.dfu;
    let erase_size = params.erase_size as int;
    let word_len = params.write_size as int;
    let plan = write_plan(erase_size, last_erased, offset, data);
    if data.len() > 0 {
        let sector = offset / erase_size;
        let len = data.len() as int;
        let share = sector_share(erase_size, offset, len);
        lemma_sectors_in_partition(params, offset, len);
        lemma_share(erase_size, offset, len);
        lemma_plan_unfolds(erase_size, last_erased, offset, data);
        let start = sector_start(erase_size, offset);
        lemma_sector(erase_size, offset, start);
        assert(start % erase_size == 0);
        vstd::arithmetic::div_mod::lemma_mod_self_0(erase_size);
        // A sector is made of whole words.
        vstd::arithmetic::div_mod::lemma_fundamental_div_mod(erase_size, word_len);
        let words = erase_size / word_len;
        vstd::arithmetic::div_mod::lemma_fundamental_div_mod(start, erase_size);
        let sectors = start / erase_size;
        assert(start + erase_size == word_len * (words * (sectors + 1))) by (nonlinear_arith)
            requires
                start == erase_size * sectors,
                erase_size == word_len * words,
        ;
        vstd::arithmetic::div_mod::lemma_mod_multiples_basic(words * (sectors + 1), word_len);
        assert((words * (sectors + 1)) * word_len == word_len * (words * (sectors + 1)))
            by (nonlinear_arith);
        let end = start + erase_size;
        vstd::arithmetic::div_mod::lemma_sub_mod_noop(end, offset, word_len);
        vstd::arithmetic::div_mod::lemma_small_mod(0, word_len as nat);
        assert(share % word_len == 0);
        vstd::arithmetic::div_mod::lemma_add_mod_noop(offset, share, word_len);
        vstd::arithmetic::div_mod::lemma_sub_mod_noop(len, share, word_len);
        let begun = flashes.after(setup, plan[0], Ok(()));
        if last_erased == Some(sector) {
            lemma_plan_completes(
                setup,
                begun,
                Some(sector),
                offset + share,
                data.skip(share),
                k + 1,
            );
        } else {
            lemma_plan_completes(
                setup,
                begun.after(setup, plan[1], Ok(())),
                Some(sector),
                offset + share,
                data.skip(share),
                k + 2,
            );
        }
    }
}

/// Whole words that lie in the partition are written, and are there, where no access fails but
/// for its arguments and the running firmware has been booted.
pub proof fn law_writing_completes(
    setup: Setup,
    flashes: Flashes,
    last_erased: Option<int>,
    offset: int,
    data: Seq<u8>,
)
    requires
        flashes.fit(setup),
        can_be_written(setup.dfu, offset, data.len() as int),
        verify_booted_run(setup, flashes, no_faults(), 0) is Ok,
    ensures
        ({
            let (result, after) = write_firmware_run(
                setup,
                flashes,
                last_erased,
                offset,
                data,
                no_faults(),
            );
            &&& result is Ok
            &&& after.dfu == written(setup.dfu, flashes.dfu, last_erased, offset, data)
            &&& after.dfu.subrange(offset, offset + data.len()) == data
        }),
{
    lemma_plan_completes(setup, flashes, last_erased, offset, data, 1);
    if data.len() > 0 {
        lemma_sectors_in_partition(setup.dfu, offset, data.len() as int);
    }
    law_written_firmware_lies_in_dfu(setup, flashes, last_erased, offset, data, no_faults());
}

/// A prepared DFU partition reads as erased all over, where its end can be named in an access.
/// The state partition is as it was, whatever fails.
pub proof fn law_prepared_partition_reads_erased(setup: Setup, flashes: Flashes, faults: Faults)
    requires
        flashes.fit(setup),
    ensures
        ({
            let (result, after) = prepare_update_run(setup, flashes, faults);
            &&& after.state == flashes.state
            &&& result is Ok && setup.dfu.capacity <= u32::MAX ==> reads_erased(
                setup.dfu,
                after.dfu,
                0,
                setup.dfu.capacity as int,
            )
            &&& result is Err ==> after.dfu == flashes.dfu
        }),
{
    reveal_with_fuel(plan_run, 2);
}

/// A partition of whole sectors is prepared where no access fails but for its arguments and the
/// running firmware has been booted.
pub proof fn law_preparing_completes(setup: Setup, flashes: Flashes)
    requires
        flashes.fit(setup),
        0 < setup.dfu.erase_size,
        setup.dfu.capacity <= u32::MAX,
        setup.dfu.capacity % setup.dfu.erase_size == 0,
        verify_booted_run(setup, flashes, no_faults(), 0) is Ok,
    ensures
        ({
            let (result, after) = prepare_update_run(setup, flashes, no_faults());
            &&& result is Ok
            &&& reads_erased(setup.dfu, after.dfu, 0, setup.dfu.capacity as int)
        }),
{
    reveal_with_fuel(plan_run, 2);
    vstd::arithmetic::div_mod::lemma_small_mod(0, setup.dfu.erase_size as nat);
    law_prepared_partition_reads_erased(setup, flashes, no_faults());
}

/// A writing that has begun is refused exactly where the first word of the state tells a swap, or
/// where that could not be read, whatever sector was erased last. Later it ends with an error
/// exactly where an access failed.
pub proof fn law_writing_is_refused_during_a_swap(
    writing: WriteFirmware,
    updater: FirmwareUpdater,
    outcome: Outcome,
)
    requires
        writing.wf(&updater),
        updater.firmware_state().params().write_size > 0,
    ensures
        ({
            let buffer = updater.firmware_state().buffer();
            let word_len = updater.firmware_state().params().write_size as int;
            let swap = forall|i: int| 0 <= i < word_len ==> buffer[i] == 0xF0;
            writing.refusal(&updater, outcome) == match outcome {
                Err(kind) => Some(FirmwareUpdaterError::Flash(kind)),
                Ok(()) => if writing.stage() == WriteStage::CheckBooted && swap {
                    Some(FirmwareUpdaterError::BadState)
                } else {
                    None
                },
            }
        }),
{
    law_the_first_word_is_judged(updater.firmware_state(), outcome);
}

/// A writing that has begun runs as the whole operation does: it waits for the read of the state
/// first. Where that ends the writing, it ends the operation. Where it does not, the accesses
/// that are left are those of the operation, and depend on the sector that was erased last and on
/// nothing that the buffer holds.
pub proof fn law_writing_steps_make_up_the_operation(
    setup: Setup,
    flashes: Flashes,
    writing: WriteFirmware,
    updater: FirmwareUpdater,
    faults: Faults,
)
    requires
        writing.wf(&updater),
        writing.stage() == WriteStage::CheckBooted,
        updater.dfu_params() == setup.dfu,
        updater.firmware_state().params() == setup.state,
        setup.outcome(writing.todo(&updater)[0], faults, 0) is Ok
            ==> updater.firmware_state().buffer() == flashes.state.subrange(
            0,
            updater.firmware_state().buffer().len() as int,
        ),
    ensures
        ({
            let erase_size = setup.dfu.erase_size as int;
            let todo = writing.todo(&updater);
            let read = Access::Read {
                partition: Partition::State,
                offset: 0,
                len: updater.firmware_state().buffer().len(),
            };
            let run = write_firmware_run(
                setup,
                flashes,
                updater.last_erased(),
                writing.offset(),
                writing.data(),
                faults,
            );
            &&& todo == seq![read] + write_plan(
                erase_size,
                updater.last_erased(),
                writing.offset(),
                writing.data(),
            )
            &&& run == match writing.refusal(&updater, setup.outcome(read, faults, 0)) {
                Some(error) => (Err::<(), FirmwareUpdaterError>(error), flashes),
                None => plan_run(setup, flashes, todo.drop_first(), faults, 1),
            }
        }),
{
    let todo = writing.todo(&updater);
    let buffer = updater.firmware_state().buffer();
    assert(todo.drop_first() =~= write_plan(
        setup.dfu.erase_size as int,
        updater.last_erased(),
        writing.offset(),
        writing.data(),
    ));
    if setup.outcome(todo[0], faults, 0) is Ok {
        assert(flashes.read_state(state_read(setup.state)) =~= buffer);
    }
}

/// A writing that is under way has the rest of its data before it, sector by sector: the sector at
/// hand is erased first or has been, and once its share is written the data behind it are left.
pub proof fn law_writing_goes_on_sector_by_sector(writing: WriteFirmware, updater: FirmwareUpdater)
    requires
        writing.wf(&updater),
    ensures
        ({
            let erase_size = updater.dfu_params().erase_size as int;
            let offset = writing.offset();
            let len = writing.data().len() as int;
            let room = erase_size - offset % erase_size;
            let advance = writing.advance(&updater);
            &&& writing.stage() == WriteStage::Erase ==> writing.todo(&updater) == write_plan(
                erase_size,
                None,
                offset,
                writing.data(),
            )
            &&& writing.stage() == WriteStage::Write ==> {
                &&& writing.todo(&updater) == write_plan(
                    erase_size,
                    updater.last_erased(),
                    offset,
                    writing.data(),
                )
                &&& updater.last_erased() == Some(offset / erase_size)
                &&& 0 < advance
                &&& advance == len && len <= room || advance == room && room < len
            }
            &&& writing.stage() != WriteStage::Write ==> advance == 0
            &&& writing.can_proceed(&updater) <==> advance == len || (erase_size > 0 && ((offset
                + advance) / erase_size + 1) * erase_size <= usize::MAX)
        }),
{
    let erase_size = updater.dfu_params().erase_size as int;
    let advance = writing.advance(&updater);
    if erase_size > 0 {
        lemma_sector_bounds(erase_size, writing.offset());
        lemma_sector_bounds(erase_size, writing.offset() + advance);
        let sector = (writing.offset() + advance) / erase_size;
        assert((sector + 1) * erase_size == sector * erase_size + erase_size) by (nonlinear_arith);
    }
}

/// Data can be written where the last of their sectors ends where a `usize` can say.
pub proof fn law_data_fit_where_their_last_sector_ends(erase_size: int, offset: int, len: int)
    requires
        erase_size > 0,
        offset >= 0,
        len > 0,
    ensures
        write_fits(erase_size, offset, len) <==> ((offset + len - 1) / erase_size + 1) * erase_size
            <= usize::MAX,
        write_fits(erase_size, offset, 0),
{
    lemma_sector_bounds(erase_size, offset + len - 1);
    let sector = (offset + len - 1) / erase_size;
    assert((sector + 1) * erase_size == sector * erase_size + erase_size) by (nonlinear_arith);
}

/// Every sector that the data reach is erased exactly once, from the first to the last, but for
/// the first where that was erased last. No data need no access.
pub proof fn law_every_sector_is_erased_once(
    erase_size: int,
    last_erased: Option<int>,
    offset: int,
    data: Seq<u8>,
)
    requires
        is_addressable(erase_size, offset, data.len() as int),
    ensures
        ({
            let plan = write_plan(erase_size, last_erased, offset, data);
            let first = offset / erase_size;
            let begin = if last_erased == Some(first) {
                first + 1
            } else {
                first
            };
            let end = (offset + data.len() - 1) / erase_size + 1;
            if data.len() == 0 {
                plan == Seq::<Access>::empty()
            } else {
                &&& first < end
                &&& erasures(plan) == Seq::new(
                    (end - begin) as nat,
                    |i: int|
                        Access::Erase {
                            partition: Partition::Dfu,
                            from: ((begin + i) * erase_size) as u32,
                            to: ((begin + i) * erase_size + erase_size) as u32,
                        },
                )
            }
        }),
    decreases data.len(),
{
    if data.len() > 0 {
        let plan = write_plan(erase_size, last_erased, offset, data);
        let first = offset / erase_size;
        let len = data.len() as int;
        let share = sector_share(erase_size, offset, len);
        let begin = if last_erased == Some(first) {
            first + 1
        } else {
            first
        };
        let end = (offset + len - 1) / erase_size + 1;
        let rest = write_plan(erase_size, Some(first), offset + share, data.skip(share));
        lemma_share(erase_size, offset, len);
        lemma_sector_bounds(erase_size, offset);
        lemma_erasures_unfold(erase_size, last_erased, offset, data);
        law_every_sector_is_erased_once(
            erase_size,
            Some(first),
            offset + share,
            data.skip(share),
        );
        if share == len {
            lemma_same_sector(erase_size, offset, offset + len - 1);
            assert(erasures(rest) =~= Seq::empty());
        } else {
            assert((offset + share) / erase_size == first + 1);
            // The next sector was not erased last, so it is the first of the rest.
            assert(offset + share + data.skip(share).len() - 1 == offset + len - 1);
        }
        assert(erasures(plan) =~= Seq::new(
            (end - begin) as nat,
            |i: int|
                Access::Erase {
                    partition: Partition::Dfu,
                    from: ((begin + i) * erase_size) as u32,
                    to: ((begin + i) * erase_size + erase_size) as u32,
                },
        ));
    }
}

/// Every sector that the data reach is written at once: the plan has one write for it, which stays
/// in it, and besides the writes only erasures.
pub proof fn law_every_sector_is_written_at_once(
    erase_size: int,
    last_erased: Option<int>,
    offset: int,
    data: Seq<u8>,
)
    requires
        is_addressable(erase_size, offset, data.len() as int),
        data.len() > 0,
    ensures
        ({
            let plan = write_plan(erase_size, last_erased, offset, data);
            let sectors = (offset + data.len() - 1) / erase_size + 1 - offset / erase_size;
            &&& plan.len() == erasures(plan).len() + sectors
            &&& forall|j: int|
                0 <= j < plan.len() ==> match #[trigger] plan[j] {
                    Access::Read { .. } => false,
                    Access::Write { partition, offset: at, data: piece } => {
                        &&& partition == Partition::Dfu
                        &&& piece.len() > 0
                        &&& (at as int) / erase_size == (at + piece.len() - 1) / erase_size
                    },
                    Access::Erase { partition, .. } => partition == Partition::Dfu,
                }
        }),
    decreases data.len(),
{
    let plan = write_plan(erase_size, last_erased, offset, data);
    let first = offset / erase_size;
    let len = data.len() as int;
    let share = sector_share(erase_size, offset, len);
    let rest = write_plan(erase_size, Some(first), offset + share, data.skip(share));
    lemma_share(erase_size, offset, len);
    lemma_sector_bounds(erase_size, offset);
    lemma_same_sector(erase_size, offset, offset + share - 1);
    lemma_plan_unfolds(erase_size, last_erased, offset, data);
    lemma_erasures_unfold(erase_size, last_erased, offset, data);
    if share < len {
        law_every_sector_is_written_at_once(
            erase_size,
            Some(first),
            offset + share,
            data.skip(share),
        );
    } else {
        assert(rest =~= Seq::empty());
        assert(erasures(rest) =~= Seq::empty());
    }
    let skipped: int = plan.len() - rest.len();
    assert forall|j: int| 0 <= j < plan.len() implies match #[trigger] plan[j] {
        Access::Read { .. } => false,
        Access::Write { partition, offset: at, data: piece } => {
            &&& partition == Partition::Dfu
            &&& piece.len() > 0
            &&& (at as int) / erase_size == (at + piece.len() - 1) / erase_size
        },
        Access::Erase { partition, .. } => partition == Partition::Dfu,
    } by {
        if j >= skipped {
            if skipped == 1 {
                assert(plan.drop_first()[j - 1] == plan[j]);
            } else {
                assert(plan.drop_first().drop_first()[j - 2] == plan[j]);
            }
            assert(rest[j - skipped] == plan[j]);
        }
    }
}

/// Data are written by dealing with the sector at hand and then with what is left, as if that were
/// data of its own. Offsets are cut to what an access can name.
pub proof fn law_the_rest_is_written_like_data_of_its_own(
    erase_size: int,
    last_erased: Option<int>,
    offset: int,
    data: Seq<u8>,
    share: int,
)
    requires
        erase_size > 0,
        offset >= 0,
        0 < share <= data.len(),
        offset % erase_size + share == erase_size || share == data.len() && offset % erase_size
            + share < erase_size,
    ensures
        ({
            let sector = offset / erase_size;
            let write = seq![
                Access::Write {
                    partition: Partition::Dfu,
                    offset: offset as u32,
                    data: data.subrange(0, share),
                },
            ];
            let erasure = seq![
                Access::Erase {
                    partition: Partition::Dfu,
                    from: (sector * erase_size) as u32,
                    to: (sector * erase_size + erase_size) as u32,
                },
            ];
            let rest = write_plan(
                erase_size,
                Some(sector),
                offset + share,
                data.subrange(share, data.len() as int),
            );
            write_plan(erase_size, last_erased, offset, data) == if last_erased == Some(sector) {
                write + rest
            } else {
                erasure + write + rest
            }
        }),
{
    lemma_sector_bounds(erase_size, offset);
    assert(data.take(share) =~= data.subrange(0, share));
    assert(data.skip(share) =~= data.subrange(share, data.len() as int));
    assert(sector_share(erase_size, offset, data.len() as int) == share);
    let sector = offset / erase_size;
    let rest = write_plan(erase_size, Some(sector), offset + share, data.skip(share));
    if last_erased == Some(sector) {
        let write = Access::Write {
            partition: Partition::Dfu,
            offset: offset as u32,
            data: data.take(share),
        };
        assert(Seq::<Access>::empty() + seq![write] + rest =~= seq![write] + rest);
    }
}

} // verus!
