//! The bootloader state and its encoding in flash.
//!
//! The first word of the state partition holds one magic byte, repeated.

use vstd::prelude::*;

verus! {

/// Fills the first word when the active partition is to be booted.
pub const BOOT_MAGIC: u8 = 0xD0;

/// Fills the first word when the partitions are to be swapped.
pub const SWAP_MAGIC: u8 = 0xF0;

/// Fills the first word when USB DFU is to be entered.
pub const DFU_DETACH_MAGIC: u8 = 0xE0;

/// Fills the first word when the bootloader has swapped back.
pub const REVERT_MAGIC: u8 = 0xC0;

/// Fills the second word when the recorded swap progress is void.
pub const PROGRESS_MAGIC: u8 = 0xB0;

/// What the bootloader does, or has done, at boot.
#[derive(Debug, Clone, Copy, PartialEq, Eq, Structural)]
pub enum State {
    /// Boot the active partition.
    Boot,
    /// The active and the DFU partition are exchanged.
    Swap,
    /// An exchange was undone.
    Revert,
    /// A request to reboot into DFU mode was made.
    DfuDetach,
}

/// Every byte of `bytes` is `value`.
pub open spec fn filled_with(bytes: Seq<u8>, value: u8) -> bool {
    forall|i: int| 0 <= i < bytes.len() ==> bytes[i] == value
}

/// `len` bytes, all of them `value`.
pub open spec fn fill_of(value: u8, len: nat) -> Seq<u8> {
    Seq::new(len, |i: int| value)
}

/// `byte` has a meaning of its own in the state partition.
pub open spec fn is_magic(byte: u8) -> bool {
    byte == PROGRESS_MAGIC || byte == BOOT_MAGIC || byte == SWAP_MAGIC || byte == DFU_DETACH_MAGIC
        || byte == REVERT_MAGIC
}

/// The state that a word encodes. Whatever is not filled with one of the
/// other magic bytes means `Boot`.
pub open spec fn decode_state(word: Seq<u8>) -> State {
    if filled_with(word, SWAP_MAGIC) {
        State::Swap
    } else if filled_with(word, REVERT_MAGIC) {
        State::Revert
    } else if filled_with(word, DFU_DETACH_MAGIC) {
        State::DfuDetach
    } else {
        State::Boot
    }
}

/// The state that a non-empty word filled with `magic` encodes.
pub open spec fn state_of_magic(magic: u8) -> State {
    if magic == SWAP_MAGIC {
        State::Swap
    } else if magic == REVERT_MAGIC {
        State::Revert
    } else if magic == DFU_DETACH_MAGIC {
        State::DfuDetach
    } else {
        State::Boot
    }
}

/// Whether every byte is `value`.
pub fn is_filled_with(bytes: &[u8], value: u8) -> (result: bool)
    ensures
        result == filled_with(bytes@, value),
{
    let mut i: usize = 0;
    while i < bytes.len()
        invariant
            i <= bytes.len(),
            forall|j: int| 0 <= j < i ==> bytes@[j] == value,
        decreases bytes.len() - i,
    {
        if bytes[i] != value {
            return false;
        }
        i = i + 1;
    }
    true
}

impl vstd::std_specs::convert::FromSpecImpl<&[u8]> for State {
    open spec fn obeys_from_spec() -> bool {
        true
    }

    open spec fn from_spec(word: &[u8]) -> State {
        decode_state(word@)
    }
}

impl From<&[u8]> for State {
    fn from(word: &[u8]) -> (state: State) {
        if is_filled_with(word, SWAP_MAGIC) {
            State::Swap
        } else if is_filled_with(word, REVERT_MAGIC) {
            State::Revert
        } else if is_filled_with(word, DFU_DETACH_MAGIC) {
            State::DfuDetach
        } else {
            State::Boot
        }
    }
}

/// A word that was filled with a magic byte is read back as the state of
/// that byte.
pub proof fn law_magic_round_trip(magic: u8, len: nat)
    requires
        len > 0,
    ensures
        decode_state(fill_of(magic, len)) == state_of_magic(magic),
        forall|word: Seq<u8>|
            word.len() > 0 && #[trigger] filled_with(word, magic) ==> decode_state(word)
                == state_of_magic(magic),
{
    assert forall|word: Seq<u8>|
        word.len() > 0 && #[trigger] filled_with(word, magic) implies decode_state(word)
        == state_of_magic(magic) by {
        assert(word[0] == magic);
    }
    assert(filled_with(fill_of(magic, len), magic));
}

/// A state other than `Boot` is told by every byte of a word: each of them is the magic byte of
/// that state. All other words, also those that hold several magic bytes, mean `Boot`.
pub proof fn law_every_byte_tells_the_state(word: Seq<u8>)
    requires
        word.len() > 0,
    ensures
        decode_state(word) == State::Swap <==> forall|i: int|
            0 <= i < word.len() ==> word[i] == 0xF0,
        decode_state(word) == State::Revert <==> forall|i: int|
            0 <= i < word.len() ==> word[i] == 0xC0,
        decode_state(word) == State::DfuDetach <==> forall|i: int|
            0 <= i < word.len() ==> word[i] == 0xE0,
        forall|byte: u8|
            #![trigger filled_with(word, byte)]
            filled_with(word, byte) <==> word == Seq::new(word.len(), |i: int| byte),
{
    assert(filled_with(word, SWAP_MAGIC) ==> word[0] == 0xF0);
    assert(filled_with(word, REVERT_MAGIC) ==> word[0] == 0xC0);
    assert(filled_with(word, DFU_DETACH_MAGIC) ==> word[0] == 0xE0);
    assert forall|byte: u8|
        #![trigger filled_with(word, byte)]
        filled_with(word, byte) <==> word == Seq::new(word.len(), |i: int| byte) by {
        if filled_with(word, byte) {
            assert(word =~= Seq::new(word.len(), |i: int| byte));
        }
    }
}

/// A word of no bytes is read as `Swap`, as none of its bytes differs.
pub proof fn law_an_empty_word_means_swap(word: Seq<u8>)
    requires
        word.len() == 0,
    ensures
        decode_state(word) == State::Swap,
{
}

/// Conversion decodes the whole slice.
pub proof fn law_conversion_decodes(word: &[u8])
    ensures
        <State as vstd::std_specs::convert::FromSpec<&[u8]>>::from_spec(word) == decode_state(word@),
{
}

/// The magic bytes: no two are equal, and exactly these five have a meaning of their own.
pub proof fn law_magic_bytes(byte: u8, len: nat, value: u8)
    ensures
        BOOT_MAGIC == 0xD0,
        SWAP_MAGIC == 0xF0,
        DFU_DETACH_MAGIC == 0xE0,
        REVERT_MAGIC == 0xC0,
        PROGRESS_MAGIC != 0xD0,
        PROGRESS_MAGIC != 0xF0,
        PROGRESS_MAGIC != 0xE0,
        PROGRESS_MAGIC != 0xC0,
        is_magic(byte) <==> byte == 0xD0 || byte == 0xF0 || byte == 0xE0 || byte == 0xC0 || byte
            == PROGRESS_MAGIC,
        fill_of(value, len).len() == len,
        forall|i: int| 0 <= i < len ==> fill_of(value, len)[i] == value,
{
}

/// A slice is found to be filled with a byte exactly where every byte of it is that byte.
pub proof fn law_filled_slices_are_found(bytes: &[u8], value: u8, found: bool)
    requires
        call_ensures(is_filled_with, (bytes, value), found),
    ensures
        found <==> bytes@ == Seq::new(bytes@.len(), |i: int| value),
{
    if found {
        assert(bytes@ =~= Seq::new(bytes@.len(), |i: int| value));
    } else {
        assert(exists|i: int| 0 <= i < bytes@.len() && bytes@[i] != value);
    }
}

} // verus!
