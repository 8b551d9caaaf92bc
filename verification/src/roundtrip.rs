//! Rendering and decoding undo each other.

use crate::config::Mode;
use crate::parse::{
    decoded, hex_value, is_hex_digit, keeps, next_state, pair_bytes, retained, state_after,
    ScanState,
};
use crate::render::{
    address, ascii_bytes, hex_cells, hex_digit_char, hex_field, hex_padded, spaces, INDEX_WIDTH,
};
use crate::transform::output_of;
use vstd::prelude::*;

verus! {

/// Reading one more byte moves the state by one step and keeps the byte or
/// not; what was read before is not looked at again.
pub proof fn lemma_scan_push(text: Seq<u8>, byte: u8)
    ensures
        state_after(text.push(byte)) == next_state(state_after(text), byte),
        retained(text.push(byte)) == if keeps(state_after(text), byte) {
            retained(text).push(byte)
        } else {
            retained(text)
        },
{
    assert(text.push(byte).drop_last() =~= text);
}

/// Bytes that are not hex digits add nothing to what is kept, wherever they
/// stand.
pub proof fn lemma_scan_skips(text: Seq<u8>, tail: Seq<u8>)
    requires
        forall|i: int| 0 <= i < tail.len() ==> !is_hex_digit(#[trigger] tail[i]),
    ensures
        retained(text + tail) == retained(text),
    decreases tail.len(),
{
    if tail.len() == 0 {
        assert(text + tail =~= text);
    } else {
        lemma_scan_skips(text, tail.drop_last());
        lemma_scan_push(text + tail.drop_last(), tail.last());
        assert((text + tail.drop_last()).push(tail.last()) =~= text + tail);
    }
}

/// A hex digit, written and read back, is the number it was written for.
pub proof fn lemma_digit_round_trip(value: int)
    requires
        0 <= value < 16,
    ensures
        is_hex_digit(hex_digit_char(value) as u8),
        hex_value(hex_digit_char(value) as u8) == value,
{
}

/// The scan of a row of cells ends outside any comment and keeps exactly the
/// digits, dropping the spaces between them.
proof fn lemma_cells_scan(bytes: Seq<u8>, spaced: bool)
    ensures
        state_after(ascii_bytes(hex_cells(bytes, spaced))) == ScanState::Normal,
        retained(ascii_bytes(hex_cells(bytes, spaced))) == ascii_bytes(hex_cells(bytes, false)),
    decreases bytes.len(),
{
    let text = ascii_bytes(hex_cells(bytes, spaced));
    let digits = ascii_bytes(hex_cells(bytes, false));
    if bytes.len() == 0 {
        assert(text =~= Seq::<u8>::empty());
        assert(digits =~= Seq::<u8>::empty());
    } else {
        let front = bytes.drop_last();
        let last = bytes.last();
        let high = hex_digit_char(last as int / 16) as u8;
        let low = hex_digit_char(last as int % 16) as u8;
        let front_text = ascii_bytes(hex_cells(front, spaced));
        let front_digits = ascii_bytes(hex_cells(front, false));
        lemma_cells_scan(front, spaced);
        lemma_digit_round_trip(last as int / 16);
        lemma_digit_round_trip(last as int % 16);
        lemma_scan_push(front_text, high);
        lemma_scan_push(front_text.push(high), low);
        assert(digits =~= front_digits.push(high).push(low)) by {
            assert forall|i: int| 0 <= i < digits.len() implies digits[i] == front_digits.push(
                high,
            ).push(low)[i] by {
                if i < front_digits.len() {
                    assert(i / 2 < front.len());
                } else {
                    assert(i / 2 == front.len());
                }
            }
        }
        if spaced {
            lemma_scan_push(front_text.push(high).push(low), 0x20u8);
            assert(text =~= front_text.push(high).push(low).push(0x20u8)) by {
                assert forall|i: int| 0 <= i < text.len() implies text[i] == front_text.push(
                    high,
                ).push(low).push(0x20u8)[i] by {
                    if i < front_text.len() {
                        assert(i / 3 < front.len());
                    } else {
                        assert(i / 3 == front.len());
                    }
                }
            }
        } else {
            assert(text =~= front_text.push(high).push(low));
        }
    }
}

/// Decoding the hex text of a buffer gives the buffer back, whether the
/// text is the bare digits or has a space after each byte.
pub proof fn lemma_round_trip(bytes: Seq<u8>, spaced: bool)
    ensures
        decoded(ascii_bytes(hex_cells(bytes, spaced))) == bytes,
{
    lemma_cells_scan(bytes, spaced);
    let digits = ascii_bytes(hex_cells(bytes, false));
    assert forall|i: int| 0 <= i < bytes.len() implies pair_bytes(digits)[i] == bytes[i] by {
        lemma_digit_round_trip(bytes[i] as int / 16);
        lemma_digit_round_trip(bytes[i] as int % 16);
        assert((2 * i) / 2 == i && (2 * i) % 2 == 0);
        assert((2 * i + 1) / 2 == i && (2 * i + 1) % 2 == 1);
    }
    assert(pair_bytes(digits) =~= bytes);
}

/// Decoding the hex field of a group gives the group back: the spaces that
/// fill the field up to its width spell nothing.
pub proof fn lemma_field_round_trip(bytes: Seq<u8>, add_space: bool)
    ensures
        decoded(ascii_bytes(hex_field(bytes, add_space))) == bytes,
{
    lemma_round_trip(bytes, add_space);
    let cells = hex_cells(bytes, add_space);
    let field = hex_field(bytes, add_space);
    if field != cells {
        let fill = spaces(field.len() - cells.len());
        assert(ascii_bytes(field) =~= ascii_bytes(cells) + ascii_bytes(fill));
        lemma_scan_skips(ascii_bytes(cells), ascii_bytes(fill));
    }
}

/// The reverse mode undoes the hex mode: what the hex mode writes for a
/// buffer, read back in reverse mode, is the buffer.
pub proof fn lemma_reverse_undoes_hex(buffer: Seq<u8>)
    ensures
        output_of(output_of(buffer, Mode::Hex), Mode::Reverse) == buffer,
{
    lemma_round_trip(buffer, true);
}

/// The number that a run of hex digits spells, most significant digit first.
pub open spec fn spelled(digits: Seq<char>) -> int
    decreases digits.len(),
{
    if digits.len() == 0 {
        0
    } else {
        16 * spelled(digits.drop_last()) + hex_value(digits.last() as u8)
    }
}

/// A number written in hex spells that number, however wide it is written.
pub proof fn lemma_hex_padded_value(value: nat, width: nat)
    ensures
        spelled(hex_padded(value, width)) == value,
    decreases value, width,
{
    lemma_digit_round_trip((value % 16) as int);
    if value < 16 && width <= 1 {
        assert(hex_padded(value, width).drop_last() =~= Seq::<char>::empty());
        assert(spelled(Seq::<char>::empty()) == 0);
    } else {
        let rest = if width > 0 {
            (width - 1) as nat
        } else {
            0
        };
        lemma_hex_padded_value(value / 16, rest);
        assert(hex_padded(value, width).drop_last() =~= hex_padded(value / 16, rest));
    }
}

/// The address column spells the offset of the line's first byte: sixteen
/// times the line index.
pub proof fn lemma_address_value(line_index: nat)
    ensures
        spelled(address(line_index)) == 16 * line_index,
{
    lemma_hex_padded_value(line_index, INDEX_WIDTH as nat);
    assert(address(line_index).drop_last() =~= hex_padded(line_index, INDEX_WIDTH as nat));
}

} // verus!
