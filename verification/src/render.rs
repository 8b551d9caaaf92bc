//! Rendering a group of bytes as text.

use crate::chunk::{group_at, group_count, Chunker, GROUP_SIZE};
use crate::config::Mode;
use vstd::prelude::*;
use vstd::utf8::is_ascii_chars;

verus! {

/// The width of the hex field of a line: three characters for each byte of a
/// full group.
pub const HEX_WIDTH: usize = 48;

/// `String::push`: the character is appended at the end, and nothing else
/// changes.
pub assume_specification[ String::push ](text: &mut String, ch: char)
    ensures
        final(text)@ == old(text)@.push(ch),
;

/// The bytes of a text, one for each character. It is meant for ASCII text,
/// where each character is one byte.
pub open spec fn ascii_bytes(text: Seq<char>) -> Seq<u8> {
    Seq::new(text.len(), |i: int| text[i] as u8)
}

/// The lowercase hex digit for `value`, which is 0 to 15.
pub open spec fn hex_digit_char(value: int) -> char
    recommends
        0 <= value < 16,
{
    if value < 10 {
        (0x30 + value) as char
    } else {
        (0x61 + value - 10) as char
    }
}

/// The character shown in the gutter for `byte`: the byte itself where it is
/// a visible ASCII character (`!` to `~`), a dot for a space, a control byte
/// or anything outside ASCII.
pub open spec fn gutter_char(byte: u8) -> char {
    if 0x21 <= byte <= 0x7e {
        byte as char
    } else {
        '.'
    }
}

/// The gutter of a group: one character for each byte.
pub open spec fn gutter(bytes: Seq<u8>) -> Seq<char> {
    Seq::new(bytes.len(), |i: int| gutter_char(bytes[i]))
}

/// The lowercase hex digit for `value`.
fn hex_digit(value: u8) -> (ch: char)
    requires
        value < 16,
    ensures
        ch == hex_digit_char(value as int),
{
    if value < 10 {
        (0x30 + value) as char
    } else {
        (0x57 + value) as char
    }
}

/// Renders the ASCII gutter of a group.
pub fn format_text(bytes: &[u8]) -> (text: String)
    ensures
        text@ == gutter(bytes@),
{
    let mut text = String::new();
    let mut i: usize = 0;
    while i < bytes.len()
        invariant
            0 <= i <= bytes.len(),
            text@ == gutter(bytes@.take(i as int)),
        decreases bytes.len() - i,
    {
        let byte = bytes[i];
        let ch = if 0x21 <= byte && byte <= 0x7e {
            byte as char
        } else {
            '.'
        };
        text.push(ch);
        proof {
            assert(text@ =~= gutter(bytes@.take(i + 1)));
        }
        i += 1;
    }
    proof {
        assert(bytes@.take(i as int) =~= bytes@);
    }
    text
}

/// The character at place `i` of a row of cells, each cell being `width`
/// characters: the two hex digits of a byte and, in a cell of three, a space.
pub open spec fn cell_char(bytes: Seq<u8>, width: int, i: int) -> char {
    let byte = bytes[i / width];
    if i % width == 0 {
        hex_digit_char(byte as int / 16)
    } else if i % width == 1 {
        hex_digit_char(byte as int % 16)
    } else {
        ' '
    }
}

/// The width of a cell: two hex digits, and a space where cells are spaced.
pub open spec fn cell_width(spaced: bool) -> int {
    if spaced {
        3
    } else {
        2
    }
}

/// The bytes as hex digits, two for each byte, in order; where `spaced`, a
/// space follows each byte.
pub open spec fn hex_cells(bytes: Seq<u8>, spaced: bool) -> Seq<char> {
    Seq::new(
        (cell_width(spaced) * bytes.len()) as nat,
        |i: int| cell_char(bytes, cell_width(spaced), i),
    )
}

/// A run of `count` spaces.
pub open spec fn spaces(count: int) -> Seq<char> {
    Seq::new(count as nat, |i: int| ' ')
}

/// The hex field of a group. With `add_space`, a space follows each byte and
/// the field is filled with spaces on the right up to [`HEX_WIDTH`]
/// characters; a field that is already that wide or wider is left as it is.
/// Without, the field is the bare digits.
pub open spec fn hex_field(bytes: Seq<u8>, add_space: bool) -> Seq<char> {
    let cells = hex_cells(bytes, add_space);
    if add_space && cells.len() < HEX_WIDTH {
        cells + spaces(HEX_WIDTH - cells.len())
    } else {
        cells
    }
}

/// Appends the cells of `bytes` to `text`.
pub(crate) fn push_cells(text: &mut String, bytes: &[u8], spaced: bool)
    ensures
        final(text)@ == old(text)@ + hex_cells(bytes@, spaced),
{
    let mut i: usize = 0;
    while i < bytes.len()
        invariant
            0 <= i <= bytes.len(),
            text@ == old(text)@ + hex_cells(bytes@.take(i as int), spaced),
        decreases bytes.len() - i,
    {
        let byte = bytes[i];
        let ghost before = text@;
        text.push(hex_digit(byte / 16));
        text.push(hex_digit(byte % 16));
        if spaced {
            text.push(' ');
        }
        proof {
            lemma_cells_concat(bytes@.take(i as int), seq![byte], spaced);
            assert(bytes@.take(i + 1) =~= bytes@.take(i as int) + seq![byte]);
            assert(text@ =~= before + hex_cells(seq![byte], spaced));
        }
        i += 1;
    }
    proof {
        assert(bytes@.take(i as int) =~= bytes@);
    }
}

/// Appends `count` spaces to `text`.
fn push_spaces(text: &mut String, count: usize)
    ensures
        final(text)@ == old(text)@ + spaces(count as int),
{
    let mut i: usize = 0;
    while i < count
        invariant
            0 <= i <= count,
            text@ == old(text)@ + spaces(i as int),
        decreases count - i,
    {
        text.push(' ');
        proof {
            assert(text@ =~= old(text)@ + spaces(i + 1));
        }
        i += 1;
    }
}

/// Renders the hex field of a group: see [`hex_field`].
pub fn format_hex(bytes: &[u8], add_space: bool) -> (text: String)
    ensures
        text@ == hex_field(bytes@, add_space),
        add_space && bytes@.len() <= GROUP_SIZE ==> text@.len() == HEX_WIDTH,
{
    let mut text = String::new();
    push_cells(&mut text, bytes, add_space);
    if add_space && bytes.len() < GROUP_SIZE {
        push_spaces(&mut text, 3 * (GROUP_SIZE - bytes.len()));
    }
    proof {
        assert(text@ =~= hex_field(bytes@, add_space));
    }
    text
}

/// The least number of hex digits shown for a line index.
pub const INDEX_WIDTH: usize = 7;

/// The number `value` in lowercase hex, most significant digit first, with
/// zeros on the left where it has fewer than `width` digits. A number with
/// more digits than `width` is shown in full.
pub open spec fn hex_padded(value: nat, width: nat) -> Seq<char>
    decreases value, width,
{
    if value < 16 && width <= 1 {
        seq![hex_digit_char(value as int)]
    } else {
        let rest = if width > 0 {
            (width - 1) as nat
        } else {
            0
        };
        hex_padded(value / 16, rest).push(hex_digit_char((value % 16) as int))
    }
}

/// The address column of the line `line_index`: the index in hex, at least
/// [`INDEX_WIDTH`] digits wide, and a `0` after it, which makes it the offset
/// of the line's first byte.
pub open spec fn address(line_index: nat) -> Seq<char> {
    hex_padded(line_index, INDEX_WIDTH as nat).push('0')
}

/// A line of the graphical dump, without its newline: the address column, a
/// colon and a space, the spaced and filled hex field, a space, the gutter.
pub open spec fn graphical_line(line_index: nat, group: Seq<u8>) -> Seq<char> {
    address(line_index) + seq![':', ' '] + hex_field(group, true) + seq![' '] + gutter(group)
}

/// What a group is rendered as in `mode`. The graphical mode gives a line,
/// the hex mode a run of spaced cells with nothing before or after it, and
/// the reverse mode renders nothing.
pub open spec fn rendered(line_index: nat, group: Seq<u8>, mode: Mode) -> Option<Seq<char>> {
    match mode {
        Mode::Graphical => Some(graphical_line(line_index, group)),
        Mode::Hex => Some(hex_cells(group, true)),
        Mode::Reverse => None,
    }
}

/// Appends `value` in hex, at least `width` digits wide, to `text`.
fn push_hex_padded(text: &mut String, value: usize, width: usize)
    ensures
        final(text)@ == old(text)@ + hex_padded(value as nat, width as nat),
    decreases value, width,
{
    if value < 16 && width <= 1 {
        text.push(hex_digit(value as u8));
        proof {
            assert(text@ =~= old(text)@ + hex_padded(value as nat, width as nat));
        }
    } else {
        let rest = if width > 0 {
            width - 1
        } else {
            0
        };
        push_hex_padded(text, value / 16, rest);
        text.push(hex_digit((value % 16) as u8));
        proof {
            assert(text@ =~= old(text)@ + hex_padded(value as nat, width as nat));
        }
    }
}

/// Renders one group in `mode`: see [`rendered`]. A graphical line comes
/// without its newline.
pub fn render(line_index: usize, group: &[u8], mode: Mode) -> (text: Option<String>)
    ensures
        text is Some <==> mode != Mode::Reverse,
        match text {
            Some(line) => rendered(line_index as nat, group@, mode) == Some(line@),
            None => rendered(line_index as nat, group@, mode) is None,
        },
{
    match mode {
        Mode::Graphical => {
            let mut line = String::new();
            push_hex_padded(&mut line, line_index, INDEX_WIDTH);
            line.push('0');
            line.push(':');
            line.push(' ');
            let hex = format_hex(group, true);
            line.append(hex.as_str());
            line.push(' ');
            let text = format_text(group);
            line.append(text.as_str());
            proof {
                assert(line@ =~= graphical_line(line_index as nat, group@));
            }
            Some(line)
        },
        Mode::Hex => {
            let mut cells = String::new();
            push_cells(&mut cells, group, true);
            Some(cells)
        },
        Mode::Reverse => None,
    }
}

/// Renders a whole buffer in `mode`, group by group: the text of each group,
/// in order, numbered from zero. An empty buffer has no group and gives no
/// text at all. The reverse mode renders nothing.
pub fn render_lines(buffer: &[u8], mode: Mode) -> (lines: Option<Vec<String>>)
    ensures
        lines is Some <==> mode != Mode::Reverse,
        lines matches Some(texts) ==> {
            &&& texts@.len() == group_count(buffer@.len())
            &&& forall|index: int|
                0 <= index < texts@.len() ==> rendered(
                    index as nat,
                    group_at(buffer@, index),
                    mode,
                ) == Some((#[trigger] texts@[index])@)
        },
{
    if let Mode::Reverse = mode {
        return None;
    }
    let chunker = Chunker::new(buffer);
    let count = chunker.len();
    let mut texts: Vec<String> = Vec::new();
    let mut index: usize = 0;
    while index < count
        invariant
            0 <= index <= count,
            mode != Mode::Reverse,
            chunker@ == buffer@,
            count == group_count(buffer@.len()),
            texts@.len() == index,
            forall|k: int|
                0 <= k < index ==> rendered(k as nat, group_at(buffer@, k), mode) == Some(
                    (#[trigger] texts@[k])@,
                ),
        decreases count - index,
    {
        if let Some(group) = chunker.group(index) {
            if let Some(text) = render(index, group, mode) {
                texts.push(text);
            }
        }
        index += 1;
    }
    Some(texts)
}

/// The hex field of a group has the same width whether the group is full or
/// short, so the gutter starts in the same column on every line.
pub proof fn lemma_field_width(group: Seq<u8>)
    requires
        group.len() <= GROUP_SIZE,
    ensures
        hex_field(group, true).len() == HEX_WIDTH,
        hex_field(group, true).subrange(0, 3 * group.len() as int) == hex_cells(group, true),
        forall|i: int| 3 * group.len() <= i < HEX_WIDTH ==> hex_field(group, true)[i] == ' ',
{
    assert(hex_field(group, true).subrange(0, 3 * group.len() as int) =~= hex_cells(group, true));
}

/// Whether `value` can be written with `width` hex digits.
pub open spec fn fits_digits(value: nat, width: nat) -> bool
    decreases width,
{
    if width == 0 {
        value == 0
    } else {
        fits_digits(value / 16, (width - 1) as nat)
    }
}

/// A number is never cut short: it takes at least `width` digits, and
/// exactly `width` where it can be written with that many.
pub proof fn lemma_hex_padded_len(value: nat, width: nat)
    ensures
        hex_padded(value, width).len() >= width,
        hex_padded(value, width).len() >= 1,
        width >= 1 && fits_digits(value, width) ==> hex_padded(value, width).len() == width,
    decreases value, width,
{
    if value < 16 && width <= 1 {
    } else {
        let rest = if width > 0 {
            (width - 1) as nat
        } else {
            0
        };
        lemma_hex_padded_len(value / 16, rest);
        if width == 1 && fits_digits(value, width) {
            assert(fits_digits(value / 16, 0));
        }
    }
}

/// Below line `0x1000_0000` every graphical line has the same layout: eight
/// characters of address, a colon and a space, the hex field, a space, and
/// one gutter character for each byte of the group.
pub proof fn lemma_graphical_line_len(line_index: nat, group: Seq<u8>)
    requires
        line_index < 0x1000_0000,
        group.len() <= GROUP_SIZE,
    ensures
        address(line_index).len() == INDEX_WIDTH + 1,
        graphical_line(line_index, group).len() == INDEX_WIDTH + 1 + 2 + HEX_WIDTH + 1
            + group.len(),
        graphical_line(line_index, group).subrange(59, 59 + group.len() as int) == gutter(group),
{
    assert(fits_digits(line_index, 7)) by {
        reveal_with_fuel(fits_digits, 8);
    }
    lemma_hex_padded_len(line_index, 7);
    lemma_field_width(group);
    assert(graphical_line(line_index, group).subrange(59, 59 + group.len() as int) =~= gutter(group));
}

/// The cells of two runs of bytes put end to end are the cells of the first
/// followed by the cells of the second.
pub proof fn lemma_cells_concat(left: Seq<u8>, right: Seq<u8>, spaced: bool)
    ensures
        hex_cells(left + right, spaced) == hex_cells(left, spaced) + hex_cells(right, spaced),
{
    let width = cell_width(spaced);
    let whole = hex_cells(left + right, spaced);
    let joined = hex_cells(left, spaced) + hex_cells(right, spaced);
    assert(whole.len() == joined.len());
    assert forall|i: int| 0 <= i < whole.len() implies whole[i] == joined[i] by {
        if i < width * left.len() {
            assert(i / width < left.len());
        } else {
            let j = i - width * left.len();
            assert(i / width == j / width + left.len());
            assert(i % width == j % width);
        }
    }
    assert(whole =~= joined);
}

/// What the hex mode gives for each group of `buffer`, in order.
pub open spec fn hex_fragments(buffer: Seq<u8>) -> Seq<Seq<char>> {
    Seq::new(group_count(buffer.len()), |index: int| hex_cells(group_at(buffer, index), true))
}

/// In the hex mode the cut into groups does not show: the fragments put end
/// to end are the cells of the whole buffer, a space after each byte and no
/// line break anywhere.
pub proof fn lemma_hex_stream(buffer: Seq<u8>)
    ensures
        hex_fragments(buffer).flatten() == hex_cells(buffer, true),
    decreases buffer.len(),
{
    let fragments = hex_fragments(buffer);
    if buffer.len() == 0 {
        assert(fragments =~= Seq::<Seq<char>>::empty());
        assert(hex_cells(buffer, true) =~= Seq::<char>::empty());
    } else {
        let head = group_at(buffer, 0);
        let rest = buffer.skip(head.len() as int);
        lemma_hex_stream(rest);
        assert forall|index: int| 0 <= index < hex_fragments(rest).len() implies hex_fragments(
            rest,
        )[index] == fragments.drop_first()[index] by {
            assert(group_at(rest, index) =~= group_at(buffer, index + 1));
        }
        assert(fragments.drop_first() =~= hex_fragments(rest));
        assert(fragments.flatten() == fragments.first() + fragments.drop_first().flatten());
        assert(head + rest =~= buffer);
        lemma_cells_concat(head, rest, true);
    }
}

/// Two ASCII texts put end to end are an ASCII text.
proof fn lemma_ascii_concat(left: Seq<char>, right: Seq<char>)
    requires
        is_ascii_chars(left),
        is_ascii_chars(right),
    ensures
        is_ascii_chars(left + right),
{
    assert forall|i: int| 0 <= i < (left + right).len() implies '\0' <= #[trigger] (left
        + right)[i] <= '\u{7f}' by {
        if i < left.len() {
            assert((left + right)[i] == left[i]);
        } else {
            assert((left + right)[i] == right[i - left.len()]);
        }
    }
}

/// A number in hex is ASCII text.
proof fn lemma_hex_padded_ascii(value: nat, width: nat)
    ensures
        is_ascii_chars(hex_padded(value, width)),
    decreases value, width,
{
    if value < 16 && width <= 1 {
    } else {
        let rest = if width > 0 {
            (width - 1) as nat
        } else {
            0
        };
        lemma_hex_padded_ascii(value / 16, rest);
        lemma_ascii_concat(
            hex_padded(value / 16, rest),
            seq![hex_digit_char((value % 16) as int)],
        );
        assert(hex_padded(value, width) =~= hex_padded(value / 16, rest) + seq![
            hex_digit_char((value % 16) as int),
        ]);
    }
}

/// Everything that is rendered is ASCII text: one byte to a character.
pub proof fn lemma_rendered_ascii(line_index: nat, group: Seq<u8>, spaced: bool)
    ensures
        is_ascii_chars(gutter(group)),
        is_ascii_chars(hex_cells(group, spaced)),
        is_ascii_chars(hex_field(group, spaced)),
        is_ascii_chars(address(line_index)),
        is_ascii_chars(graphical_line(line_index, group)),
{
    let field = hex_field(group, true);
    lemma_hex_padded_ascii(line_index, INDEX_WIDTH as nat);
    lemma_ascii_concat(hex_padded(line_index, INDEX_WIDTH as nat), seq!['0']);
    assert(address(line_index) =~= hex_padded(line_index, INDEX_WIDTH as nat) + seq!['0']);
    lemma_ascii_concat(address(line_index), seq![':', ' ']);
    lemma_ascii_concat(address(line_index) + seq![':', ' '], field);
    lemma_ascii_concat(address(line_index) + seq![':', ' '] + field, seq![' ']);
    lemma_ascii_concat(address(line_index) + seq![':', ' '] + field + seq![' '], gutter(group));
}

} // verus!





