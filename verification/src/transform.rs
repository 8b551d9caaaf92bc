//! The whole output for a buffer.

use crate::chunk::{group_at, group_count, Chunker};
use crate::config::Mode;
use crate::parse::{decoded, parse_bytes};
use crate::render::{
    ascii_bytes, graphical_line, hex_cells, lemma_rendered_ascii, push_cells, render,
};
use vstd::prelude::*;
use vstd::utf8::{is_ascii_chars, is_ascii_chars_encode_utf8};

verus! {

/// The rows of the graphical dump of `buffer`: for each group its line as
/// bytes, ended by a newline.
pub open spec fn graphical_rows(buffer: Seq<u8>) -> Seq<Seq<u8>> {
    Seq::new(
        group_count(buffer.len()),
        |index: int| ascii_bytes(graphical_line(index as nat, group_at(buffer, index))).push(0x0a),
    )
}

/// What is written for `buffer` in `mode`. The graphical mode writes the
/// rows one after the other, and nothing for an empty buffer. The hex mode
/// writes the bytes as hex with a space after each and no line break. The
/// reverse mode takes the buffer for hex text and writes the bytes it
/// decodes to, scanning it as one text from end to end.
pub open spec fn output_of(buffer: Seq<u8>, mode: Mode) -> Seq<u8> {
    match mode {
        Mode::Graphical => graphical_rows(buffer).flatten(),
        Mode::Hex => ascii_bytes(hex_cells(buffer, true)),
        Mode::Reverse => decoded(buffer),
    }
}

/// The bytes of an ASCII text.
fn text_bytes(text: &str) -> (bytes: &[u8])
    requires
        is_ascii_chars(text@),
    ensures
        bytes@ == ascii_bytes(text@),
{
    let bytes = text.as_bytes();
    proof {
        is_ascii_chars_encode_utf8(text@);
        assert(bytes@ =~= ascii_bytes(text@));
    }
    bytes
}

/// Computes everything that is written for `buffer` in `mode`: see
/// [`output_of`].
pub fn transform(buffer: &[u8], mode: Mode) -> (out: Vec<u8>)
    ensures
        out@ == output_of(buffer@, mode),
{
    match mode {
        Mode::Reverse => parse_bytes(buffer),
        Mode::Hex => {
            let mut text = String::new();
            push_cells(&mut text, buffer, true);
            proof {
                lemma_rendered_ascii(0, buffer@, true);
                assert(text@ =~= hex_cells(buffer@, true));
            }
            let mut out: Vec<u8> = Vec::new();
            out.extend_from_slice(text_bytes(text.as_str()));
            proof {
                assert(out@ =~= ascii_bytes(hex_cells(buffer@, true)));
            }
            out
        },
        Mode::Graphical => {
            let chunker = Chunker::new(buffer);
            let count = chunker.len();
            let mut out: Vec<u8> = Vec::new();
            let mut index: usize = 0;
            proof {
                assert(graphical_rows(buffer@).take(0) =~= Seq::<Seq<u8>>::empty());
            }
            while index < count
                invariant
                    0 <= index <= count,
                    chunker@ == buffer@,
                    count == group_count(buffer@.len()),
                    out@ == graphical_rows(buffer@).take(index as int).flatten(),
                decreases count - index,
            {
                if let Some(group) = chunker.group(index) {
                    if let Some(line) = render(index, group, Mode::Graphical) {
                        let ghost before = out@;
                        proof {
                            lemma_rendered_ascii(index as nat, group@, true);
                        }
                        out.extend_from_slice(text_bytes(line.as_str()));
                        out.push(0x0a);
                        proof {
                            let rows = graphical_rows(buffer@);
                            assert(out@ =~= before + rows[index as int]);
                            assert(rows.take(index + 1) =~= rows.take(index as int).push(
                                rows[index as int],
                            ));
                            rows.take(index as int).lemma_flatten_push(rows[index as int]);
                        }
                    }
                }
                index += 1;
            }
            proof {
                assert(graphical_rows(buffer@).take(index as int) =~= graphical_rows(buffer@));
            }
            out
        },
    }
}

} // verus!
