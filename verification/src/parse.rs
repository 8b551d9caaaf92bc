//! Decoding hex text back into bytes.
//!
//! The text is scanned once, left to right. A `;` or a `/` opens a comment
//! that lasts to the end of its line; outside comments every ASCII hex digit
//! is kept and everything else is dropped. The kept digits are read two by
//! two, most significant first; a last digit without a partner is dropped.

use vstd::prelude::*;

verus! {

/// Where the scan stands with respect to comments.
#[derive(Debug, Clone, Copy, PartialEq, Eq, Structural)]
pub enum ScanState {
    /// Outside any comment: hex digits count.
    Normal,
    /// Between a comment mark and the end of its line: nothing counts.
    InComment,
}

/// Whether `byte` is one of `0-9`, `a-f`, `A-F`.
pub open spec fn is_hex_digit(byte: u8) -> bool {
    ||| 0x30 <= byte <= 0x39
    ||| 0x41 <= byte <= 0x46
    ||| 0x61 <= byte <= 0x66
}

/// The number, 0 to 15, that a hex digit stands for, whatever its case.
pub open spec fn hex_value(byte: u8) -> int
    recommends
        is_hex_digit(byte),
{
    if 0x30 <= byte <= 0x39 {
        byte - 0x30
    } else if 0x41 <= byte <= 0x46 {
        byte - 0x41 + 10
    } else {
        byte - 0x61 + 10
    }
}

/// Whether `byte` opens a comment: `;` or `/`.
pub open spec fn opens_comment(byte: u8) -> bool {
    byte == 0x3b || byte == 0x2f
}

/// Whether `byte` is the newline that closes a comment.
pub open spec fn ends_line(byte: u8) -> bool {
    byte == 0x0a
}

/// The state of the scan once `byte` has been read in `state`.
pub open spec fn next_state(state: ScanState, byte: u8) -> ScanState {
    if opens_comment(byte) {
        ScanState::InComment
    } else if ends_line(byte) {
        ScanState::Normal
    } else {
        state
    }
}

/// The state of the scan once all of `text` has been read, starting outside
/// any comment.
pub open spec fn state_after(text: Seq<u8>) -> ScanState
    decreases text.len(),
{
    if text.len() == 0 {
        ScanState::Normal
    } else {
        next_state(state_after(text.drop_last()), text.last())
    }
}

/// Whether the scan keeps `byte` when it reads it in `state`.
pub open spec fn keeps(state: ScanState, byte: u8) -> bool {
    next_state(state, byte) == ScanState::Normal && is_hex_digit(byte)
}

/// The hex digits of `text` that lie outside comments, in order.
pub open spec fn retained(text: Seq<u8>) -> Seq<u8>
    decreases text.len(),
{
    if text.len() == 0 {
        Seq::empty()
    } else if keeps(state_after(text.drop_last()), text.last()) {
        retained(text.drop_last()).push(text.last())
    } else {
        retained(text.drop_last())
    }
}

/// The byte that two hex digits spell, the first being the high half.
pub open spec fn pair_value(high: u8, low: u8) -> u8 {
    (16 * hex_value(high) + hex_value(low)) as u8
}

/// The bytes spelled by `digits` taken two by two. A last digit without a
/// partner spells nothing.
pub open spec fn pair_bytes(digits: Seq<u8>) -> Seq<u8> {
    Seq::new(digits.len() / 2, |i: int| pair_value(digits[2 * i], digits[2 * i + 1]))
}

/// The bytes that `text` decodes to.
pub open spec fn decoded(text: Seq<u8>) -> Seq<u8> {
    pair_bytes(retained(text))
}

/// The value of `byte` as a hex digit, or `None` if it is not one.
pub fn hex_digit_value(byte: u8) -> (value: Option<u8>)
    ensures
        value is Some <==> is_hex_digit(byte),
        value matches Some(v) ==> v == hex_value(byte) && v < 16,
{
    if 0x30 <= byte && byte <= 0x39 {
        Some(byte - 0x30)
    } else if 0x41 <= byte && byte <= 0x46 {
        Some(byte - 0x41 + 10)
    } else if 0x61 <= byte && byte <= 0x66 {
        Some(byte - 0x61 + 10)
    } else {
        None
    }
}

impl ScanState {
    /// Reads one byte: gives the state that follows and, if the byte is a
    /// hex digit outside a comment, the number it stands for.
    pub fn step(self, byte: u8) -> (outcome: (ScanState, Option<u8>))
        ensures
            outcome.0 == next_state(self, byte),
            outcome.1 is Some <==> keeps(self, byte),
            outcome.1 matches Some(v) ==> v == hex_value(byte) && v < 16,
    {
        if byte == 0x3b || byte == 0x2f {
            (ScanState::InComment, None)
        } else if byte == 0x0a {
            (ScanState::Normal, None)
        } else {
            match self {
                ScanState::Normal => (ScanState::Normal, hex_digit_value(byte)),
                ScanState::InComment => (ScanState::InComment, None),
            }
        }
    }
}

/// Appending a digit to an even run of digits spells no new byte; appending
/// one to an odd run completes the byte that the run's last digit began.
pub proof fn lemma_pair_bytes_push(digits: Seq<u8>, digit: u8)
    ensures
        digits.len() % 2 == 0 ==> pair_bytes(digits.push(digit)) == pair_bytes(digits),
        digits.len() % 2 == 1 ==> pair_bytes(digits.push(digit)) == pair_bytes(digits).push(
            pair_value(digits.last(), digit),
        ),
{
    let longer = digits.push(digit);
    if digits.len() % 2 == 0 {
        assert(pair_bytes(longer) =~= pair_bytes(digits));
    } else {
        assert(pair_bytes(longer) =~= pair_bytes(digits).push(pair_value(digits.last(), digit)));
    }
}

/// Decodes hex text. Never fails: what is not a hex digit outside a comment
/// is passed over, and an odd last digit is dropped.
pub fn parse_bytes(bytes: &[u8]) -> (out: Vec<u8>)
    ensures
        out@ == decoded(bytes@),
        out@.len() == retained(bytes@).len() / 2,
{
    let mut out: Vec<u8> = Vec::new();
    let mut state = ScanState::Normal;
    let mut high: Option<u8> = None;
    let mut i: usize = 0;
    while i < bytes.len()
        invariant
            0 <= i <= bytes.len(),
            state == state_after(bytes@.take(i as int)),
            out@ == decoded(bytes@.take(i as int)),
            match high {
                Some(h) => retained(bytes@.take(i as int)).len() % 2 == 1 && h == hex_value(
                    retained(bytes@.take(i as int)).last(),
                ) && h < 16,
                None => retained(bytes@.take(i as int)).len() % 2 == 0,
            },
        decreases bytes.len() - i,
    {
        let byte = bytes[i];
        let ghost before = bytes@.take(i as int);
        proof {
            assert(bytes@.take(i + 1).drop_last() =~= before);
            assert(bytes@.take(i + 1).last() == byte);
            lemma_pair_bytes_push(retained(before), byte);
        }
        let (next, digit) = state.step(byte);
        state = next;
        if let Some(low) = digit {
            match high {
                Some(h) => {
                    out.push(16 * h + low);
                    high = None;
                },
                None => {
                    high = Some(low);
                },
            }
        }
        i += 1;
    }
    proof {
        assert(bytes@.take(i as int) =~= bytes@);
    }
    out
}

/// Whether place `at` of `text` lies in a comment: a comment mark stands at
/// `at` or before it, and no newline stands after the mark up to `at`.
pub open spec fn in_comment(text: Seq<u8>, at: int) -> bool {
    exists|mark: int|
        0 <= mark <= at && opens_comment(#[trigger] text[mark]) && forall|k: int|
            mark < k <= at ==> !ends_line(#[trigger] text[k])
}

/// The state carried by the scan is the comment state of the text: once the
/// byte at `at` has been read, the scan is inside a comment exactly when
/// that place lies in one.
pub proof fn lemma_comment_state(text: Seq<u8>, at: int)
    requires
        0 <= at < text.len(),
    ensures
        state_after(text.take(at + 1)) == ScanState::InComment <==> in_comment(text, at),
    decreases at,
{
    let prefix = text.take(at + 1);
    assert(prefix.drop_last() =~= text.take(at));
    assert(prefix.last() == text[at]);
    if opens_comment(text[at]) {
        assert(in_comment(text, at));
    } else if ends_line(text[at]) {
        assert(!in_comment(text, at));
    } else if at == 0 {
        assert(!in_comment(text, at));
    } else {
        lemma_comment_state(text, at - 1);
        if in_comment(text, at - 1) {
            let mark = choose|mark: int|
                0 <= mark <= at - 1 && opens_comment(#[trigger] text[mark]) && forall|k: int|
                    mark < k <= at - 1 ==> !ends_line(#[trigger] text[k]);
            assert(forall|k: int| mark < k <= at ==> !ends_line(#[trigger] text[k]));
            assert(in_comment(text, at));
        }
        if in_comment(text, at) {
            let mark = choose|mark: int|
                0 <= mark <= at && opens_comment(#[trigger] text[mark]) && forall|k: int|
                    mark < k <= at ==> !ends_line(#[trigger] text[k]);
            assert(forall|k: int| mark < k <= at - 1 ==> !ends_line(#[trigger] text[k]));
            assert(in_comment(text, at - 1));
        }
    }
}

/// A hex letter stands for the same number in either case.
pub proof fn lemma_case_insensitive(letter: u8)
    requires
        0x61 <= letter <= 0x66,
    ensures
        is_hex_digit(letter),
        is_hex_digit((letter - 0x20) as u8),
        hex_value((letter - 0x20) as u8) == hex_value(letter),
{
}

} // verus!

