//! Decoding of the binary greymap that seeds a board.
//!
//! The image is four header tokens, each ended by one whitespace byte,
//! and then the pixels: the two-letter magic, the width, the height (which is
//! not read: the rows are as many as the pixels make), and the brightest
//! grey. Every byte after the whitespace byte that ends the last token is
//! a pixel, whatever its value, and a pixel of the brightest grey is a live
//! cell.

use crate::gol::{Board, Grid};
use vstd::prelude::*;
use vstd::slice::slice_subrange;

verus! {

/// Why an image was not decoded.
#[derive(Clone, Copy, Debug, PartialEq, Eq, Structural)]
pub enum LoadError {
    /// A header token is not well-formed UTF-8.
    Encoding,
    /// There are fewer than four header tokens.
    Sections,
    /// The first token is not the magic of a binary greymap.
    Magic,
    /// The width or the brightest grey is not a number of its range.
    Number,
    /// The brightest grey is 256 or more.
    GreyRange,
    /// The width is zero, or the pixels do not fill whole rows, or there
    /// are more of them than a board holds.
    Shape,
}

/// Space, line feed, carriage return and tab end a token.
pub open spec fn is_space(b: u8) -> bool {
    b == 0x20 || b == 0x0a || b == 0x0d || b == 0x09
}

/// The index of the first whitespace byte at or after `from`, or the
/// length where there is none.
pub open spec fn token_end(bytes: Seq<u8>, from: int) -> int
    decreases bytes.len() - from,
{
    if from >= bytes.len() {
        bytes.len() as int
    } else if is_space(bytes[from]) {
        from
    } else {
        token_end(bytes, from + 1)
    }
}

/// Where token `k` starts: just past the whitespace byte that ends the
/// token before it. Past the length where there is no such token.
pub open spec fn token_start(bytes: Seq<u8>, k: nat) -> int
    decreases k,
{
    if k == 0 {
        0
    } else {
        token_end(bytes, token_start(bytes, (k - 1) as nat)) + 1
    }
}

/// Whether the image has a token `k`, which it has where `k` whitespace
/// bytes come before it.
pub open spec fn has_token(bytes: Seq<u8>, k: nat) -> bool {
    token_start(bytes, k) <= bytes.len()
}

/// Token `k`, without the whitespace byte that ends it.
pub open spec fn token(bytes: Seq<u8>, k: nat) -> Seq<u8> {
    bytes.subrange(token_start(bytes, k), token_end(bytes, token_start(bytes, k)))
}

/// The pixels: every byte after the one whitespace byte that ends the
/// fourth token, as it stands. Bytes that look like whitespace are pixels
/// like any other.
pub open spec fn raster(bytes: Seq<u8>) -> Seq<u8> {
    if has_token(bytes, 4) {
        bytes.skip(token_start(bytes, 4))
    } else {
        Seq::empty()
    }
}

/// The ten decimal digits.
pub open spec fn is_digit(b: u8) -> bool {
    0x30 <= b <= 0x39
}

/// The number that a run of decimal digits writes.
pub open spec fn decimal_value(digits: Seq<u8>) -> nat
    decreases digits.len(),
{
    if digits.len() == 0 {
        0
    } else {
        10 * decimal_value(digits.drop_last()) + (digits.last() - 0x30) as nat
    }
}

/// Whether `text` holds decimal digits and nothing else.
pub open spec fn all_digits(text: Seq<u8>) -> bool {
    forall|i: int| 0 <= i < text.len() ==> is_digit(#[trigger] text[i])
}

/// `text` without the plus sign that may lead it.
pub open spec fn unsigned(text: Seq<u8>) -> Seq<u8> {
    if text.len() > 0 && text[0] == 0x2b {
        text.skip(1)
    } else {
        text
    }
}

/// The number that `text` writes, where it is one up to `max`: an
/// optional plus sign, then at least one decimal digit and nothing else.
pub open spec fn number(text: Seq<u8>, max: nat) -> Option<nat> {
    let digits = unsigned(text);
    if digits.len() > 0 && all_digits(digits) && decimal_value(digits) <= max {
        Some(decimal_value(digits))
    } else {
        None
    }
}

/// The cells that a raster gives, one for each pixel in its place: a live
/// cell where the pixel is the brightest grey, a dead one elsewhere.
pub open spec fn cells_of(raster: Seq<u8>, grey: u8) -> Seq<bool> {
    raster.map_values(|b: u8| b == grey)
}

/// What an image decodes to.
pub open spec fn decoded(bytes: Seq<u8>) -> Result<Grid, LoadError> {
    if (has_token(bytes, 0) && !vstd::utf8::valid_utf8(token(bytes, 0))) || (has_token(bytes, 1)
        && !vstd::utf8::valid_utf8(token(bytes, 1))) || (has_token(bytes, 2)
        && !vstd::utf8::valid_utf8(token(bytes, 2))) || (has_token(bytes, 3)
        && !vstd::utf8::valid_utf8(token(bytes, 3))) {
        Err(LoadError::Encoding)
    } else if !has_token(bytes, 3) {
        Err(LoadError::Sections)
    } else if token(bytes, 0) != seq![0x50u8, 0x35u8] {
        Err(LoadError::Magic)
    } else {
        match (number(token(bytes, 1), u32::MAX as nat), number(token(bytes, 3), u16::MAX as nat)) {
            (Some(width), Some(grey)) => {
                let cells = cells_of(raster(bytes), grey as u8);
                if grey >= 256 {
                    Err(LoadError::GreyRange)
                } else if width == 0 || cells.len() % width != 0 || cells.len() > u32::MAX {
                    Err(LoadError::Shape)
                } else {
                    Ok(Grid { width, cells })
                }
            },
            _ => Err(LoadError::Number),
        }
    }
}

/// `std::str::from_utf8`: whether `bytes` are well-formed UTF-8, which is
/// when that function returns a string.
#[verifier::external_body]
fn is_utf8(bytes: &[u8]) -> (ok: bool)
    ensures
        ok == vstd::utf8::valid_utf8(bytes@),
{
    std::str::from_utf8(bytes).is_ok()
}

/// The end of the token that starts at `from`.
fn scan_token(bytes: &[u8], from: usize) -> (end: usize)
    requires
        from <= bytes@.len(),
    ensures
        end == token_end(bytes@, from as int),
        from <= end <= bytes@.len(),
{
    let mut end = from;
    while end < bytes.len() && !(bytes[end] == 0x20 || bytes[end] == 0x0a || bytes[end] == 0x0d
        || bytes[end] == 0x09)
        invariant
            from <= end <= bytes@.len(),
            token_end(bytes@, from as int) == token_end(bytes@, end as int),
        decreases bytes@.len() - end,
    {
        end = end + 1;
    }
    end
}

/// A longer run of digits writes no smaller a number.
pub proof fn lemma_decimal_grows(digits: Seq<u8>, i: int)
    requires
        0 <= i <= digits.len(),
    ensures
        decimal_value(digits.take(i)) <= decimal_value(digits),
    decreases digits.len() - i,
{
    if i < digits.len() {
        assert(digits.take(i + 1).drop_last() =~= digits.take(i));
        lemma_decimal_grows(digits, i + 1);
    } else {
        assert(digits.take(i) =~= digits);
    }
}

/// Reads the number that the bytes from `from` up to `to` write.
fn parse_number(bytes: &[u8], from: usize, to: usize, max: u64) -> (parsed: Option<u64>)
    requires
        from <= to <= bytes@.len(),
        max <= u32::MAX,
    ensures
        match parsed {
            Some(v) => number(bytes@.subrange(from as int, to as int), max as nat) == Some(
                v as nat,
            ),
            None => number(bytes@.subrange(from as int, to as int), max as nat).is_none(),
        },
{
    let ghost text = bytes@.subrange(from as int, to as int);
    let first = if from < to && bytes[from] == 0x2b {
        from + 1
    } else {
        from
    };
    let ghost digits = bytes@.subrange(first as int, to as int);
    assert(digits =~= unsigned(text));
    if first == to {
        return None;
    }
    let mut value: u64 = 0;
    let mut i = first;
    while i < to
        invariant
            first <= i <= to <= bytes@.len(),
            first < to,
            from <= first,
            text == bytes@.subrange(from as int, to as int),
            digits == bytes@.subrange(first as int, to as int),
            digits == unsigned(text),
            forall|j: int| 0 <= j < i - first ==> is_digit(#[trigger] digits[j]),
            value == decimal_value(digits.take(i - first)),
            value <= max <= u32::MAX,
        decreases to - i,
    {
        let b = bytes[i];
        if b < 0x30 || b > 0x39 {
            assert(!is_digit(digits[i - first]));
            return None;
        }
        proof {
            assert(digits.take(i - first + 1).drop_last() =~= digits.take(i - first));
            assert(digits.take(i - first + 1).last() == b);
        }
        let next = 10 * value + (b - 0x30) as u64;
        if next > max {
            proof {
                lemma_decimal_grows(digits, i - first + 1);
            }
            return None;
        }
        value = next;
        i = i + 1;
    }
    assert(digits.take(i - first) =~= digits);
    Some(value)
}

/// The cells that the bytes from `from` on give.
fn read_cells(bytes: &[u8], from: usize, grey: u8) -> (cells: Vec<bool>)
    requires
        from <= bytes@.len(),
    ensures
        cells@ == cells_of(bytes@.skip(from as int), grey),
{
    let ghost want = cells_of(bytes@.skip(from as int), grey);
    let mut cells: Vec<bool> = Vec::with_capacity(bytes.len() - from);
    let mut i = from;
    while i < bytes.len()
        invariant
            from <= i <= bytes@.len(),
            want == cells_of(bytes@.skip(from as int), grey),
            cells@ == want.take(i - from),
        decreases bytes@.len() - i,
    {
        cells.push(bytes[i] == grey);
        i = i + 1;
        assert(cells@ =~= want.take(i - from));
    }
    assert(cells@ =~= want);
    cells
}

/// Decodes an image into the board it seeds.
pub fn read_pgm(bytes: &[u8]) -> (loaded: Result<Board, LoadError>)
    ensures
        match loaded {
            Ok(board) => board.wf() && decoded(bytes@) == Ok::<Grid, LoadError>(board@),
            Err(e) => decoded(bytes@) == Err::<Grid, LoadError>(e),
        },
{
    let n = bytes.len();
    proof {
        reveal_with_fuel(token_start, 6);
    }
    let e0 = scan_token(bytes, 0);
    if !is_utf8(slice_subrange(bytes, 0, e0)) {
        return Err(LoadError::Encoding);
    }
    if e0 == n {
        return Err(LoadError::Sections);
    }
    let e1 = scan_token(bytes, e0 + 1);
    if !is_utf8(slice_subrange(bytes, e0 + 1, e1)) {
        return Err(LoadError::Encoding);
    }
    if e1 == n {
        return Err(LoadError::Sections);
    }
    let e2 = scan_token(bytes, e1 + 1);
    if !is_utf8(slice_subrange(bytes, e1 + 1, e2)) {
        return Err(LoadError::Encoding);
    }
    if e2 == n {
        return Err(LoadError::Sections);
    }
    let e3 = scan_token(bytes, e2 + 1);
    if !is_utf8(slice_subrange(bytes, e2 + 1, e3)) {
        return Err(LoadError::Encoding);
    }
    if !(e0 == 2 && bytes[0] == 0x50 && bytes[1] == 0x35) {
        proof {
            if e0 == 2 {
                assert(token(bytes@, 0)[0] == bytes@[0]);
                assert(token(bytes@, 0)[1] == bytes@[1]);
            }
        }
        return Err(LoadError::Magic);
    }
    assert(token(bytes@, 0) =~= seq![0x50u8, 0x35u8]);
    let width = match parse_number(bytes, e0 + 1, e1, 0xffff_ffff) {
        Some(v) => v,
        None => {
            return Err(LoadError::Number);
        },
    };
    let grey = match parse_number(bytes, e2 + 1, e3, 0xffff) {
        Some(v) => v,
        None => {
            return Err(LoadError::Number);
        },
    };
    if grey >= 256 {
        return Err(LoadError::GreyRange);
    }
    let from = if e3 < n {
        e3 + 1
    } else {
        n
    };
    let cells = read_cells(bytes, from, grey as u8);
    assert(cells@ =~= cells_of(raster(bytes@), grey as u8)) by {
        if e3 == n {
            assert(bytes@.skip(n as int) =~= Seq::<u8>::empty());
        }
    }
    if width == 0 || cells.len() as u64 % width != 0 || cells.len() as u64 > 0xffff_ffff {
        return Err(LoadError::Shape);
    }
    let board = Board::new(width as u32, cells);
    assert(board@ =~= (Grid { width: width as nat, cells: cells@ }));
    Ok(board)
}

} // verus!
