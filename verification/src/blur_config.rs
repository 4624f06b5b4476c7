//! The blur filter's configuration: two numbers found in free-form text.

use vstd::prelude::*;
use vstd::string::StringSliceAdditionalSpecFns;
use vstd::utf8::encode_utf8;

verus! {

/// Radius used where the text gives none.
pub const DEFAULT_RADIUS: u32 = 3;

/// Number of passes used where the text gives none.
pub const DEFAULT_ITERATIONS: u32 = 1;

/// What the blur filter is asked to do.
#[derive(Clone, Copy, Debug, PartialEq, Eq, Structural)]
pub struct BlurParams {
    /// How far, in pixels, the window reaches from its centre in each direction.
    pub radius: u32,
    /// How many passes are made over the image.
    pub iterations: u32,
}

/// The lowercase form of a text as std defines it, after Unicode's tables.
pub uninterp spec fn lowercase_of(text: Seq<char>) -> Seq<char>;

/// `str::to_lowercase` returns the lowercase equivalent of the string as a new
/// `String`: a function of the text alone, named here and not spelled out.
pub assume_specification[ str::to_lowercase ](s: &str) -> (lower: String)
    ensures
        lower@ == lowercase_of(s@),
;

/// `key` stands in `text` at position `pos`.
pub open spec fn occurs_at(text: Seq<u8>, key: Seq<u8>, pos: int) -> bool {
    &&& 0 <= pos
    &&& pos + key.len() <= text.len()
    &&& text.subrange(pos, pos + key.len()) == key
}

/// `pos` is the first position at which `key` stands in `text`.
pub open spec fn is_first_occurrence(text: Seq<u8>, key: Seq<u8>, pos: int) -> bool {
    &&& occurs_at(text, key, pos)
    &&& forall|q: int| 0 <= q < pos ==> !occurs_at(text, key, q)
}

/// An ASCII decimal digit.
pub open spec fn is_digit(b: u8) -> bool {
    0x30 <= b <= 0x39
}

/// First position at or after `from` that holds a digit; the text's length if none does.
pub open spec fn skip_non_digits(text: Seq<u8>, from: int) -> int
    decreases text.len() - from,
{
    if from < 0 || from >= text.len() || is_digit(text[from]) {
        from
    } else {
        skip_non_digits(text, from + 1)
    }
}

/// First position at or after `from` that holds no digit; the text's length if all do.
pub open spec fn skip_digits(text: Seq<u8>, from: int) -> int
    decreases text.len() - from,
{
    if from < 0 || from >= text.len() || !is_digit(text[from]) {
        from
    } else {
        skip_digits(text, from + 1)
    }
}

/// The number that a run of decimal digits writes.
pub open spec fn decimal_value(digits: Seq<u8>) -> nat
    decreases digits.len(),
{
    if digits.len() == 0 {
        0
    } else {
        (decimal_value(digits.drop_last()) * 10 + (digits.last() - 0x30)) as nat
    }
}

/// The first run of digits at or after `from`, read as a number: `None` where
/// no digit follows or the number does not fit in `u32`.
pub open spec fn number_after(text: Seq<u8>, from: int) -> Option<u32> {
    let start = skip_non_digits(text, from);
    let end = skip_digits(text, start);
    let value = decimal_value(text.subrange(start, end));
    if start < end && value <= u32::MAX {
        Some(value as u32)
    } else {
        None
    }
}

/// The number that follows the first occurrence of `key` in `text`, if there is one.
pub open spec fn scan_u32(text: Seq<u8>, key: Seq<u8>) -> Option<u32> {
    if exists|p: int| occurs_at(text, key, p) {
        let pos = choose|p: int| is_first_occurrence(text, key, p);
        number_after(text, pos + key.len())
    } else {
        None
    }
}

/// The value that `key` has in `text`, letter case aside.
pub open spec fn lookup_u32(text: Seq<char>, key: Seq<char>) -> Option<u32> {
    scan_u32(encode_utf8(lowercase_of(text)), encode_utf8(lowercase_of(key)))
}

/// The parameters that a configuration text selects.
pub open spec fn params_of(text: Seq<char>) -> BlurParams {
    BlurParams {
        radius: match lookup_u32(text, "radius"@) {
            Some(r) => r,
            None => DEFAULT_RADIUS,
        },
        iterations: match lookup_u32(text, "iterations"@) {
            Some(n) => n,
            None => DEFAULT_ITERATIONS,
        },
    }
}

/// Whether `key` stands in `text` at `pos`.
fn matches_at(text: &[u8], key: &[u8], pos: usize) -> (found: bool)
    requires
        pos + key@.len() <= text@.len(),
    ensures
        found == occurs_at(text@, key@, pos as int),
{
    let len = text.len();
    let mut k: usize = 0;
    while k < key.len()
        invariant
            k <= key@.len(),
            pos + key@.len() <= text@.len(),
            len == text@.len(),
            forall|j: int| 0 <= j < k ==> text@[pos + j] == key@[j],
        decreases key@.len() - k,
    {
        if text[pos + k] != key[k] {
            assert(text@.subrange(pos as int, pos + key@.len())[k as int] != key@[k as int]);
            return false;
        }
        k = k + 1;
    }
    assert(text@.subrange(pos as int, pos + key@.len()) =~= key@);
    true
}

/// The first position at which `key` stands in `text`.
fn find(text: &[u8], key: &[u8]) -> (found: Option<usize>)
    ensures
        match found {
            Some(pos) => is_first_occurrence(text@, key@, pos as int),
            None => forall|p: int| !occurs_at(text@, key@, p),
        },
{
    if key.len() > text.len() {
        return None;
    }
    let last = text.len() - key.len();
    let mut pos: usize = 0;
    while pos < last
        invariant
            pos <= last,
            last == text@.len() - key@.len(),
            forall|q: int| 0 <= q < pos ==> !occurs_at(text@, key@, q),
        decreases last - pos,
    {
        if matches_at(text, key, pos) {
            return Some(pos);
        }
        pos = pos + 1;
    }
    if matches_at(text, key, last) {
        Some(last)
    } else {
        None
    }
}

/// Whether a byte is an ASCII decimal digit.
fn is_decimal_digit(b: u8) -> (digit: bool)
    ensures
        digit == is_digit(b),
{
    0x30 <= b && b <= 0x39
}

/// Reads the first run of digits at or after `from` as a number.
fn read_number(text: &[u8], from: usize) -> (value: Option<u32>)
    requires
        from <= text@.len(),
    ensures
        value == number_after(text@, from as int),
{
    let mut start = from;
    while start < text.len() && !is_decimal_digit(text[start])
        invariant
            from <= start <= text@.len(),
            skip_non_digits(text@, from as int) == skip_non_digits(text@, start as int),
        decreases text@.len() - start,
    {
        start = start + 1;
    }
    let mut end = start;
    let mut acc: u64 = 0;
    let mut overflow = false;
    while end < text.len() && is_decimal_digit(text[end])
        invariant
            start <= end <= text@.len(),
            skip_digits(text@, start as int) == skip_digits(text@, end as int),
            forall|i: int| start <= i < end ==> is_digit(#[trigger] text@[i]),
            !overflow ==> acc == decimal_value(text@.subrange(start as int, end as int)),
            !overflow ==> acc <= u32::MAX,
            overflow ==> decimal_value(text@.subrange(start as int, end as int)) > u32::MAX,
        decreases text@.len() - end,
    {
        let digit = (text[end] - 0x30) as u64;
        proof {
            let run = text@.subrange(start as int, end + 1);
            assert(run.drop_last() =~= text@.subrange(start as int, end as int));
            assert(run.last() == text@[end as int]);
        }
        if !overflow {
            acc = acc * 10 + digit;
            if acc > u32::MAX as u64 {
                overflow = true;
            }
        }
        end = end + 1;
    }
    if start == end || overflow {
        None
    } else {
        Some(acc as u32)
    }
}

/// Finds the number that follows the first occurrence of `key` in `text`.
///
/// After the key, everything up to the first decimal digit is passed over, and
/// the digits that follow are read as one number. The result is `None` where
/// the key does not occur, where no digit follows it, and where the number
/// does not fit in `u32`.
pub fn find_u32(text: &[u8], key: &[u8]) -> (value: Option<u32>)
    ensures
        value == scan_u32(text@, key@),
{
    let len = text.len();
    match find(text, key) {
        Some(pos) => {
            proof {
                let chosen = choose|p: int| is_first_occurrence(text@, key@, p);
                assert(is_first_occurrence(text@, key@, pos as int));
                assert(chosen == pos);
            }
            read_number(text, pos + key.len())
        },
        None => None,
    }
}

/// Looks `key` up in `s` without regard to letter case, and reads the number
/// that follows it.
pub fn get_u32(s: &str, key: &str) -> (value: Option<u32>)
    ensures
        value == lookup_u32(s@, key@),
{
    let lower = s.to_lowercase();
    let key = key.to_lowercase();
    find_u32(lower.as_str().as_bytes(), key.as_str().as_bytes())
}

/// Reads the blur parameters from a configuration text. A parameter that the
/// text does not give, or gives in a form that cannot be read, has its default.
pub fn parse_params(text: &str) -> (params: BlurParams)
    ensures
        params == params_of(text@),
{
    let radius = match get_u32(text, "radius") {
        Some(r) => r,
        None => DEFAULT_RADIUS,
    };
    let iterations = match get_u32(text, "iterations") {
        Some(n) => n,
        None => DEFAULT_ITERATIONS,
    };
    BlurParams { radius, iterations }
}

} // verus!
