//! Small computations of the command-line front end.

use vstd::prelude::*;
use vstd::string::StringExecFns;
use crate::text::{
    chars_of, parse_u32_range, parse_u32_spec, push_zero_padded, take_chars,
    trim_bounds, trimmed, zero_padded,
};

verus! {

/// The process id in the content of a pid file: the trimmed text as an
/// unsigned 32-bit number.
pub fn parse_pid(content: &str) -> (r: Option<u32>)
    ensures
        r == parse_u32_spec(trimmed(content@)),
{
    let v = chars_of(content);
    let (lo, hi) = trim_bounds(&v);
    parse_u32_range(&v, lo, hi)
}

/// The start of an optional OCR text as a listing shows it: at most `max`
/// characters, empty when there is no text.
pub fn preview(text: Option<&str>, max: usize) -> (r: String)
    ensures
        ({
            let t = match text {
                Some(s) => s@,
                None => Seq::<char>::empty(),
            };
            r@ == t.take(if max < t.len() { max as int } else { t.len() as int })
        }),
{
    match text {
        Some(s) => take_chars(s, max),
        None => String::new(),
    }
}

/// The default file name when one screenshot is saved: `recall_<id>.png`,
/// the id zero-padded to four digits.
pub fn show_filename(id: i64) -> (r: String)
    ensures
        r@ == "recall_"@ + zero_padded(id as int, 4) + ".png"@,
{
    let mut r = String::from_str("recall_");
    push_zero_padded(&mut r, id, 4);
    r.append(".png");
    r
}

} // verus!
