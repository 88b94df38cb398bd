//! The stored records and the computations around the screenshot database.

use vstd::prelude::*;
use crate::text::{chars_of, flat_map_chars, lemma_flat_map_first, lemma_flat_map_step, push_char};

verus! {

/// One stored screenshot. Listings leave out the image (`png_bytes` is `None`).
pub struct Screenshot {
    pub id: i64,
    /// Capture time in RFC 3339 form, UTC.
    pub timestamp: String,
    pub width: u32,
    pub height: u32,
    pub ocr_text: Option<String>,
    pub png_bytes: Option<Vec<u8>>,
}

/// Summary of the archive.
pub struct Stats {
    pub total_count: i64,
    /// Size of all compressed images together, in bytes.
    pub total_size_bytes: i64,
    pub first_screenshot: Option<String>,
    pub last_screenshot: Option<String>,
}


/// Errors of the storage computations.
#[derive(Debug)]
pub enum StorageError {
    /// The stored image is not zstd data that decodes.
    Decompression,
}

#[verifier::external_type_specification]
#[verifier::external_body]
pub struct ExIoError(std::io::Error);

/// Level at which images are compressed.
pub const COMPRESSION_LEVEL: i32 = 3;

/// What `zstd::stream::encode_all` writes for `data` at `level`: one zstd
/// frame, fixed by the data and the level for the zstd build in use.
pub uninterp spec fn zstd_encode_all(data: Seq<u8>, level: i32) -> Seq<u8>;

/// What `zstd::stream::decode_all` reads from `frames`: the decompressed
/// bytes, or `None` when the input is not zstd data that decodes.
pub uninterp spec fn zstd_decode_all(frames: Seq<u8>) -> Option<Seq<u8>>;

/// Calls `zstd::stream::encode_all` on `data` at `level` (zstd clamps a level
/// out of its range).
/// Trusted: it succeeds (compressing into a `Vec`; running out of memory,
/// which aborts, is left aside), the result is `zstd_encode_all(data, level)`,
/// and (zstd being lossless) decoding it gives `data` back.
#[verifier::external_body]
fn zstd_encode(data: &[u8], level: i32) -> (r: Result<Vec<u8>, std::io::Error>)
    ensures
        r is Ok,
        r matches Ok(v) ==> v@ == zstd_encode_all(data@, level) && zstd_decode_all(v@) == Some(
            data@,
        ),
{
    zstd::stream::encode_all(data, level)
}

/// Calls `zstd::stream::decode_all` on `frames`.
/// Trusted: it succeeds exactly when the input decodes, with the bytes that
/// `zstd_decode_all` names.
#[verifier::external_body]
fn zstd_decode(frames: &[u8]) -> (r: Result<Vec<u8>, std::io::Error>)
    ensures
        r is Ok <==> zstd_decode_all(frames@) is Some,
        r matches Ok(v) ==> zstd_decode_all(frames@) == Some(v@),
{
    zstd::stream::decode_all(frames)
}

/// `stored` is what `compress` stores for `image`: its zstd frame at level 3,
/// which decodes to `image`.
pub open spec fn is_stored_form(image: Seq<u8>, stored: Seq<u8>) -> bool {
    &&& stored == zstd_encode_all(image, COMPRESSION_LEVEL)
    &&& zstd_decode_all(stored) == Some(image)
}

/// What `decompress` returns for stored bytes.
pub open spec fn decompressed(stored: Seq<u8>) -> Option<Seq<u8>> {
    zstd_decode_all(stored)
}

/// Compresses an image for storage (zstd, level 3). It cannot fail.
pub fn compress(data: &[u8]) -> (stored: Vec<u8>)
    ensures
        is_stored_form(data@, stored@),
{
    match zstd_encode(data, COMPRESSION_LEVEL) {
        Ok(v) => v,
        Err(_) => {
            proof {
                assert(false);
            }
            Vec::new()
        },
    }
}

/// Restores a stored image; fails exactly when the bytes are not zstd data.
pub fn decompress(data: &[u8]) -> (r: Result<Vec<u8>, StorageError>)
    ensures
        match r {
            Ok(v) => decompressed(data@) == Some(v@),
            Err(e) => decompressed(data@) is None && e == StorageError::Decompression,
        },
{
    match zstd_decode(data) {
        Ok(v) => Ok(v),
        Err(_) => Err(StorageError::Decompression),
    }
}

/// Law: an image reads back as it was saved. For whatever `compress` stored
/// for `image`, `decompress` succeeds and yields `image` itself.
pub proof fn lemma_image_reads_back(image: Seq<u8>, stored: Seq<u8>)
    requires
        is_stored_form(image, stored),
    ensures
        decompressed(stored) == Some(image),
{
}

/// The escape character of the `LIKE` patterns (the query must name it with
/// `ESCAPE '\'`).
pub const LIKE_ESCAPE: char = '\\';

/// A character of a literal `LIKE` operand: `%`, `_` and the escape
/// character are preceded by the escape character.
pub open spec fn like_escape_fn() -> spec_fn(char) -> Seq<char> {
    |c: char| if c == '%' || c == '_' || c == LIKE_ESCAPE { seq![LIKE_ESCAPE, c] } else { seq![c] }
}

/// `s` as a literal inside a `LIKE` pattern.
pub open spec fn like_literal(s: Seq<char>) -> Seq<char> {
    flat_map_chars(s, like_escape_fn())
}

/// The `LIKE` pattern that selects timestamps starting with `date`.
pub open spec fn like_prefix(date: Seq<char>) -> Seq<char> {
    like_literal(date) + seq!['%']
}

/// The `LIKE` pattern that selects texts containing `query`.
pub open spec fn like_contains(query: Seq<char>) -> Seq<char> {
    seq!['%'] + like_literal(query) + seq!['%']
}

/// Appends `s` escaped as a `LIKE` literal.
fn push_like_literal(out: &mut String, s: &str)
    ensures
        final(out)@ == old(out)@ + like_literal(s@),
{
    let v = chars_of(s);
    let ghost start = out@;
    let ghost f = like_escape_fn();
    for i in 0..v.len()
        invariant
            v@ == s@,
            f == like_escape_fn(),
            out@ == start + flat_map_chars(v@.take(i as int), f),
    {
        proof { lemma_flat_map_step(v@, i as int, f); }
        let c = v[i];
        if c == '%' || c == '_' || c == LIKE_ESCAPE {
            push_char(out, LIKE_ESCAPE);
        }
        push_char(out, c);
        assert(out@ =~= start + flat_map_chars(v@.take(i + 1), f));
    }
    assert(v@.take(v@.len() as int) =~= v@);
}

/// Pattern for listing the screenshots of one date: the date taken
/// literally, then `%`.
pub fn date_pattern(date: &str) -> (r: String)
    ensures
        r@ == like_prefix(date@),
{
    let mut r = String::new();
    push_like_literal(&mut r, date);
    push_char(&mut r, '%');
    r
}

/// Pattern for the full-text search: `%`, the query taken literally, `%`.
pub fn search_pattern(query: &str) -> (r: String)
    ensures
        r@ == like_contains(query@),
{
    let mut r = String::new();
    push_char(&mut r, '%');
    push_like_literal(&mut r, query);
    push_char(&mut r, '%');
    assert(r@ =~= like_contains(query@));
    r
}

/// Law: an escaped operand holds no unescaped wildcard. Every `%` or `_` of
/// `like_literal(s)` directly follows an escape character that is itself not
/// escaped, so `LIKE` reads the operand as the literal text `s`.
pub proof fn lemma_like_literal_unescapes(s: Seq<char>)
    ensures
        like_unescaped(like_literal(s)) == Some(s),
    decreases s.len(),
{
    if s.len() > 0 {
        lemma_flat_map_first(s, like_escape_fn());
        lemma_like_literal_unescapes(s.drop_first());
        let c = s[0];
        let t = like_literal(s);
        let rest = like_literal(s.drop_first());
        if c == '%' || c == '_' || c == LIKE_ESCAPE {
            assert(t == seq![LIKE_ESCAPE, c] + rest);
            assert(t.skip(2) =~= rest);
        } else {
            assert(t == seq![c] + rest);
            assert(t.skip(1) =~= rest);
        }
        assert(seq![c] + s.drop_first() =~= s);
    } else {
        assert(like_literal(s) =~= Seq::<char>::empty());
    }
}

/// How `LIKE ... ESCAPE '\'` reads an operand as literal text: an escape
/// character takes the next character literally; `None` when the operand has
/// an unescaped `%` or `_` (a wildcard) or ends in a lone escape character.
pub open spec fn like_unescaped(t: Seq<char>) -> Option<Seq<char>>
    decreases t.len(),
{
    if t.len() == 0 {
        Some(seq![])
    } else if t[0] == LIKE_ESCAPE {
        if t.len() < 2 {
            None
        } else {
            match like_unescaped(t.skip(2)) {
                Some(r) => Some(seq![t[1]] + r),
                None => None,
            }
        }
    } else if t[0] == '%' || t[0] == '_' {
        None
    } else {
        match like_unescaped(t.skip(1)) {
            Some(r) => Some(seq![t[0]] + r),
            None => None,
        }
    }
}

/// What `DateTime::<Utc>::to_rfc3339` writes for the instant `secs` seconds and
/// `nanos` nanoseconds after the Unix epoch, or `None` when
/// `DateTime::from_timestamp` rejects the instant as out of range.
pub uninterp spec fn rfc3339_utc(secs: i64, nanos: u32) -> Option<Seq<char>>;

/// Formats a UTC instant with chrono: `DateTime::from_timestamp`, then
/// `to_rfc3339`. Trusted: the result is `rfc3339_utc(secs, nanos)`.
#[verifier::external_body]
fn format_rfc3339_utc(secs: i64, nanos: u32) -> (r: Option<String>)
    ensures
        match r {
            Some(t) => rfc3339_utc(secs, nanos) == Some(t@),
            None => rfc3339_utc(secs, nanos) is None,
        },
{
    match chrono::DateTime::from_timestamp(secs, nanos) {
        Some(t) => Some(t.to_rfc3339()),
        None => None,
    }
}

/// The timestamp stored with a screenshot taken at the UTC instant
/// `now_secs`/`now_nanos`: its RFC 3339 form, `None` for an instant that chrono
/// cannot represent.
pub fn capture_timestamp(now_secs: i64, now_nanos: u32) -> (r: Option<String>)
    ensures
        match r {
            Some(t) => rfc3339_utc(now_secs, now_nanos) == Some(t@),
            None => rfc3339_utc(now_secs, now_nanos) is None,
        },
{
    format_rfc3339_utc(now_secs, now_nanos)
}

/// Largest number of days that chrono's `TimeDelta::days` accepts.
pub const MAX_AGE_DAYS: u64 = 106751991167;

/// Seconds in a day.
pub const SECS_PER_DAY: i64 = 86400;

/// The instant `max_age_days` days before `now`, in seconds.
pub open spec fn cutoff_secs(now_secs: i64, max_age_days: u64) -> int {
    now_secs - max_age_days * SECS_PER_DAY
}

/// Whether an age limit reaches back past every instant that a timestamp can
/// name: more days than a time span can hold, or a cutoff before the first
/// instant that can be written.
pub open spec fn reaches_past_all_time(now_secs: i64, now_nanos: u32, max_age_days: u64) -> bool {
    ||| max_age_days > MAX_AGE_DAYS
    ||| cutoff_secs(now_secs, max_age_days) < i64::MIN
    ||| rfc3339_utc(cutoff_secs(now_secs, max_age_days) as i64, now_nanos) is None
}

/// The timestamp before which screenshots count as old: `max_age_days` whole
/// days before the instant `now_secs`/`now_nanos`, in RFC 3339 form. `None`
/// means that nothing is that old, so a cleanup deletes nothing.
pub fn cleanup_cutoff(now_secs: i64, now_nanos: u32, max_age_days: u64) -> (r: Option<String>)
    requires
        now_nanos < 1_000_000_000,
    ensures
        match r {
            Some(t) => !reaches_past_all_time(now_secs, now_nanos, max_age_days) && rfc3339_utc(
                cutoff_secs(now_secs, max_age_days) as i64,
                now_nanos,
            ) == Some(t@),
            None => reaches_past_all_time(now_secs, now_nanos, max_age_days),
        },
{
    if max_age_days > MAX_AGE_DAYS {
        return None;
    }
    assert(0 <= max_age_days * 86400 <= 106751991167 * 86400) by (nonlinear_arith)
        requires
            max_age_days <= 106751991167,
    ;
    let span: i128 = (max_age_days as i128) * (SECS_PER_DAY as i128);
    let cut: i128 = (now_secs as i128) - span;
    if cut < (i64::MIN as i128) {
        return None;
    }
    format_rfc3339_utc(cut as i64, now_nanos)
}

} // verus!
