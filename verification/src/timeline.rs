//! The exported timeline: HTML escaping, the page with one card per
//! screenshot, and the plan of an export.

use vstd::prelude::*;
use vstd::string::StringExecFns;
use crate::template::{
    ITEM_AFTER_ALT, ITEM_AFTER_DIMS, ITEM_AFTER_HREF, ITEM_AFTER_ID, ITEM_AFTER_SEARCH,
    ITEM_AFTER_SRC, ITEM_AFTER_TS, ITEM_BETWEEN_DIMS, ITEM_CLOSE, ITEM_OPEN, OCR_NONE,
    OCR_TEXT_CLOSE, OCR_TEXT_OPEN, PAGE_AFTER_HEADER_COUNT, PAGE_AFTER_TITLE_COUNT, PAGE_CLOSE,
    PAGE_OPEN,
};
use crate::storage::Screenshot;
use crate::text::{
    chars_lt, chars_of, decimal, flat_map_chars, lemma_decimal_digits,
    lemma_decimal_len_monotone, lemma_flat_map_append, lemma_flat_map_first, lemma_flat_map_step,
    lemma_str_lt_common_prefix, lemma_str_lt_extend, lemma_str_lt_irreflexive,
    lemma_str_lt_total, lemma_str_lt_transitive, lemma_zero_padded_order, prefix_chars, push_char, push_decimal, all_digits,
    digits_value, lemma_decimal_len_below, lemma_zero_padded_digits, lemma_str_lt_append_right,
    push_signed, push_zero_padded, replace_char, replaced, signed_decimal, signed_decimal_len,
    str_lt, trim_bounds, trimmed, zero_padded,
};

verus! {

// ---------------------------------------------------------------------------
// HTML escaping
// ---------------------------------------------------------------------------

/// The HTML text for one character: the five markup characters become entities.
pub open spec fn html_escape_char(c: char) -> Seq<char> {
    if c == '&' {
        "&amp;"@
    } else if c == '<' {
        "&lt;"@
    } else if c == '>' {
        "&gt;"@
    } else if c == '"' {
        "&quot;"@
    } else if c == '\'' {
        "&#39;"@
    } else {
        seq![c]
    }
}

/// `html_escape_char` as a character map.
pub open spec fn html_escape_fn() -> spec_fn(char) -> Seq<char> {
    |c: char| html_escape_char(c)
}

/// `s` escaped for HTML text and attribute values.
pub open spec fn html_escaped(s: Seq<char>) -> Seq<char> {
    flat_map_chars(s, html_escape_fn())
}

/// Appends the HTML-escaped form of `v[lo..hi]` to `out`.
fn push_escaped(out: &mut String, v: &Vec<char>, lo: usize, hi: usize)
    requires
        lo <= hi <= v.len(),
    ensures
        final(out)@ == old(out)@ + html_escaped(v@.subrange(lo as int, hi as int)),
{
    let ghost start = out@;
    let ghost w = v@.subrange(lo as int, hi as int);
    let mut i = lo;
    assert(w.take(0) =~= Seq::<char>::empty());
    while i < hi
        invariant
            lo <= i <= hi <= v.len(),
            w == v@.subrange(lo as int, hi as int),
            out@ == start + html_escaped(w.take(i - lo)),
        decreases hi - i,
    {
        proof { lemma_flat_map_step(w, i - lo, html_escape_fn()); }
        let c = v[i];
        assert(w[i - lo] == c);
        if c == '&' {
            out.append("&amp;");
        } else if c == '<' {
            out.append("&lt;");
        } else if c == '>' {
            out.append("&gt;");
        } else if c == '"' {
            out.append("&quot;");
        } else if c == '\'' {
            out.append("&#39;");
        } else {
            push_char(out, c);
        }
        assert(out@ =~= start + html_escaped(w.take(i + 1 - lo)));
        i = i + 1;
    }
    assert(w.take(hi - lo) =~= w);
}

/// `s` escaped for HTML: `&`, `<`, `>`, `"` and `'` become entities.
pub fn escape_html(s: &str) -> (r: String)
    ensures
        r@ == html_escaped(s@),
{
    let v = chars_of(s);
    let mut out = String::new();
    push_escaped(&mut out, &v, 0, v.len());
    assert(v@.subrange(0, v@.len() as int) =~= v@);
    assert(out@ =~= html_escaped(s@));
    out
}

/// Reads HTML text back: the five entities that `html_escaped` writes become
/// their characters again; everything else is kept.
pub open spec fn html_unescaped(t: Seq<char>) -> Seq<char>
    decreases t.len(),
{
    if t.len() == 0 {
        seq![]
    } else if t.len() >= 5 && t.take(5) == "&amp;"@ {
        seq!['&'] + html_unescaped(t.skip(5))
    } else if t.len() >= 4 && t.take(4) == "&lt;"@ {
        seq!['<'] + html_unescaped(t.skip(4))
    } else if t.len() >= 4 && t.take(4) == "&gt;"@ {
        seq!['>'] + html_unescaped(t.skip(4))
    } else if t.len() >= 6 && t.take(6) == "&quot;"@ {
        seq!['"'] + html_unescaped(t.skip(6))
    } else if t.len() >= 5 && t.take(5) == "&#39;"@ {
        seq!['\''] + html_unescaped(t.skip(5))
    } else {
        seq![t[0]] + html_unescaped(t.skip(1))
    }
}

/// Law: escaping loses nothing; reading the escaped text back gives `s`.
pub proof fn lemma_html_escape_roundtrip(s: Seq<char>)
    ensures
        html_unescaped(html_escaped(s)) == s,
    decreases s.len(),
{
    reveal_strlit("&amp;");
    reveal_strlit("&lt;");
    reveal_strlit("&gt;");
    reveal_strlit("&quot;");
    reveal_strlit("&#39;");
    if s.len() == 0 {
        assert(html_escaped(s) =~= Seq::<char>::empty());
    } else {
        let rest = s.drop_first();
        lemma_flat_map_first(s, html_escape_fn());
        lemma_html_escape_roundtrip(rest);
        let c = s[0];
        let e = html_escape_char(c);
        let t = e + html_escaped(rest);
        assert(html_escaped(s) == t);
        assert(t.skip(e.len() as int) =~= html_escaped(rest));
        assert(t.take(e.len() as int) =~= e);
        if c == '&' {
            assert(t.take(5) =~= "&amp;"@);
        } else if c == '<' {
            assert(t[1] == 'l');
        } else if c == '>' {
            assert(t[1] == 'g');
        } else if c == '"' {
            assert(t[1] == 'q');
            assert(t.take(6) =~= "&quot;"@);
        } else if c == '\'' {
            assert(t[1] == '#');
            assert(t.take(5) =~= "&#39;"@);
        } else {
            assert(t[0] == c);
        }
        assert(seq![c] + rest =~= s);
    }
}

/// Law: escaped text holds no `<`, `>`, `"` or `'`, so it can stand in HTML
/// text and in quoted attribute values.
pub proof fn lemma_html_escaped_is_inert(s: Seq<char>)
    ensures
        forall|k: int| 0 <= k < html_escaped(s).len() ==> {
            let c = #[trigger] html_escaped(s)[k];
            c != '<' && c != '>' && c != '"' && c != '\''
        },
    decreases s.len(),
{
    reveal_strlit("&amp;");
    reveal_strlit("&lt;");
    reveal_strlit("&gt;");
    reveal_strlit("&quot;");
    reveal_strlit("&#39;");
    if s.len() > 0 {
        lemma_html_escaped_is_inert(s.drop_last());
        let p = html_escaped(s.drop_last());
        let e = html_escape_char(s.last());
        assert(html_escaped(s) == p + e);
        assert forall|k: int| 0 <= k < (p + e).len() implies {
            let c = #[trigger] (p + e)[k];
            c != '<' && c != '>' && c != '"' && c != '\''
        } by {
            if k >= p.len() {
                let j = k - p.len();
                assert((p + e)[k] == e[j]);
            } else {
                assert((p + e)[k] == p[k]);
            }
        }
    }
}


// ---------------------------------------------------------------------------
// The timeline page
// ---------------------------------------------------------------------------

/// One exported screenshot as the timeline shows it.
pub struct ExportedEntry {
    pub id: i64,
    pub timestamp: String,
    pub width: u32,
    pub height: u32,
    pub ocr_text: String,
    /// Name of the exported image file, relative to the page.
    pub filename: String,
}

/// The timestamp as shown on a card: `T` becomes a space and the offset sign
/// is set off by a space.
pub open spec fn timestamp_display(ts: Seq<char>) -> Seq<char> {
    replaced(replaced(ts, 'T', " "@), '+', " +"@)
}

/// The OCR block of a card: the trimmed, escaped text with an expand button,
/// or a note when the text is blank.
pub open spec fn ocr_display(ocr: Seq<char>) -> Seq<char> {
    if trimmed(ocr).len() == 0 {
        OCR_NONE@
    } else {
        OCR_TEXT_OPEN@ + html_escaped(trimmed(ocr)) + OCR_TEXT_CLOSE@
    }
}

/// The card of one entry. The full OCR text, escaped, is the item's search text.
pub open spec fn item_html(e: ExportedEntry) -> Seq<char> {
    ITEM_OPEN@ + html_escaped(e.ocr_text@) + ITEM_AFTER_SEARCH@ + signed_decimal(e.id as int)
        + ITEM_AFTER_ID@ + timestamp_display(e.timestamp@) + ITEM_AFTER_TS@ + decimal(
        e.width as nat,
    ) + ITEM_BETWEEN_DIMS@ + decimal(e.height as nat) + ITEM_AFTER_DIMS@ + html_escaped(
        e.filename@,
    ) + ITEM_AFTER_HREF@ + html_escaped(e.filename@) + ITEM_AFTER_SRC@ + signed_decimal(
        e.id as int,
    ) + ITEM_AFTER_ALT@ + ocr_display(e.ocr_text@) + ITEM_CLOSE@
}

/// The cards of all entries, in order.
pub open spec fn items_html(es: Seq<ExportedEntry>) -> Seq<char>
    decreases es.len(),
{
    if es.len() == 0 {
        seq![]
    } else {
        items_html(es.drop_last()) + item_html(es.last())
    }
}

/// The whole timeline page for `es`.
pub open spec fn timeline_html(es: Seq<ExportedEntry>) -> Seq<char> {
    PAGE_OPEN@ + decimal(es.len()) + PAGE_AFTER_TITLE_COUNT@ + decimal(es.len())
        + PAGE_AFTER_HEADER_COUNT@ + items_html(es) + PAGE_CLOSE@
}

fn push_ocr_display(out: &mut String, ocr: &str)
    ensures
        final(out)@ == old(out)@ + ocr_display(ocr@),
{
    let v = chars_of(ocr);
    let (lo, hi) = trim_bounds(&v);
    if lo == hi {
        out.append(OCR_NONE);
    } else {
        out.append(OCR_TEXT_OPEN);
        push_escaped(out, &v, lo, hi);
        out.append(OCR_TEXT_CLOSE);
    }
    assert(final(out)@ =~= old(out)@ + ocr_display(ocr@));
}

#[verifier::spinoff_prover]
#[verifier::rlimit(40)]
fn push_item(out: &mut String, e: &ExportedEntry)
    ensures
        final(out)@ == old(out)@ + item_html(*e),
{
    let ghost start = out@;
    out.append(ITEM_OPEN);
    let ocr = chars_of(e.ocr_text.as_str());
    push_escaped(out, &ocr, 0, ocr.len());
    assert(ocr@.subrange(0, ocr@.len() as int) =~= e.ocr_text@);
    out.append(ITEM_AFTER_SEARCH);
    push_signed(out, e.id);
    out.append(ITEM_AFTER_ID);
    let spaced = replace_char(e.timestamp.as_str(), 'T', " ");
    let shown = replace_char(spaced.as_str(), '+', " +");
    out.append(shown.as_str());
    out.append(ITEM_AFTER_TS);
    push_decimal(out, e.width as u64);
    out.append(ITEM_BETWEEN_DIMS);
    push_decimal(out, e.height as u64);
    out.append(ITEM_AFTER_DIMS);
    let file = chars_of(e.filename.as_str());
    assert(file@.subrange(0, file@.len() as int) =~= e.filename@);
    push_escaped(out, &file, 0, file.len());
    out.append(ITEM_AFTER_HREF);
    push_escaped(out, &file, 0, file.len());
    out.append(ITEM_AFTER_SRC);
    push_signed(out, e.id);
    out.append(ITEM_AFTER_ALT);
    push_ocr_display(out, e.ocr_text.as_str());
    out.append(ITEM_CLOSE);
    assert(out@ =~= start + item_html(*e));
}

/// Renders the timeline page: a count in the title and header, then one card
/// per entry in the given order, with a client-side search filter.
pub fn build_timeline_html(entries: &[ExportedEntry]) -> (html: String)
    ensures
        html@ == timeline_html(entries@),
{
    let count = entries.len();
    let mut items = String::new();
    for i in 0..count
        invariant
            count == entries@.len(),
            items@ == items_html(entries@.take(i as int)),
    {
        push_item(&mut items, &entries[i]);
        assert(entries@.take(i + 1).drop_last() =~= entries@.take(i as int));
    }
    assert(entries@.take(count as int) =~= entries@);
    let mut html = String::from_str(PAGE_OPEN);
    push_decimal(&mut html, count as u64);
    html.append(PAGE_AFTER_TITLE_COUNT);
    push_decimal(&mut html, count as u64);
    html.append(PAGE_AFTER_HEADER_COUNT);
    html.append(items.as_str());
    html.append(PAGE_CLOSE);
    assert(html@ =~= timeline_html(entries@));
    html
}


// ---------------------------------------------------------------------------
// Planning an export
// ---------------------------------------------------------------------------

/// The characters of an optional string.
pub open spec fn opt_chars(o: Option<&str>) -> Option<Seq<char>> {
    match o {
        Some(s) => Some(s@),
        None => None,
    }
}

/// The first `n` characters of `s` (all of `s` when it is shorter).
pub open spec fn prefix(s: Seq<char>, n: nat) -> Seq<char> {
    s.take(if n < s.len() { n as int } else { s.len() as int })
}

/// `ts` lies within the optional bounds, both inclusive. The lower bound is
/// compared with the whole timestamp; the upper bound with as many leading
/// characters of the timestamp as it has, so that `--to 2026-07-31` takes in
/// the whole of that day (and `--to 2026-07` the whole month).
pub open spec fn in_range(ts: Seq<char>, from: Option<Seq<char>>, to: Option<Seq<char>>) -> bool {
    &&& (from matches Some(f) ==> !str_lt(ts, f))
    &&& (to matches Some(t) ==> !str_lt(t, prefix(ts, t.len())))
}

/// Law: the upper bound takes in exactly the timestamps that sort no later
/// than it, or that start with it (all of the bound's day, hour or minute).
/// A timestamp that sorts after the bound and does not start with it is left
/// out.
pub proof fn lemma_upper_bound(ts: Seq<char>, t: Seq<char>)
    ensures
        in_range(ts, None, Some(t)) <==> (!str_lt(t, ts) || (t.len() <= ts.len() && ts.take(
            t.len() as int,
        ) == t)),
{
    let p = prefix(ts, t.len());
    lemma_str_lt_total(t, p);
    lemma_str_lt_irreflexive(t);
    if t.len() <= ts.len() {
        assert(ts =~= p + ts.skip(t.len() as int));
        if str_lt(t, p) {
            lemma_str_lt_append_right(t, p, ts.skip(t.len() as int));
        }
        if str_lt(p, t) {
            lemma_str_lt_extend(p, t, ts.skip(t.len() as int), Seq::<char>::empty());
            assert(t + Seq::<char>::empty() =~= t);
            lemma_str_lt_total(ts, t);
        }
    } else {
        assert(p =~= ts);
        lemma_str_lt_total(ts, t);
    }
}

/// Law: a screenshot taken after the upper bound (its timestamp sorts after
/// the bound and does not start with it) is never exported, whatever the
/// lower bound.
pub proof fn lemma_after_upper_bound_not_exported(s: Screenshot, from: Option<Seq<char>>, t: Seq<char>)
    requires
        str_lt(t, s.timestamp@),
        !(t.len() <= s.timestamp@.len() && s.timestamp@.take(t.len() as int) == t),
    ensures
        !is_exported(s, from, Some(t)),
{
    lemma_upper_bound(s.timestamp@, t);
}

/// A screenshot is exported when it carries its image and lies within the bounds.
pub open spec fn is_exported(s: Screenshot, from: Option<Seq<char>>, to: Option<Seq<char>>) -> bool {
    s.png_bytes is Some && in_range(s.timestamp@, from, to)
}

/// Positions of the exported screenshots, in input order.
pub open spec fn exported_indices(
    ss: Seq<Screenshot>,
    from: Option<Seq<char>>,
    to: Option<Seq<char>>,
) -> Seq<int>
    decreases ss.len(),
{
    if ss.len() == 0 {
        seq![]
    } else {
        let p = exported_indices(ss.drop_last(), from, to);
        if is_exported(ss.last(), from, to) {
            p.push(ss.len() - 1)
        } else {
            p
        }
    }
}

/// The largest id among screenshots that carry an image.
pub open spec fn max_image_id(ss: Seq<Screenshot>) -> Option<i64>
    decreases ss.len(),
{
    if ss.len() == 0 {
        None
    } else {
        let m = max_image_id(ss.drop_last());
        let s = ss.last();
        if s.png_bytes is Some {
            match m {
                Some(x) => Some(if x >= s.id { x } else { s.id }),
                None => Some(s.id),
            }
        } else {
            m
        }
    }
}

/// Width to which ids are zero-padded in file names: the length of the largest
/// image id as written (0 when there is none), at least 4.
pub open spec fn pad_width(ss: Seq<Screenshot>) -> nat {
    let len = signed_decimal(
        match max_image_id(ss) {
            Some(x) => x as int,
            None => 0,
        },
    ).len();
    if len > 4 {
        len
    } else {
        4
    }
}

/// The timestamp made safe for file names: `:`, space and `+` become `_`.
pub open spec fn file_safe_fn() -> spec_fn(char) -> Seq<char> {
    |c: char| if c == ':' || c == ' ' || c == '+' { seq!['_'] } else { seq![c] }
}

/// The name of the exported image: `recall_<padded id>_<safe timestamp>.png`.
pub open spec fn export_file_name(id: i64, ts: Seq<char>, width: nat) -> Seq<char> {
    "recall_"@ + zero_padded(id as int, width) + "_"@ + flat_map_chars(ts, file_safe_fn())
        + ".png"@
}

/// `e` is the timeline entry of `s` for ids padded to `width`.
pub open spec fn is_entry_of(e: ExportedEntry, s: Screenshot, width: nat) -> bool {
    &&& e.id == s.id
    &&& e.timestamp@ == s.timestamp@
    &&& e.width == s.width
    &&& e.height == s.height
    &&& e.ocr_text@ == match s.ocr_text {
        Some(t) => t@,
        None => Seq::<char>::empty(),
    }
    &&& e.filename@ == export_file_name(s.id, s.timestamp@, width)
}

/// Screenshot `a` comes before screenshot `b` on the timeline: by timestamp,
/// and by input position among equal timestamps.
pub open spec fn comes_before(ss: Seq<Screenshot>, a: int, b: int) -> bool {
    ||| str_lt(ss[a].timestamp@, ss[b].timestamp@)
    ||| (ss[a].timestamp@ == ss[b].timestamp@ && a < b)
}

/// `order` lists exactly the positions in `cands`, in timeline order
/// (a stable sort of `cands` by timestamp).
pub open spec fn is_timeline_order(ss: Seq<Screenshot>, cands: Seq<int>, order: Seq<int>) -> bool {
    &&& order.len() == cands.len()
    &&& forall|k: int| 0 <= k < order.len() ==> cands.contains(#[trigger] order[k])
    &&& forall|j: int| 0 <= j < cands.len() ==> order.contains(#[trigger] cands[j])
    &&& forall|a: int, b: int|
        0 <= a < b < order.len() ==> comes_before(ss, #[trigger] order[a], #[trigger] order[b])
}

/// One image file to write: which screenshot, under which name.
pub struct ExportFile {
    pub source: usize,
    pub filename: String,
}

/// What an export writes: the image files, in input order, and the timeline
/// page (written only when some screenshot is exported).
pub struct ExportPlan {
    pub files: Vec<ExportFile>,
    pub entries: Vec<ExportedEntry>,
    pub index_html: Option<String>,
}

/// `p` is the export plan of `ss` within the bounds.
pub open spec fn is_export_plan(
    p: ExportPlan,
    ss: Seq<Screenshot>,
    from: Option<Seq<char>>,
    to: Option<Seq<char>>,
) -> bool {
    let w = pad_width(ss);
    let cands = exported_indices(ss, from, to);
    &&& p.files.len() == cands.len()
    &&& forall|k: int|
        0 <= k < cands.len() ==> {
            let f = #[trigger] p.files@[k];
            &&& f.source == cands[k]
            &&& f.filename@ == export_file_name(ss[cands[k]].id, ss[cands[k]].timestamp@, w)
        }
    &&& p.entries.len() == cands.len()
    &&& exists|order: Seq<int>|
        {
            &&& is_timeline_order(ss, cands, order)
            &&& forall|k: int|
                0 <= k < order.len() ==> is_entry_of(#[trigger] p.entries@[k], ss[order[k]], w)
        }
    &&& match p.index_html {
        Some(h) => p.entries.len() > 0 && h@ == timeline_html(p.entries@),
        None => p.entries.len() == 0,
    }
}

fn opt_str_chars(o: Option<&str>) -> (r: Option<Vec<char>>)
    ensures
        match r {
            Some(v) => opt_chars(o) == Some(v@),
            None => opt_chars(o) is None,
        },
{
    match o {
        Some(s) => Some(chars_of(s)),
        None => None,
    }
}

fn within(ts: &Vec<char>, from: &Option<Vec<char>>, to: &Option<Vec<char>>) -> (b: bool)
    ensures
        b == in_range(
            ts@,
            match from {
                Some(f) => Some(f@),
                None => None,
            },
            match to {
                Some(t) => Some(t@),
                None => None,
            },
        ),
{
    let after_from = match from {
        Some(f) => !chars_lt(ts, f),
        None => true,
    };
    let before_to = match to {
        Some(t) => {
            let head = prefix_chars(ts, t.len());
            !chars_lt(t, &head)
        },
        None => true,
    };
    after_from && before_to
}

/// The file name of an exported screenshot, ids padded to `width`.
pub fn export_filename(id: i64, timestamp: &str, width: usize) -> (r: String)
    ensures
        r@ == export_file_name(id, timestamp@, width as nat),
{
    let mut r = String::from_str("recall_");
    push_zero_padded(&mut r, id, width);
    r.append("_");
    let v = chars_of(timestamp);
    let ghost f = file_safe_fn();
    let ghost before = r@;
    for i in 0..v.len()
        invariant
            v@ == timestamp@,
            f == file_safe_fn(),
            r@ == before + flat_map_chars(v@.take(i as int), f),
    {
        proof { lemma_flat_map_step(v@, i as int, f); }
        let c = v[i];
        if c == ':' || c == ' ' || c == '+' {
            push_char(&mut r, '_');
        } else {
            push_char(&mut r, c);
        }
        assert(r@ =~= before + flat_map_chars(v@.take(i + 1), f));
    }
    assert(v@.take(v@.len() as int) =~= v@);
    r.append(".png");
    assert(r@ =~= export_file_name(id, timestamp@, width as nat));
    r
}

/// `comes_before` is transitive.
proof fn lemma_comes_before_transitive(ss: Seq<Screenshot>, a: int, b: int, c: int)
    requires
        comes_before(ss, a, b),
        comes_before(ss, b, c),
    ensures
        comes_before(ss, a, c),
{
    let (ta, tb, tc) = (ss[a].timestamp@, ss[b].timestamp@, ss[c].timestamp@);
    if str_lt(ta, tb) && str_lt(tb, tc) {
        lemma_str_lt_transitive(ta, tb, tc);
    }
}

/// `comes_before` is total on distinct positions, and asymmetric.
proof fn lemma_comes_before_total(ss: Seq<Screenshot>, a: int, b: int)
    ensures
        a != b ==> comes_before(ss, a, b) || comes_before(ss, b, a),
        !(comes_before(ss, a, b) && comes_before(ss, b, a)),
{
    let (ta, tb) = (ss[a].timestamp@, ss[b].timestamp@);
    lemma_str_lt_total(ta, tb);
    lemma_str_lt_irreflexive(ta);
}


/// The positions in `v`, as integers.
pub open spec fn ints(v: Seq<usize>) -> Seq<int> {
    Seq::new(v.len(), |i: int| v[i] as int)
}

/// Strictly increasing positions.
pub open spec fn increasing(c: Seq<int>) -> bool {
    forall|a: int, b: int| 0 <= a < b < c.len() ==> #[trigger] c[a] < #[trigger] c[b]
}

/// Inserting the next candidate where the scan stopped keeps the timeline order.
proof fn lemma_insert_keeps_order(ss: Seq<Screenshot>, c: Seq<int>, k: int, o: Seq<int>, p: int)
    requires
        0 <= k < c.len(),
        increasing(c),
        is_timeline_order(ss, c.take(k), o),
        0 <= p <= o.len(),
        forall|q: int| p <= q < o.len() ==> comes_before(ss, c[k], #[trigger] o[q]),
        p > 0 ==> !comes_before(ss, c[k], o[p - 1]),
    ensures
        is_timeline_order(ss, c.take(k + 1), o.insert(p, c[k])),
{
    let x = c[k];
    let n = o.insert(p, x);
    let ck = c.take(k);
    let ck1 = c.take(k + 1);
    assert forall|q: int| 0 <= q < o.len() implies #[trigger] o[q] < x by {
        assert(ck.contains(o[q]));
        let i = choose|i: int| 0 <= i < ck.len() && ck[i] == o[q];
        assert(c[i] < c[k]);
    }
    if p > 0 {
        lemma_comes_before_total(ss, x, o[p - 1]);
    }
    assert forall|a: int, b: int| 0 <= a < b < n.len() implies comes_before(
        ss,
        #[trigger] n[a],
        #[trigger] n[b],
    ) by {
        if b < p {
            assert(n[a] == o[a] && n[b] == o[b]);
        } else if b == p {
            assert(n[a] == o[a]);
            if a < p - 1 {
                assert(comes_before(ss, o[a], o[p - 1]));
                lemma_comes_before_transitive(ss, o[a], o[p - 1], x);
            }
        } else if a < p {
            assert(n[a] == o[a] && n[b] == o[b - 1]);
        } else if a == p {
            assert(n[b] == o[b - 1]);
        } else {
            assert(n[a] == o[a - 1] && n[b] == o[b - 1]);
        }
    }
    assert forall|q: int| 0 <= q < n.len() implies ck1.contains(#[trigger] n[q]) by {
        if q == p {
            assert(ck1[k] == x);
        } else {
            let oq = if q < p { q } else { q - 1 };
            assert(n[q] == o[oq]);
            assert(ck.contains(o[oq]));
            let i = choose|i: int| 0 <= i < ck.len() && ck[i] == o[oq];
            assert(ck1[i] == ck[i]);
        }
    }
    assert forall|j: int| 0 <= j < ck1.len() implies n.contains(#[trigger] ck1[j]) by {
        if j == k {
            assert(n[p] == x);
        } else {
            assert(ck1[j] == ck[j]);
            assert(o.contains(ck[j]));
            let q = choose|q: int| 0 <= q < o.len() && o[q] == ck[j];
            if q < p {
                assert(n[q] == o[q]);
            } else {
                assert(n[q + 1] == o[q]);
            }
        }
    }
}

/// Stable insertion sort of the candidate positions by timestamp.
fn timeline_order(ss: &[Screenshot], keys: &Vec<Vec<char>>, cands: &Vec<usize>) -> (order: Vec<usize>)
    requires
        keys.len() == ss.len(),
        forall|i: int| 0 <= i < ss.len() ==> (#[trigger] keys@[i])@ == ss@[i].timestamp@,
        increasing(ints(cands@)),
        forall|j: int| 0 <= j < cands.len() ==> #[trigger] cands@[j] < ss.len(),
    ensures
        is_timeline_order(ss@, ints(cands@), ints(order@)),
        forall|q: int| 0 <= q < order.len() ==> #[trigger] order@[q] < ss.len(),
{
    let ghost c = ints(cands@);
    let mut order: Vec<usize> = Vec::new();
    assert(c.take(0) =~= Seq::<int>::empty());
    assert(ints(order@) =~= Seq::<int>::empty());
    for k in 0..cands.len()
        invariant
            c == ints(cands@),
            keys.len() == ss.len(),
            forall|i: int| 0 <= i < ss.len() ==> (#[trigger] keys@[i])@ == ss@[i].timestamp@,
            increasing(c),
            forall|j: int| 0 <= j < cands.len() ==> #[trigger] cands@[j] < ss.len(),
            is_timeline_order(ss@, c.take(k as int), ints(order@)),
            forall|q: int| 0 <= q < order.len() ==> #[trigger] order@[q] < ss.len(),
    {
        let x = cands[k];
        let ghost o = ints(order@);
        assert forall|q: int| 0 <= q < o.len() implies #[trigger] o[q] < x by {
            assert(c.take(k as int).contains(o[q]));
            let i = choose|i: int| 0 <= i < k && c.take(k as int)[i] == o[q];
            assert(c[i] < c[k as int]);
        }
        let mut p = order.len();
        while p > 0 && chars_lt(&keys[x], &keys[order[p - 1]])
            invariant
                0 <= p <= order.len(),
                o == ints(order@),
                x < ss.len(),
                keys.len() == ss.len(),
                forall|i: int| 0 <= i < ss.len() ==> (#[trigger] keys@[i])@ == ss@[i].timestamp@,
                forall|q: int| 0 <= q < order.len() ==> #[trigger] order@[q] < ss.len(),
                forall|q: int| p <= q < o.len() ==> comes_before(ss@, x as int, #[trigger] o[q]),
            decreases p,
        {
            assert(o[p - 1] == order@[p - 1] as int);
            p = p - 1;
        }
        proof {
            if p > 0 {
                assert(o[p - 1] == order@[p - 1] as int);
                assert(o[p - 1] < x);
            }
            lemma_insert_keeps_order(ss@, c, k as int, o, p as int);
        }
        order.insert(p, x);
        assert(ints(order@) =~= o.insert(p as int, x as int));
    }
    assert(c.take(cands.len() as int) =~= c);
    order
}


fn max_image_id_of(ss: &[Screenshot]) -> (m: Option<i64>)
    ensures
        m == max_image_id(ss@),
{
    let mut m: Option<i64> = None;
    for i in 0..ss.len()
        invariant
            m == max_image_id(ss@.take(i as int)),
    {
        assert(ss@.take(i + 1).drop_last() =~= ss@.take(i as int));
        if ss[i].png_bytes.is_some() {
            let id = ss[i].id;
            m = match m {
                Some(x) => Some(if x >= id { x } else { id }),
                None => Some(id),
            };
        }
    }
    assert(ss@.take(ss@.len() as int) =~= ss@);
    m
}

/// The width to which ids are padded in the file names of an export.
pub fn export_pad_width(ss: &[Screenshot]) -> (w: usize)
    ensures
        w as nat == pad_width(ss@),
{
    let max_id = match max_image_id_of(ss) {
        Some(x) => x,
        None => 0,
    };
    let len = signed_decimal_len(max_id);
    if len > 4 {
        len
    } else {
        4
    }
}

/// The timestamps of all screenshots, as characters.
fn timestamp_keys(ss: &[Screenshot]) -> (keys: Vec<Vec<char>>)
    ensures
        keys.len() == ss.len(),
        forall|i: int| 0 <= i < ss.len() ==> (#[trigger] keys@[i])@ == ss@[i].timestamp@,
{
    let mut keys: Vec<Vec<char>> = Vec::new();
    for i in 0..ss.len()
        invariant
            keys.len() == i,
            forall|j: int| 0 <= j < i ==> (#[trigger] keys@[j])@ == ss@[j].timestamp@,
    {
        keys.push(chars_of(ss[i].timestamp.as_str()));
    }
    keys
}

/// Positions of the screenshots that the export takes.
fn exported_positions(
    ss: &[Screenshot],
    keys: &Vec<Vec<char>>,
    from: &Option<Vec<char>>,
    to: &Option<Vec<char>>,
    Ghost(f): Ghost<Option<Seq<char>>>,
    Ghost(t): Ghost<Option<Seq<char>>>,
) -> (c: Vec<usize>)
    requires
        keys.len() == ss.len(),
        forall|i: int| 0 <= i < ss.len() ==> (#[trigger] keys@[i])@ == ss@[i].timestamp@,
        f == match from {
            Some(v) => Some(v@),
            None => None::<Seq<char>>,
        },
        t == match to {
            Some(v) => Some(v@),
            None => None::<Seq<char>>,
        },
    ensures
        ints(c@) == exported_indices(ss@, f, t),
        increasing(ints(c@)),
        forall|j: int| 0 <= j < c.len() ==> #[trigger] c@[j] < ss.len(),
{
    let mut c: Vec<usize> = Vec::new();
    assert(ints(c@) =~= exported_indices(ss@.take(0), f, t));
    for i in 0..ss.len()
        invariant
            keys.len() == ss.len(),
            forall|i: int| 0 <= i < ss.len() ==> (#[trigger] keys@[i])@ == ss@[i].timestamp@,
            f == match from {
                Some(v) => Some(v@),
                None => None::<Seq<char>>,
            },
            t == match to {
                Some(v) => Some(v@),
                None => None::<Seq<char>>,
            },
            ints(c@) == exported_indices(ss@.take(i as int), f, t),
            increasing(ints(c@)),
            forall|j: int| 0 <= j < c.len() ==> #[trigger] c@[j] < i,
    {
        assert(ss@.take(i + 1).drop_last() =~= ss@.take(i as int));
        assert(ss@.take(i + 1).last() == ss@[i as int]);
        if ss[i].png_bytes.is_some() && within(&keys[i], from, to) {
            let ghost before = ints(c@);
            c.push(i);
            assert(ints(c@) =~= before.push(i as int));
        }
    }
    assert(ss@.take(ss@.len() as int) =~= ss@);
    c
}

/// Plans an export of `screenshots`: the ones that carry an image and whose
/// timestamp lies within `from..=to` (string comparison) are written as
/// `recall_<id>_<timestamp>.png`, ids zero-padded to a common width, and the
/// timeline lists them by timestamp.
pub fn plan_export(screenshots: &[Screenshot], from: Option<&str>, to: Option<&str>) -> (plan:
    ExportPlan)
    ensures
        is_export_plan(plan, screenshots@, opt_chars(from), opt_chars(to)),
{
    let ss = screenshots;
    let width = export_pad_width(ss);
    let keys = timestamp_keys(ss);
    let from_v = opt_str_chars(from);
    let to_v = opt_str_chars(to);
    let ghost f = opt_chars(from);
    let ghost t = opt_chars(to);
    let cands = exported_positions(ss, &keys, &from_v, &to_v, Ghost(f), Ghost(t));
    let ghost c = ints(cands@);
    let ghost w = pad_width(ss@);
    let mut files: Vec<ExportFile> = Vec::new();
    for k in 0..cands.len()
        invariant
            c == ints(cands@),
            c == exported_indices(ss@, f, t),
            width as nat == w,
            forall|j: int| 0 <= j < cands.len() ==> #[trigger] cands@[j] < ss.len(),
            files.len() == k,
            forall|q: int|
                0 <= q < k ==> {
                    let e = #[trigger] files@[q];
                    &&& e.source == c[q]
                    &&& e.filename@ == export_file_name(ss@[c[q]].id, ss@[c[q]].timestamp@, w)
                },
    {
        let i = cands[k];
        let s = &ss[i];
        files.push(ExportFile { source: i, filename: export_filename(s.id, s.timestamp.as_str(), width) });
    }
    let order = timeline_order(ss, &keys, &cands);
    let ghost o = ints(order@);
    let mut entries: Vec<ExportedEntry> = Vec::new();
    for k in 0..order.len()
        invariant
            o == ints(order@),
            width as nat == w,
            forall|q: int| 0 <= q < order.len() ==> #[trigger] order@[q] < ss.len(),
            entries.len() == k,
            forall|q: int| 0 <= q < k ==> is_entry_of(#[trigger] entries@[q], ss@[o[q]], w),
    {
        let s = &ss[order[k]];
        let ocr_text = match &s.ocr_text {
            Some(text) => text.clone(),
            None => String::new(),
        };
        let entry = ExportedEntry {
            id: s.id,
            timestamp: s.timestamp.clone(),
            width: s.width,
            height: s.height,
            ocr_text,
            filename: export_filename(s.id, s.timestamp.as_str(), width),
        };
        assert(is_entry_of(entry, ss@[o[k as int]], w));
        entries.push(entry);
    }
    let index_html = if entries.len() > 0 {
        Some(build_timeline_html(entries.as_slice()))
    } else {
        None
    };
    let plan = ExportPlan { files, entries, index_html };
    assert(is_timeline_order(ss@, c, o));
    plan
}


// ---------------------------------------------------------------------------
// The folder of one export
// ---------------------------------------------------------------------------

/// Name of the folder for an export started at the given local time:
/// `YYYY-MM-DD-HHMM`, and for the `n`-th try within the same minute (`n` from
/// 1 on) a suffix `-<n + 1>`.
pub open spec fn export_folder(
    year: u32,
    month: u32,
    day: u32,
    hour: u32,
    minute: u32,
    attempt: u32,
) -> Seq<char> {
    let base = zero_padded(year as int, 4) + "-"@ + zero_padded(month as int, 2) + "-"@
        + zero_padded(day as int, 2) + "-"@ + zero_padded(hour as int, 2) + zero_padded(
        minute as int,
        2,
    );
    if attempt == 0 {
        base
    } else {
        base + "-"@ + decimal(attempt as nat + 1)
    }
}

/// The folder name of an export (see `export_folder`).
pub fn export_folder_name(year: u32, month: u32, day: u32, hour: u32, minute: u32, attempt: u32) -> (r:
    String)
    ensures
        r@ == export_folder(year, month, day, hour, minute, attempt),
{
    let mut r = String::new();
    push_zero_padded(&mut r, year as i64, 4);
    r.append("-");
    push_zero_padded(&mut r, month as i64, 2);
    r.append("-");
    push_zero_padded(&mut r, day as i64, 2);
    r.append("-");
    push_zero_padded(&mut r, hour as i64, 2);
    push_zero_padded(&mut r, minute as i64, 2);
    if attempt > 0 {
        r.append("-");
        push_decimal(&mut r, attempt as u64 + 1);
    }
    assert(r@ =~= export_folder(year, month, day, hour, minute, attempt));
    r
}

/// Picks the folder of a new export: the first try whose name is not among
/// the names already present in the output directory. `None` only when all
/// `u32::MAX` tries are taken.
pub fn free_export_folder(
    year: u32,
    month: u32,
    day: u32,
    hour: u32,
    minute: u32,
    taken: &Vec<String>,
) -> (r: Option<String>)
    ensures
        is_folder_choice(year, month, day, hour, minute, taken@, r),
        r matches Some(name) ==> forall|i: int|
            0 <= i < taken@.len() ==> (#[trigger] taken@[i])@ != name@,
{
    let mut attempt: u32 = 0;
    while attempt < u32::MAX
        invariant
            forall|b: u32| b < attempt ==> is_taken(taken@, #[trigger] export_folder(year, month, day, hour, minute, b)),
        decreases u32::MAX - attempt,
    {
        let name = export_folder_name(year, month, day, hour, minute, attempt);
        if !contains_string(taken, &name) {
            return Some(name);
        }
        attempt = attempt + 1;
    }
    None
}

/// `r` is the folder that a new export picks: the first try that is not
/// taken (`None` when every try is).
pub open spec fn is_folder_choice(
    year: u32,
    month: u32,
    day: u32,
    hour: u32,
    minute: u32,
    taken: Seq<String>,
    r: Option<String>,
) -> bool {
    match r {
        Some(name) => exists|a: u32|
            {
                &&& name@ == export_folder(year, month, day, hour, minute, a)
                &&& !is_taken(taken, #[trigger] export_folder(year, month, day, hour, minute, a))
                &&& forall|b: u32|
                    b < a ==> is_taken(taken, #[trigger] export_folder(year, month, day, hour, minute, b))
            },
        None => forall|b: u32|
            b < u32::MAX ==> is_taken(taken, #[trigger] export_folder(year, month, day, hour, minute, b)),
    }
}

/// Law: a new export never reuses a folder. The picked name, the folder of
/// try `a`, differs from every name already present, and the folder of every
/// earlier try is one of those names.
pub proof fn lemma_free_folder_is_new(
    year: u32,
    month: u32,
    day: u32,
    hour: u32,
    minute: u32,
    taken: Seq<String>,
    name: String,
    a: u32,
)
    requires
        is_folder_choice(year, month, day, hour, minute, taken, Some(name)),
        name@ == export_folder(year, month, day, hour, minute, a),
    ensures
        forall|i: int| 0 <= i < taken.len() ==> (#[trigger] taken[i])@ != name@,
        forall|b: u32|
            b < a ==> listed_at_some_index(taken, #[trigger] export_folder(year, month, day, hour, minute, b)),
{
    let c = choose|c: u32|
        {
            &&& name@ == export_folder(year, month, day, hour, minute, c)
            &&& !is_taken(taken, #[trigger] export_folder(year, month, day, hour, minute, c))
            &&& forall|b: u32|
                b < c ==> is_taken(taken, #[trigger] export_folder(year, month, day, hour, minute, b))
        };
    if c != a {
        lemma_export_folders_differ(year, month, day, hour, minute, c, a);
    }
    assert forall|i: int| 0 <= i < taken.len() implies (#[trigger] taken[i])@ != name@ by {
        if taken[i]@ == name@ {
            assert(is_taken(taken, export_folder(year, month, day, hour, minute, a)));
        }
    }
    assert forall|b: u32| b < a implies listed_at_some_index(
        taken,
        #[trigger] export_folder(year, month, day, hour, minute, b),
    ) by {
        let x = export_folder(year, month, day, hour, minute, b);
        assert(is_taken(taken, x));
        let i = choose|i: int| 0 <= i < taken.len() && (#[trigger] taken[i])@ == x;
        assert(0 <= i < taken.len() && taken[i]@ == x);
    }
}

/// Some index of `taken` holds `x`.
pub open spec fn listed_at_some_index(taken: Seq<String>, x: Seq<char>) -> bool {
    exists|i: int| 0 <= i < taken.len() && #[trigger] taken[i]@ == x
}

/// `name` is one of the names in `taken`.
pub open spec fn is_taken(taken: Seq<String>, name: Seq<char>) -> bool {
    exists|i: int| 0 <= i < taken.len() && (#[trigger] taken[i])@ == name
}

fn contains_string(taken: &Vec<String>, name: &String) -> (b: bool)
    ensures
        b == is_taken(taken@, name@),
{
    for i in 0..taken.len()
        invariant
            forall|j: int| 0 <= j < i ==> (#[trigger] taken@[j])@ != name@,
    {
        if taken[i] == *name {
            assert(taken@[i as int]@ == name@);
            return true;
        }
    }
    false
}

/// The decimal value of the digits of `s` between `lo` and `hi`, when they
/// are all digits.
pub open spec fn field_value(s: Seq<char>, lo: int, hi: int) -> Option<nat> {
    let f = s.subrange(lo, hi);
    if all_digits(f) {
        Some(digits_value(f))
    } else {
        None
    }
}

proof fn lemma_two_digits(n: u32)
    requires
        n <= 99,
    ensures
        zero_padded(n as int, 2).len() == 2,
        all_digits(zero_padded(n as int, 2)),
        digits_value(zero_padded(n as int, 2)) == n,
{
    reveal_with_fuel(crate::text::pow10, 3);
    lemma_decimal_len_below(n as nat, 2);
    lemma_zero_padded_digits(n as nat, 2);
}

/// Law: the first folder of a minute is `YYYY-MM-DD-HHMM`, fifteen
/// characters: four digits for the year, two each for month, day, hour and
/// minute, each field denoting its number, with `-` between date parts and
/// before the time.
pub proof fn lemma_export_folder_layout(year: u32, month: u32, day: u32, hour: u32, minute: u32)
    requires
        year <= 9999,
        month <= 99,
        day <= 99,
        hour <= 99,
        minute <= 99,
    ensures
        ({
            let f = export_folder(year, month, day, hour, minute, 0);
            &&& f.len() == 15
            &&& field_value(f, 0, 4) == Some(year as nat)
            &&& f[4] == '-'
            &&& field_value(f, 5, 7) == Some(month as nat)
            &&& f[7] == '-'
            &&& field_value(f, 8, 10) == Some(day as nat)
            &&& f[10] == '-'
            &&& field_value(f, 11, 13) == Some(hour as nat)
            &&& field_value(f, 13, 15) == Some(minute as nat)
        }),
{
    reveal_strlit("-");
    reveal_with_fuel(crate::text::pow10, 5);
    lemma_decimal_len_below(year as nat, 4);
    lemma_zero_padded_digits(year as nat, 4);
    lemma_two_digits(month);
    lemma_two_digits(day);
    lemma_two_digits(hour);
    lemma_two_digits(minute);
    let (y, mo, d, h, mi) = (
        zero_padded(year as int, 4),
        zero_padded(month as int, 2),
        zero_padded(day as int, 2),
        zero_padded(hour as int, 2),
        zero_padded(minute as int, 2),
    );
    let f = export_folder(year, month, day, hour, minute, 0);
    assert(f =~= y + "-"@ + mo + "-"@ + d + "-"@ + h + mi);
    assert(f.subrange(0, 4) =~= y);
    assert(f.subrange(5, 7) =~= mo);
    assert(f.subrange(8, 10) =~= d);
    assert(f.subrange(11, 13) =~= h);
    assert(f.subrange(13, 15) =~= mi);
}

/// Law: different tries within one minute get different folders, so an export
/// never writes into the folder of an earlier one.
pub proof fn lemma_export_folders_differ(
    year: u32,
    month: u32,
    day: u32,
    hour: u32,
    minute: u32,
    a: u32,
    b: u32,
)
    requires
        a != b,
    ensures
        export_folder(year, month, day, hour, minute, a) != export_folder(
            year,
            month,
            day,
            hour,
            minute,
            b,
        ),
{
    reveal_strlit("-");
    let base = export_folder(year, month, day, hour, minute, 0);
    if a != 0 && b != 0 {
        let fa = export_folder(year, month, day, hour, minute, a);
        let fb = export_folder(year, month, day, hour, minute, b);
        lemma_decimal_digits(a as nat + 1);
        lemma_decimal_digits(b as nat + 1);
        if fa == fb {
            let k: int = base.len() as int + 1;
            assert(fa.skip(k) =~= decimal(a as nat + 1));
            assert(fb.skip(k) =~= decimal(b as nat + 1));
        }
    } else if a == 0 {
        assert(export_folder(year, month, day, hour, minute, b).len() > base.len());
    } else {
        assert(export_folder(year, month, day, hour, minute, a).len() > base.len());
    }
}


// ---------------------------------------------------------------------------
// Laws of an export
// ---------------------------------------------------------------------------

/// Law: the timeline lists the entries chronologically: no entry has a
/// timestamp earlier than one listed before it.
pub proof fn lemma_timeline_chronological(
    p: ExportPlan,
    ss: Seq<Screenshot>,
    from: Option<Seq<char>>,
    to: Option<Seq<char>>,
    k1: int,
    k2: int,
)
    requires
        is_export_plan(p, ss, from, to),
        0 <= k1 < k2 < p.entries.len(),
    ensures
        !str_lt(p.entries@[k2].timestamp@, p.entries@[k1].timestamp@),
{
    let w = pad_width(ss);
    let cands = exported_indices(ss, from, to);
    let order = choose|order: Seq<int>|
        {
            &&& is_timeline_order(ss, cands, order)
            &&& forall|k: int|
                0 <= k < order.len() ==> is_entry_of(#[trigger] p.entries@[k], ss[order[k]], w)
        };
    assert(is_entry_of(p.entries@[k1], ss[order[k1]], w));
    assert(is_entry_of(p.entries@[k2], ss[order[k2]], w));
    assert(comes_before(ss, order[k1], order[k2]));
    let (t1, t2) = (ss[order[k1]].timestamp@, ss[order[k2]].timestamp@);
    lemma_str_lt_total(t1, t2);
    lemma_str_lt_irreflexive(t1);
}

proof fn lemma_orders_agree_below(ss: Seq<Screenshot>, c: Seq<int>, o1: Seq<int>, o2: Seq<int>, i: int)
    requires
        is_timeline_order(ss, c, o1),
        is_timeline_order(ss, c, o2),
        0 <= i <= o1.len(),
    ensures
        forall|k: int| 0 <= k < i ==> o1[k] == o2[k],
    decreases i,
{
    if i > 0 {
        lemma_orders_agree_below(ss, c, o1, o2, i - 1);
        let k = i - 1;
        if o1[k] != o2[k] {
            lemma_comes_before_total(ss, o1[k], o2[k]);
            lemma_comes_before_total(ss, o1[k], o1[k]);
            lemma_comes_before_total(ss, o2[k], o2[k]);
            assert(c.contains(o1[k]));
            let a = choose|a: int| 0 <= a < c.len() && c[a] == o1[k];
            assert(o2.contains(c[a]));
            let j = choose|j: int| 0 <= j < o2.len() && o2[j] == c[a];
            if j < k {
                assert(o1[j] == o2[j]);
                assert(comes_before(ss, o1[j], o1[k]));
            }
            assert(j > k);
            assert(comes_before(ss, o2[k], o2[j]));
            assert(c.contains(o2[k]));
            let b = choose|b: int| 0 <= b < c.len() && c[b] == o2[k];
            assert(o1.contains(c[b]));
            let j2 = choose|j2: int| 0 <= j2 < o1.len() && o1[j2] == c[b];
            if j2 < k {
                assert(o1[j2] == o2[j2]);
                assert(comes_before(ss, o2[j2], o2[k]));
            }
            assert(j2 > k);
            assert(comes_before(ss, o1[k], o1[j2]));
        }
    }
}

/// Law: the timeline order is determined: a stable sort by timestamp leaves
/// no choice, so any two orders that meet `is_timeline_order` are equal.
pub proof fn lemma_timeline_order_unique(ss: Seq<Screenshot>, c: Seq<int>, o1: Seq<int>, o2: Seq<int>)
    requires
        is_timeline_order(ss, c, o1),
        is_timeline_order(ss, c, o2),
    ensures
        o1 == o2,
{
    lemma_orders_agree_below(ss, c, o1, o2, o1.len() as int);
    assert(o1 =~= o2);
}

/// File names follow the ids: for non-negative ids, the smaller id gives the
/// file name that sorts first, whatever the timestamps.
pub proof fn lemma_file_names_follow_ids(a: i64, b: i64, ta: Seq<char>, tb: Seq<char>, width: nat)
    requires
        0 <= a < b,
        decimal(b as nat).len() <= width,
    ensures
        str_lt(export_file_name(a, ta, width), export_file_name(b, tb, width)),
{
    let pa = zero_padded(a as int, width);
    let pb = zero_padded(b as int, width);
    lemma_zero_padded_order(a as nat, b as nat, width);
    let ra = "_"@ + flat_map_chars(ta, file_safe_fn()) + ".png"@;
    let rb = "_"@ + flat_map_chars(tb, file_safe_fn()) + ".png"@;
    lemma_str_lt_extend(pa, pb, ra, rb);
    lemma_str_lt_common_prefix("recall_"@, pa + ra, pb + rb);
    assert(export_file_name(a, ta, width) =~= "recall_"@ + (pa + ra));
    assert(export_file_name(b, tb, width) =~= "recall_"@ + (pb + rb));
}

/// Every exported position holds a screenshot that is exported.
proof fn lemma_exported_indices_valid(ss: Seq<Screenshot>, from: Option<Seq<char>>, to: Option<Seq<char>>)
    ensures
        forall|k: int| 0 <= k < exported_indices(ss, from, to).len() ==> {
            let i = #[trigger] exported_indices(ss, from, to)[k];
            0 <= i < ss.len() && is_exported(ss[i], from, to)
        },
    decreases ss.len(),
{
    if ss.len() > 0 {
        let sp = ss.drop_last();
        lemma_exported_indices_valid(sp, from, to);
        assert forall|k: int| 0 <= k < exported_indices(ss, from, to).len() implies {
            let i = #[trigger] exported_indices(ss, from, to)[k];
            0 <= i < ss.len() && is_exported(ss[i], from, to)
        } by {
            if k < exported_indices(sp, from, to).len() {
                let i = exported_indices(sp, from, to)[k];
                assert(sp[i] == ss[i]);
            }
        }
    }
}

/// The largest image id bounds every image id.
proof fn lemma_max_image_id_bounds(ss: Seq<Screenshot>, i: int)
    requires
        0 <= i < ss.len(),
        ss[i].png_bytes is Some,
    ensures
        max_image_id(ss) matches Some(m) && ss[i].id <= m,
    decreases ss.len(),
{
    if i < ss.len() - 1 {
        assert(ss.drop_last()[i] == ss[i]);
        lemma_max_image_id_bounds(ss.drop_last(), i);
    }
}

/// The padding width holds every non-negative image id.
proof fn lemma_pad_width_holds(ss: Seq<Screenshot>, i: int)
    requires
        0 <= i < ss.len(),
        ss[i].png_bytes is Some,
        ss[i].id >= 0,
    ensures
        decimal(ss[i].id as nat).len() <= pad_width(ss),
{
    lemma_max_image_id_bounds(ss, i);
    let m = max_image_id(ss).unwrap();
    lemma_decimal_len_monotone(ss[i].id as nat, m as nat);
}

/// Law: sorting the exported files by name sorts them by id (for
/// non-negative ids, as the database assigns them), because ids are
/// zero-padded to a common width.
pub proof fn lemma_export_names_follow_ids(
    p: ExportPlan,
    ss: Seq<Screenshot>,
    from: Option<Seq<char>>,
    to: Option<Seq<char>>,
    k1: int,
    k2: int,
)
    requires
        is_export_plan(p, ss, from, to),
        0 <= k1 < p.files.len(),
        0 <= k2 < p.files.len(),
        0 <= ss[p.files@[k1].source as int].id < ss[p.files@[k2].source as int].id,
    ensures
        str_lt(p.files@[k1].filename@, p.files@[k2].filename@),
{
    let cands = exported_indices(ss, from, to);
    lemma_exported_indices_valid(ss, from, to);
    let (i1, i2) = (cands[k1], cands[k2]);
    assert(p.files@[k1].source == i1);
    assert(p.files@[k2].source == i2);
    assert(is_exported(ss[i2], from, to));
    lemma_pad_width_holds(ss, i2);
    lemma_file_names_follow_ids(ss[i1].id, ss[i2].id, ss[i1].timestamp@, ss[i2].timestamp@, pad_width(ss));
}


// ---------------------------------------------------------------------------
// The page structure does not depend on the texts
// ---------------------------------------------------------------------------

/// The characters that delimit markup: they open and close tags, quoted
/// attribute values and therefore also the script.
pub open spec fn is_markup_char(c: char) -> bool {
    c == '<' || c == '>' || c == '"' || c == '\''
}

/// Keeps the markup delimiters and drops every other character.
pub open spec fn markup_fn() -> spec_fn(char) -> Seq<char> {
    |c: char| if is_markup_char(c) { seq![c] } else { seq![] }
}

/// The markup delimiters of `s`, in order.
pub open spec fn markup_of(s: Seq<char>) -> Seq<char> {
    flat_map_chars(s, markup_fn())
}

/// Text without delimiters contributes none.
proof fn lemma_no_markup(t: Seq<char>)
    requires
        forall|k: int| 0 <= k < t.len() ==> !is_markup_char(#[trigger] t[k]),
    ensures
        markup_of(t) == Seq::<char>::empty(),
    decreases t.len(),
{
    if t.len() > 0 {
        let p = t.drop_last();
        assert forall|k: int| 0 <= k < p.len() implies !is_markup_char(#[trigger] p[k]) by {
            assert(p[k] == t[k]);
        }
        lemma_no_markup(p);
        assert(!is_markup_char(t[t.len() - 1]));
        assert(markup_of(t) =~= Seq::<char>::empty());
    }
}

/// Escaped text contributes no delimiters.
proof fn lemma_escaped_has_no_markup(s: Seq<char>)
    ensures
        markup_of(html_escaped(s)) == Seq::<char>::empty(),
{
    lemma_html_escaped_is_inert(s);
    let t = html_escaped(s);
    assert forall|k: int| 0 <= k < t.len() implies !is_markup_char(#[trigger] t[k]) by {
        let c = html_escaped(s)[k];
        assert(c != '<' && c != '>' && c != '"' && c != '\'');
    }
    lemma_no_markup(t);
}

/// Two OCR texts that are both blank, or both not, give OCR blocks with the
/// same delimiters.
proof fn lemma_ocr_display_markup(x: Seq<char>, y: Seq<char>)
    requires
        (trimmed(x).len() == 0) == (trimmed(y).len() == 0),
    ensures
        markup_of(ocr_display(x)) == markup_of(ocr_display(y)),
{
    if trimmed(x).len() != 0 {
        let f = markup_fn();
        lemma_escaped_has_no_markup(trimmed(x));
        lemma_escaped_has_no_markup(trimmed(y));
        lemma_flat_map_append(OCR_TEXT_OPEN@, html_escaped(trimmed(x)), f);
        lemma_flat_map_append(OCR_TEXT_OPEN@, html_escaped(trimmed(y)), f);
        lemma_flat_map_append(OCR_TEXT_OPEN@ + html_escaped(trimmed(x)), OCR_TEXT_CLOSE@, f);
        lemma_flat_map_append(OCR_TEXT_OPEN@ + html_escaped(trimmed(y)), OCR_TEXT_CLOSE@, f);
        assert(markup_of(ocr_display(x)) =~= markup_of(ocr_display(y)));
    }
}

/// Entries that differ at most in their OCR text and file name, with OCR
/// texts that are both blank or both not.
pub open spec fn differ_in_texts_only(a: ExportedEntry, b: ExportedEntry) -> bool {
    &&& a.id == b.id
    &&& a.timestamp@ == b.timestamp@
    &&& a.width == b.width
    &&& a.height == b.height
    &&& (trimmed(a.ocr_text@).len() == 0) == (trimmed(b.ocr_text@).len() == 0)
}

/// Appending pieces with equal delimiters keeps the delimiters equal.
proof fn lemma_markup_step(xa: Seq<char>, xb: Seq<char>, pa: Seq<char>, pb: Seq<char>)
    requires
        markup_of(xa) == markup_of(xb),
        markup_of(pa) == markup_of(pb),
    ensures
        markup_of(xa + pa) == markup_of(xb + pb),
{
    lemma_flat_map_append(xa, pa, markup_fn());
    lemma_flat_map_append(xb, pb, markup_fn());
}

/// Two escaped texts have the same (no) delimiters.
proof fn lemma_escaped_pair_markup(x: Seq<char>, y: Seq<char>)
    ensures
        markup_of(html_escaped(x)) == markup_of(html_escaped(y)),
{
    lemma_escaped_has_no_markup(x);
    lemma_escaped_has_no_markup(y);
}

proof fn lemma_item_markup(a: ExportedEntry, b: ExportedEntry)
    requires
        differ_in_texts_only(a, b),
    ensures
        markup_of(item_html(a)) == markup_of(item_html(b)),
{
    let a0 = ITEM_OPEN@;
    let b0 = ITEM_OPEN@;
    lemma_escaped_pair_markup(a.ocr_text@, b.ocr_text@);
    lemma_markup_step(a0, b0, html_escaped(a.ocr_text@), html_escaped(b.ocr_text@));
    let (a1, b1) = (a0 + html_escaped(a.ocr_text@), b0 + html_escaped(b.ocr_text@));
    lemma_markup_step(a1, b1, ITEM_AFTER_SEARCH@, ITEM_AFTER_SEARCH@);
    let (a2, b2) = (a1 + ITEM_AFTER_SEARCH@, b1 + ITEM_AFTER_SEARCH@);
    lemma_markup_step(a2, b2, signed_decimal(a.id as int), signed_decimal(b.id as int));
    let (a3, b3) = (a2 + signed_decimal(a.id as int), b2 + signed_decimal(b.id as int));
    lemma_markup_step(a3, b3, ITEM_AFTER_ID@, ITEM_AFTER_ID@);
    let (a4, b4) = (a3 + ITEM_AFTER_ID@, b3 + ITEM_AFTER_ID@);
    lemma_markup_step(a4, b4, timestamp_display(a.timestamp@), timestamp_display(b.timestamp@));
    let (a5, b5) = (a4 + timestamp_display(a.timestamp@), b4 + timestamp_display(b.timestamp@));
    lemma_markup_step(a5, b5, ITEM_AFTER_TS@, ITEM_AFTER_TS@);
    let (a6, b6) = (a5 + ITEM_AFTER_TS@, b5 + ITEM_AFTER_TS@);
    lemma_markup_step(a6, b6, decimal(a.width as nat), decimal(b.width as nat));
    let (a7, b7) = (a6 + decimal(a.width as nat), b6 + decimal(b.width as nat));
    lemma_markup_step(a7, b7, ITEM_BETWEEN_DIMS@, ITEM_BETWEEN_DIMS@);
    let (a8, b8) = (a7 + ITEM_BETWEEN_DIMS@, b7 + ITEM_BETWEEN_DIMS@);
    lemma_markup_step(a8, b8, decimal(a.height as nat), decimal(b.height as nat));
    let (a9, b9) = (a8 + decimal(a.height as nat), b8 + decimal(b.height as nat));
    lemma_markup_step(a9, b9, ITEM_AFTER_DIMS@, ITEM_AFTER_DIMS@);
    let (a10, b10) = (a9 + ITEM_AFTER_DIMS@, b9 + ITEM_AFTER_DIMS@);
    lemma_escaped_pair_markup(a.filename@, b.filename@);
    lemma_markup_step(a10, b10, html_escaped(a.filename@), html_escaped(b.filename@));
    let (a11, b11) = (a10 + html_escaped(a.filename@), b10 + html_escaped(b.filename@));
    lemma_markup_step(a11, b11, ITEM_AFTER_HREF@, ITEM_AFTER_HREF@);
    let (a12, b12) = (a11 + ITEM_AFTER_HREF@, b11 + ITEM_AFTER_HREF@);
    lemma_escaped_pair_markup(a.filename@, b.filename@);
    lemma_markup_step(a12, b12, html_escaped(a.filename@), html_escaped(b.filename@));
    let (a13, b13) = (a12 + html_escaped(a.filename@), b12 + html_escaped(b.filename@));
    lemma_markup_step(a13, b13, ITEM_AFTER_SRC@, ITEM_AFTER_SRC@);
    let (a14, b14) = (a13 + ITEM_AFTER_SRC@, b13 + ITEM_AFTER_SRC@);
    lemma_markup_step(a14, b14, signed_decimal(a.id as int), signed_decimal(b.id as int));
    let (a15, b15) = (a14 + signed_decimal(a.id as int), b14 + signed_decimal(b.id as int));
    lemma_markup_step(a15, b15, ITEM_AFTER_ALT@, ITEM_AFTER_ALT@);
    let (a16, b16) = (a15 + ITEM_AFTER_ALT@, b15 + ITEM_AFTER_ALT@);
    lemma_ocr_display_markup(a.ocr_text@, b.ocr_text@);
    lemma_markup_step(a16, b16, ocr_display(a.ocr_text@), ocr_display(b.ocr_text@));
    let (a17, b17) = (a16 + ocr_display(a.ocr_text@), b16 + ocr_display(b.ocr_text@));
    lemma_markup_step(a17, b17, ITEM_CLOSE@, ITEM_CLOSE@);
    let (a18, b18) = (a17 + ITEM_CLOSE@, b17 + ITEM_CLOSE@);
    assert(a18 == item_html(a) && b18 == item_html(b));
}

proof fn lemma_items_markup(a: Seq<ExportedEntry>, b: Seq<ExportedEntry>)
    requires
        a.len() == b.len(),
        forall|i: int| 0 <= i < a.len() ==> differ_in_texts_only(#[trigger] a[i], b[i]),
    ensures
        markup_of(items_html(a)) == markup_of(items_html(b)),
    decreases a.len(),
{
    if a.len() > 0 {
        let (pa, pb) = (a.drop_last(), b.drop_last());
        assert forall|i: int| 0 <= i < pa.len() implies differ_in_texts_only(#[trigger] pa[i], pb[i]) by {
            assert(pa[i] == a[i] && pb[i] == b[i]);
        }
        lemma_items_markup(pa, pb);
        assert(differ_in_texts_only(a[a.len() - 1], b[b.len() - 1]));
        lemma_item_markup(a.last(), b.last());
        lemma_flat_map_append(items_html(pa), item_html(a.last()), markup_fn());
        lemma_flat_map_append(items_html(pb), item_html(b.last()), markup_fn());
    }
}

/// Law: no OCR text or file name can change the structure of the page. Two
/// lists of entries that differ only in those texts (each OCR text blank in
/// both or in neither) give pages with the same markup delimiters in the same
/// order, so every tag, attribute value and the script open and close alike.
pub proof fn lemma_page_structure_ignores_texts(a: Seq<ExportedEntry>, b: Seq<ExportedEntry>)
    requires
        a.len() == b.len(),
        forall|i: int| 0 <= i < a.len() ==> differ_in_texts_only(#[trigger] a[i], b[i]),
    ensures
        markup_of(timeline_html(a)) == markup_of(timeline_html(b)),
{
    let f = markup_fn();
    lemma_items_markup(a, b);
    let head = PAGE_OPEN@ + decimal(a.len()) + PAGE_AFTER_TITLE_COUNT@ + decimal(a.len())
        + PAGE_AFTER_HEADER_COUNT@;
    lemma_flat_map_append(head, items_html(a), f);
    lemma_flat_map_append(head, items_html(b), f);
    lemma_flat_map_append(head + items_html(a), PAGE_CLOSE@, f);
    lemma_flat_map_append(head + items_html(b), PAGE_CLOSE@, f);
    assert(markup_of(timeline_html(a)) =~= markup_of(timeline_html(b)));
}

} // verus!
