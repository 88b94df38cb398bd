//! Character-level text utilities with exact specifications.

use vstd::prelude::*;
use vstd::string::StringExecFns;

verus! {

/// The characters of `s`, in order.
pub fn chars_of(s: &str) -> (v: Vec<char>)
    ensures
        v@ == s@,
{
    let mut v: Vec<char> = Vec::new();
    for c in it: s.chars()
        invariant
            v@ == it.seq().take(it.index() as int),
            it.seq() == s@,
    {
        v.push(c);
    }
    v
}

/// Appends one character to a `String` (std's `String::push`).
/// Trusted: the result is the old contents followed by `c`, as std documents.
#[verifier::external_body]
pub(crate) fn push_char(s: &mut String, c: char)
    ensures
        final(s)@ == old(s)@.push(c),
{
    s.push(c);
}

/// The decimal digit character for `d` (which should be below ten).
pub open spec fn digit_char(d: nat) -> char {
    (d + 48) as char
}

/// The decimal representation of a natural number, without leading zeros.
pub open spec fn decimal(n: nat) -> Seq<char>
    decreases n,
{
    if n < 10 {
        seq![digit_char(n)]
    } else {
        decimal(n / 10).push(digit_char(n % 10))
    }
}

fn digit(d: u64) -> (c: char)
    requires
        d < 10,
    ensures
        c == digit_char(d as nat),
{
    let b: u8 = (d as u8) + 48;
    b as char
}

/// Appends the decimal representation of `n` to `out`.
pub fn push_decimal(out: &mut String, n: u64)
    ensures
        final(out)@ == old(out)@ + decimal(n as nat),
    decreases n,
{
    if n >= 10 {
        push_decimal(out, n / 10);
    }
    push_char(out, digit(n % 10));
}


/// Number of characters in `decimal(n)`.
pub fn decimal_len(n: u64) -> (len: usize)
    ensures
        len as nat == decimal(n as nat).len(),
        1 <= len <= 20,
    decreases n,
{
    if n >= 10 {
        let l = decimal_len(n / 10);
        if l >= 20 {
            proof { lemma_decimal_len_bound(n as nat); }
        }
        l + 1
    } else {
        1
    }
}

/// Ten to the power `k`.
pub open spec fn pow10(k: nat) -> nat
    decreases k,
{
    if k == 0 { 1 } else { 10 * pow10((k - 1) as nat) }
}

/// A number below `10^k` has at most `k` digits.
pub proof fn lemma_decimal_len_below(n: nat, k: nat)
    requires
        n < pow10(k),
        k >= 1,
    ensures
        decimal(n).len() <= k,
    decreases k,
{
    if n >= 10 {
        assert(k >= 2) by {
            if k == 1 { reveal_with_fuel(pow10, 2); }
        }
        lemma_decimal_len_below(n / 10, (k - 1) as nat);
    }
}

/// A decimal representation has at most as many digits as `u64::MAX` has.
proof fn lemma_decimal_len_bound(n: nat)
    requires
        n <= 0xffff_ffff_ffff_ffff,
    ensures
        decimal(n).len() <= 20,
{
    reveal_with_fuel(pow10, 21);
    lemma_decimal_len_below(n, 20);
}

/// The representation of an integer as `Display` writes it: a minus sign for
/// negative numbers, then the decimal digits of its magnitude.
pub open spec fn signed_decimal(n: int) -> Seq<char> {
    if n < 0 {
        seq!['-'] + decimal((-n) as nat)
    } else {
        decimal(n as nat)
    }
}

/// `k` zero characters (none when `k` is not positive).
pub open spec fn zeros(k: int) -> Seq<char> {
    Seq::new(if k > 0 { k as nat } else { 0 }, |i: int| '0')
}

/// `n` formatted with `{:0width$}`: sign first, then zeros up to `width`
/// characters in all, then the digits.
pub open spec fn zero_padded(n: int, width: nat) -> Seq<char> {
    let sign: Seq<char> = if n < 0 { seq!['-'] } else { seq![] };
    let digits = decimal(if n < 0 { (-n) as nat } else { n as nat });
    sign + zeros(width - sign.len() - digits.len()) + digits
}

fn magnitude(n: i64) -> (m: u64)
    ensures
        m as int == if n < 0 { -n } else { n as int },
{
    if n < 0 {
        let w: i128 = -(n as i128);
        w as u64
    } else {
        n as u64
    }
}

/// Appends `n` as `Display` writes an `i64`.
pub fn push_signed(out: &mut String, n: i64)
    ensures
        final(out)@ == old(out)@ + signed_decimal(n as int),
{
    if n < 0 {
        push_char(out, '-');
    }
    push_decimal(out, magnitude(n));
    proof {
        if n < 0 {
            assert(final(out)@ =~= old(out)@ + signed_decimal(n as int));
        }
    }
}

/// Number of characters in `signed_decimal(n)`.
pub fn signed_decimal_len(n: i64) -> (len: usize)
    ensures
        len as nat == signed_decimal(n as int).len(),
        len <= 21,
{
    let l = decimal_len(magnitude(n));
    if n < 0 { l + 1 } else { l }
}

/// Appends `n` formatted with `{:0width$}`.
pub fn push_zero_padded(out: &mut String, n: i64, width: usize)
    ensures
        final(out)@ == old(out)@ + zero_padded(n as int, width as nat),
{
    let ghost start = out@;
    let m = magnitude(n);
    let mut used: usize = decimal_len(m);
    if n < 0 {
        push_char(out, '-');
        used = used + 1;
    }
    let ghost sign: Seq<char> = if n < 0 { seq!['-'] } else { seq![] };
    assert(out@ == start + sign);
    let mut k: usize = used;
    while k < width
        invariant
            used <= k,
            k <= width || k == used,
            out@ == start + sign + zeros(k - used),
        decreases width - k,
    {
        push_char(out, '0');
        assert(zeros(k - used).push('0') =~= zeros(k + 1 - used));
        k = k + 1;
    }
    push_decimal(out, m);
    assert(zeros(k - used) =~= zeros(width - sign.len() - decimal(m as nat).len()));
    assert(final(out)@ =~= old(out)@ + zero_padded(n as int, width as nat));
}


// ---------------------------------------------------------------------------
// Parsing unsigned decimals (as `str::parse::<u32>` accepts them)
// ---------------------------------------------------------------------------

/// An ASCII decimal digit.
pub open spec fn is_digit(c: char) -> bool {
    48 <= (c as int) <= 57
}

/// The value of a decimal digit character.
pub open spec fn digit_value(c: char) -> nat {
    ((c as int) - 48) as nat
}

/// Every character of `s` is a decimal digit.
pub open spec fn all_digits(s: Seq<char>) -> bool {
    forall|i: int| 0 <= i < s.len() ==> is_digit(#[trigger] s[i])
}

/// The number that a string of decimal digits denotes (leading zeros allowed).
pub open spec fn digits_value(s: Seq<char>) -> nat
    decreases s.len(),
{
    if s.len() == 0 {
        0
    } else {
        digits_value(s.drop_last()) * 10 + digit_value(s.last())
    }
}

/// The digits after an optional leading `+`.
pub open spec fn unsigned_body(s: Seq<char>) -> Seq<char> {
    if s.len() > 0 && s[0] == '+' {
        s.drop_first()
    } else {
        s
    }
}

/// What `str::parse::<u32>` returns on `s`: an optional `+`, then at least one
/// decimal digit, with a value that fits in 32 bits.
pub open spec fn parse_u32_spec(s: Seq<char>) -> Option<u32> {
    let b = unsigned_body(s);
    if b.len() > 0 && all_digits(b) && digits_value(b) <= u32::MAX {
        Some(digits_value(b) as u32)
    } else {
        None
    }
}

/// A longer string of digits denotes at least the value of its prefix.
proof fn lemma_digits_value_prefix(s: Seq<char>, k: int)
    requires
        0 <= k <= s.len(),
        all_digits(s),
    ensures
        digits_value(s.take(k)) <= digits_value(s),
    decreases s.len(),
{
    if k < s.len() {
        assert(s.drop_last().take(k) =~= s.take(k));
        assert(all_digits(s.drop_last()));
        lemma_digits_value_prefix(s.drop_last(), k);
    } else {
        assert(s.take(k) =~= s);
    }
}

/// The code point of `c`.
fn char_code(c: char) -> (u: u32)
    ensures
        u as int == c as int,
{
    c as u32
}

/// Parses `s[lo..hi]` exactly as `str::parse::<u32>` does.
pub fn parse_u32_range(s: &Vec<char>, lo: usize, hi: usize) -> (r: Option<u32>)
    requires
        lo <= hi <= s.len(),
    ensures
        r == parse_u32_spec(s@.subrange(lo as int, hi as int)),
{
    let ghost t = s@.subrange(lo as int, hi as int);
    let mut start = lo;
    if lo < hi && s[lo] == '+' {
        start = lo + 1;
    }
    let ghost b = s@.subrange(start as int, hi as int);
    assert(b =~= unsigned_body(t));
    if start == hi {
        return None;
    }
    let mut acc: u64 = 0;
    let mut i = start;
    while i < hi
        invariant
            start <= i <= hi <= s.len(),
            b == s@.subrange(start as int, hi as int),
            b == unsigned_body(s@.subrange(lo as int, hi as int)),
            b.len() > 0,
            acc as nat == digits_value(b.take(i - start)),
            acc <= u32::MAX,
            all_digits(b.take(i - start)),
        decreases hi - i,
    {
        let c = s[i];
        let cv = char_code(c);
        assert(b[i - start] == c);
        if cv < 48 || cv > 57 {
            assert(!is_digit(b[i - start]));
            assert(!all_digits(b));
            return None;
        }
        let d = (cv - 48) as u64;
        proof {
            let p = b.take(i + 1 - start);
            assert(p.drop_last() =~= b.take(i - start));
            assert(p.last() == c);
            assert(digits_value(p) == digits_value(b.take(i - start)) * 10 + d);
            assert forall|k: int| 0 <= k < p.len() implies is_digit(#[trigger] p[k]) by {
                if k < p.len() - 1 {
                    assert(p[k] == b.take(i - start)[k]);
                }
            }
        }
        acc = acc * 10 + d;
        i = i + 1;
        if acc > 0xffff_ffff {
            proof {
                if all_digits(b) {
                    lemma_digits_value_prefix(b, i - start);
                }
            }
            return None;
        }
    }
    assert(b.take(i - start) =~= b);
    Some(acc as u32)
}

/// Parses `s` exactly as `str::parse::<u32>` does.
pub fn parse_u32(s: &str) -> (r: Option<u32>)
    ensures
        r == parse_u32_spec(s@),
{
    let v = chars_of(s);
    assert(v@.subrange(0, v@.len() as int) =~= v@);
    parse_u32_range(&v, 0, v.len())
}

/// `decimal(n)` consists of digits and denotes `n`.
pub proof fn lemma_decimal_digits(n: nat)
    ensures
        all_digits(decimal(n)),
        digits_value(decimal(n)) == n,
        decimal(n).len() >= 1,
        decimal(n)[0] != '+',
    decreases n,
{
    if n >= 10 {
        lemma_decimal_digits(n / 10);
        let d = decimal(n / 10);
        let x = n % 10;
        let e = decimal(n);
        assert(e == d.push(digit_char(x)));
        assert(e.drop_last() =~= d);
        assert(e.last() == digit_char(x));
        assert(digit_value(digit_char(x)) == x);
        assert(digits_value(e) == digits_value(e.drop_last()) * 10 + digit_value(e.last()));
        assert(digits_value(e) == (n / 10) * 10 + x);
        assert(n == (n / 10) * 10 + n % 10) by (nonlinear_arith);
        assert forall|k: int| 0 <= k < e.len() implies is_digit(#[trigger] e[k]) by {
            if k < d.len() {
                assert(e[k] == d[k]);
            }
        }
        assert(e[0] == d[0]);
    } else {
        let e = decimal(n);
        assert(e.drop_last() =~= Seq::<char>::empty());
        assert(digits_value(Seq::<char>::empty()) == 0);
        assert(digit_value(digit_char(n)) == n);
    }
}

/// Law: parsing the decimal form of a 32-bit number gives the number back.
pub proof fn lemma_parse_decimal_roundtrip(n: u32)
    ensures
        parse_u32_spec(decimal(n as nat)) == Some(n),
{
    lemma_decimal_digits(n as nat);
}

// ---------------------------------------------------------------------------
// Whitespace and trimming (as `char::is_whitespace` and `str::trim` define them)
// ---------------------------------------------------------------------------

/// The Unicode `White_Space` characters, which `char::is_whitespace` accepts.
pub open spec fn is_whitespace(c: char) -> bool {
    let u = c as int;
    ||| 0x09 <= u <= 0x0d
    ||| u == 0x20
    ||| u == 0x85
    ||| u == 0xa0
    ||| u == 0x1680
    ||| 0x2000 <= u <= 0x200a
    ||| u == 0x2028
    ||| u == 0x2029
    ||| u == 0x202f
    ||| u == 0x205f
    ||| u == 0x3000
}

/// Decides `is_whitespace`.
pub fn char_is_whitespace(c: char) -> (b: bool)
    ensures
        b == is_whitespace(c),
{
    let u = c as u32;
    assert(u as int == c as int);
    (0x09 <= u && u <= 0x0d) || u == 0x20 || u == 0x85 || u == 0xa0 || u == 0x1680 || (0x2000
        <= u && u <= 0x200a) || u == 0x2028 || u == 0x2029 || u == 0x202f || u == 0x205f || u
        == 0x3000
}

/// Number of whitespace characters at the start of `s`.
pub open spec fn leading_ws(s: Seq<char>) -> nat
    decreases s.len(),
{
    if s.len() > 0 && is_whitespace(s[0]) {
        1 + leading_ws(s.drop_first())
    } else {
        0
    }
}

/// Number of whitespace characters at the end of `s`.
pub open spec fn trailing_ws(s: Seq<char>) -> nat
    decreases s.len(),
{
    if s.len() > 0 && is_whitespace(s.last()) {
        1 + trailing_ws(s.drop_last())
    } else {
        0
    }
}

/// `s` without leading and trailing whitespace, as `str::trim` returns it.
pub open spec fn trimmed(s: Seq<char>) -> Seq<char> {
    let r = s.skip(leading_ws(s) as int);
    r.take(r.len() - trailing_ws(r))
}

proof fn lemma_leading_ws(s: Seq<char>, i: int)
    requires
        0 <= i <= s.len(),
        forall|k: int| 0 <= k < i ==> is_whitespace(#[trigger] s[k]),
        i == s.len() || !is_whitespace(s[i]),
    ensures
        leading_ws(s) == i,
    decreases i,
{
    if i > 0 {
        let t = s.drop_first();
        assert forall|k: int| 0 <= k < i - 1 implies is_whitespace(#[trigger] t[k]) by {
            assert(t[k] == s[k + 1]);
        }
        lemma_leading_ws(t, i - 1);
    }
}

proof fn lemma_trailing_ws(s: Seq<char>, j: int)
    requires
        0 <= j <= s.len(),
        forall|k: int| j <= k < s.len() ==> is_whitespace(#[trigger] s[k]),
        j == 0 || !is_whitespace(s[j - 1]),
    ensures
        trailing_ws(s) == s.len() - j,
    decreases s.len() - j,
{
    if j < s.len() {
        let t = s.drop_last();
        assert forall|k: int| j <= k < t.len() implies is_whitespace(#[trigger] t[k]) by {
            assert(t[k] == s[k]);
        }
        lemma_trailing_ws(t, j);
    }
}

/// The bounds of `trimmed(s@)` within `s`.
pub fn trim_bounds(s: &Vec<char>) -> (r: (usize, usize))
    ensures
        r.0 <= r.1 <= s.len(),
        s@.subrange(r.0 as int, r.1 as int) == trimmed(s@),
{
    let mut lo: usize = 0;
    while lo < s.len() && char_is_whitespace(s[lo])
        invariant
            lo <= s.len(),
            forall|k: int| 0 <= k < lo ==> is_whitespace(#[trigger] s@[k]),
        decreases s.len() - lo,
    {
        lo = lo + 1;
    }
    proof { lemma_leading_ws(s@, lo as int); }
    let ghost r = s@.skip(lo as int);
    let mut hi: usize = s.len();
    while hi > lo && char_is_whitespace(s[hi - 1])
        invariant
            lo <= hi <= s.len(),
            forall|k: int| hi <= k < s.len() ==> is_whitespace(#[trigger] s@[k]),
        decreases hi,
    {
        hi = hi - 1;
    }
    proof {
        assert forall|k: int| hi - lo <= k < r.len() implies is_whitespace(#[trigger] r[k]) by {
            assert(r[k] == s@[k + lo]);
        }
        if hi > lo {
            assert(r[hi - lo - 1] == s@[hi - 1]);
        }
        lemma_trailing_ws(r, hi - lo);
        assert(s@.subrange(lo as int, hi as int) =~= trimmed(s@));
    }
    (lo, hi)
}

/// Copies `s[lo..hi]` into a new `String`.
pub fn string_of_range(s: &Vec<char>, lo: usize, hi: usize) -> (r: String)
    requires
        lo <= hi <= s.len(),
    ensures
        r@ == s@.subrange(lo as int, hi as int),
{
    let mut out = String::new();
    let mut i = lo;
    while i < hi
        invariant
            lo <= i <= hi <= s.len(),
            out@ == s@.subrange(lo as int, i as int),
        decreases hi - i,
    {
        push_char(&mut out, s[i]);
        assert(s@.subrange(lo as int, i + 1) =~= s@.subrange(lo as int, i as int).push(s@[i as int]));
        i = i + 1;
    }
    out
}

/// The first `n` characters of `v` (all of them when it is shorter).
pub fn prefix_chars(v: &Vec<char>, n: usize) -> (r: Vec<char>)
    ensures
        r@ == v@.take(if n < v@.len() { n as int } else { v@.len() as int }),
{
    let hi = if n < v.len() { n } else { v.len() };
    let mut r: Vec<char> = Vec::new();
    for i in 0..hi
        invariant
            hi <= v.len(),
            r@ == v@.take(i as int),
    {
        r.push(v[i]);
        assert(v@.take(i + 1) =~= v@.take(i as int).push(v@[i as int]));
    }
    r
}

/// `s` without leading and trailing whitespace (as `str::trim`).
pub fn trim(s: &str) -> (r: String)
    ensures
        r@ == trimmed(s@),
{
    let v = chars_of(s);
    let (lo, hi) = trim_bounds(&v);
    string_of_range(&v, lo, hi)
}

/// The first `n` characters of `s` (all of them if it is shorter), as
/// `s.chars().take(n).collect::<String>()` gives.
pub fn take_chars(s: &str, n: usize) -> (r: String)
    ensures
        r@ == s@.take(if n < s@.len() { n as int } else { s@.len() as int }),
{
    let v = chars_of(s);
    let hi = if n < v.len() { n } else { v.len() };
    let r = string_of_range(&v, 0, hi);
    assert(v@.subrange(0, hi as int) =~= v@.take(hi as int));
    r
}

// ---------------------------------------------------------------------------
// Lexicographic order (as `Ord` for `str` compares)
// ---------------------------------------------------------------------------

/// `a` sorts strictly before `b`. Comparing UTF-8 bytes, as `str` does,
/// orders strings exactly as comparing their code points.
pub open spec fn str_lt(a: Seq<char>, b: Seq<char>) -> bool
    decreases a.len(),
{
    if a.len() == 0 {
        b.len() > 0
    } else if b.len() == 0 {
        false
    } else if a[0] != b[0] {
        (a[0] as int) < (b[0] as int)
    } else {
        str_lt(a.drop_first(), b.drop_first())
    }
}

/// `str_lt` is irreflexive.
pub proof fn lemma_str_lt_irreflexive(a: Seq<char>)
    ensures
        !str_lt(a, a),
    decreases a.len(),
{
    if a.len() > 0 {
        lemma_str_lt_irreflexive(a.drop_first());
    }
}

/// `str_lt` is transitive.
pub proof fn lemma_str_lt_transitive(a: Seq<char>, b: Seq<char>, c: Seq<char>)
    requires
        str_lt(a, b),
        str_lt(b, c),
    ensures
        str_lt(a, c),
    decreases a.len(),
{
    if a.len() > 0 && b.len() > 0 && c.len() > 0 && a[0] == b[0] && b[0] == c[0] {
        lemma_str_lt_transitive(a.drop_first(), b.drop_first(), c.drop_first());
    }
}

/// `str_lt` is total on distinct strings, and asymmetric.
pub proof fn lemma_str_lt_total(a: Seq<char>, b: Seq<char>)
    ensures
        a != b ==> (str_lt(a, b) || str_lt(b, a)),
        !(str_lt(a, b) && str_lt(b, a)),
    decreases a.len(),
{
    if a.len() > 0 && b.len() > 0 && a[0] == b[0] {
        lemma_str_lt_total(a.drop_first(), b.drop_first());
        if a.drop_first() == b.drop_first() {
            assert(a =~= seq![a[0]] + a.drop_first());
            assert(b =~= seq![b[0]] + b.drop_first());
        }
    } else if a.len() == 0 && b.len() == 0 {
        assert(a =~= b);
    }
}

/// Decides `str_lt(a@, b@)`.
pub fn chars_lt(a: &Vec<char>, b: &Vec<char>) -> (r: bool)
    ensures
        r == str_lt(a@, b@),
{
    let mut i: usize = 0;
    assert(a@.skip(0) =~= a@);
    assert(b@.skip(0) =~= b@);
    while i < a.len() && i < b.len() && a[i] == b[i]
        invariant
            i <= a.len(),
            i <= b.len(),
            str_lt(a@, b@) == str_lt(a@.skip(i as int), b@.skip(i as int)),
        decreases a.len() - i,
    {
        assert(a@.skip(i as int).drop_first() =~= a@.skip(i + 1));
        assert(b@.skip(i as int).drop_first() =~= b@.skip(i + 1));
        i = i + 1;
    }
    if i == a.len() {
        i < b.len()
    } else if i == b.len() {
        false
    } else {
        a[i] < b[i]
    }
}

// ---------------------------------------------------------------------------
// Character replacement (as `str::replace` with a character pattern)
// ---------------------------------------------------------------------------

/// Each character of `s` replaced by `f` of it, the pieces joined in order.
pub open spec fn flat_map_chars(s: Seq<char>, f: spec_fn(char) -> Seq<char>) -> Seq<char>
    decreases s.len(),
{
    if s.len() == 0 {
        seq![]
    } else {
        flat_map_chars(s.drop_last(), f) + f(s.last())
    }
}

/// One more character extends the mapped prefix by its image.
pub proof fn lemma_flat_map_step(s: Seq<char>, i: int, f: spec_fn(char) -> Seq<char>)
    requires
        0 <= i < s.len(),
    ensures
        flat_map_chars(s.take(i + 1), f) == flat_map_chars(s.take(i), f) + f(s[i]),
{
    assert(s.take(i + 1).drop_last() =~= s.take(i));
}

/// Mapping distributes over concatenation.
pub proof fn lemma_flat_map_append(a: Seq<char>, b: Seq<char>, f: spec_fn(char) -> Seq<char>)
    ensures
        flat_map_chars(a + b, f) == flat_map_chars(a, f) + flat_map_chars(b, f),
    decreases b.len(),
{
    if b.len() == 0 {
        assert(a + b =~= a);
    } else {
        assert((a + b).drop_last() =~= a + b.drop_last());
        lemma_flat_map_append(a, b.drop_last(), f);
        assert(flat_map_chars(a, f) + flat_map_chars(b.drop_last(), f) + f(b.last())
            =~= flat_map_chars(a, f) + (flat_map_chars(b.drop_last(), f) + f(b.last())));
    }
}

/// Mapping a string equals mapping its first character, then the rest.
pub proof fn lemma_flat_map_first(s: Seq<char>, f: spec_fn(char) -> Seq<char>)
    requires
        s.len() > 0,
    ensures
        flat_map_chars(s, f) == f(s[0]) + flat_map_chars(s.drop_first(), f),
{
    assert(s =~= seq![s[0]] + s.drop_first());
    lemma_flat_map_append(seq![s[0]], s.drop_first(), f);
    assert(seq![s[0]].drop_last() =~= Seq::<char>::empty());
    assert(flat_map_chars(Seq::<char>::empty(), f) == Seq::<char>::empty());
    assert(flat_map_chars(seq![s[0]], f) =~= f(s[0]));
}

/// The character map that sends `from` to `to` and keeps every other character.
pub open spec fn replace_fn(from: char, to: Seq<char>) -> spec_fn(char) -> Seq<char> {
    |c: char| if c == from { to } else { seq![c] }
}

/// `s` with every `from` replaced by `to`.
pub open spec fn replaced(s: Seq<char>, from: char, to: Seq<char>) -> Seq<char> {
    flat_map_chars(s, replace_fn(from, to))
}

/// `s` with every `from` replaced by `to` (as `str::replace(from, to)`).
pub fn replace_char(s: &str, from: char, to: &str) -> (r: String)
    ensures
        r@ == replaced(s@, from, to@),
{
    let v = chars_of(s);
    let ghost f = replace_fn(from, to@);
    let mut out = String::new();
    for i in 0..v.len()
        invariant
            v@ == s@,
            f == replace_fn(from, to@),
            out@ == flat_map_chars(v@.take(i as int), f),
    {
        proof { lemma_flat_map_step(v@, i as int, f); }
        if v[i] == from {
            out.append(to);
        } else {
            push_char(&mut out, v[i]);
            assert(f(v@[i as int]) =~= seq![v@[i as int]]);
        }
    }
    assert(v@.take(v@.len() as int) =~= v@);
    assert(out@ == flat_map_chars(s@, f));
    out
}

// ---------------------------------------------------------------------------
// Upper case (std's `str::to_uppercase`)
// ---------------------------------------------------------------------------

/// What `str::to_uppercase` returns for a string: its Unicode upper-case
/// mapping, which takes tables to state and depends on the string alone.
pub uninterp spec fn spec_to_uppercase(s: Seq<char>) -> Seq<char>;

/// An ASCII character.
pub open spec fn is_ascii_char(c: char) -> bool {
    (c as int) < 128
}

/// The ASCII upper case of a character: `a`..`z` become `A`..`Z`.
pub open spec fn ascii_upper_char(c: char) -> char {
    if 97 <= (c as int) <= 122 {
        ((c as int) - 32) as char
    } else {
        c
    }
}

/// `s` with its ASCII letters upper-cased, one character for one.
pub open spec fn ascii_upper(s: Seq<char>) -> Seq<char> {
    Seq::new(s.len(), |i: int| ascii_upper_char(s[i]))
}

/// Upper-cases `s` with std's `str::to_uppercase`.
/// Trusted: the result is `spec_to_uppercase` of the characters of `s`; on an
/// all-ASCII string that is the ASCII upper case (the Unicode mapping sends
/// `a`..`z` to `A`..`Z` and keeps every other ASCII character). Nothing more
/// about the Unicode mapping is claimed.
#[verifier::external_body]
pub(crate) fn to_uppercase(s: &str) -> (r: String)
    ensures
        r@ == spec_to_uppercase(s@),
        (forall|i: int| 0 <= i < s@.len() ==> is_ascii_char(#[trigger] s@[i])) ==> r@ == ascii_upper(
            s@,
        ),
{
    s.to_uppercase()
}


// ---------------------------------------------------------------------------
// Order of zero-padded numbers
// ---------------------------------------------------------------------------

/// A common prefix does not change the order.
pub proof fn lemma_str_lt_common_prefix(p: Seq<char>, a: Seq<char>, b: Seq<char>)
    ensures
        str_lt(p + a, p + b) == str_lt(a, b),
    decreases p.len(),
{
    if p.len() == 0 {
        assert(p + a =~= a);
        assert(p + b =~= b);
    } else {
        assert((p + a).drop_first() =~= p.drop_first() + a);
        assert((p + b).drop_first() =~= p.drop_first() + b);
        lemma_str_lt_common_prefix(p.drop_first(), a, b);
    }
}

/// A string that sorts before `b` sorts before every extension of `b`.
pub proof fn lemma_str_lt_append_right(a: Seq<char>, b: Seq<char>, r: Seq<char>)
    requires
        str_lt(a, b),
    ensures
        str_lt(a, b + r),
    decreases a.len(),
{
    assert((b + r)[0] == b[0]);
    if a.len() > 0 && a[0] == b[0] {
        assert((b + r).drop_first() =~= b.drop_first() + r);
        lemma_str_lt_append_right(a.drop_first(), b.drop_first(), r);
    }
}

/// Between strings of equal length, whatever follows does not change the order.
pub proof fn lemma_str_lt_extend(x: Seq<char>, y: Seq<char>, r1: Seq<char>, r2: Seq<char>)
    requires
        x.len() == y.len(),
        str_lt(x, y),
    ensures
        str_lt(x + r1, y + r2),
    decreases x.len(),
{
    assert((x + r1)[0] == x[0]);
    assert((y + r2)[0] == y[0]);
    if x[0] == y[0] {
        assert((x + r1).drop_first() =~= x.drop_first() + r1);
        assert((y + r2).drop_first() =~= y.drop_first() + r2);
        lemma_str_lt_extend(x.drop_first(), y.drop_first(), r1, r2);
    }
}

/// Digit strings of equal length and value are equal.
proof fn lemma_digits_injective(x: Seq<char>, y: Seq<char>)
    requires
        x.len() == y.len(),
        all_digits(x),
        all_digits(y),
        digits_value(x) == digits_value(y),
    ensures
        x == y,
    decreases x.len(),
{
    if x.len() > 0 {
        let (a, b) = (digits_value(x.drop_last()), digits_value(y.drop_last()));
        let (d, e) = (digit_value(x.last()), digit_value(y.last()));
        assert(is_digit(x[x.len() - 1]) && is_digit(y[y.len() - 1]));
        assert(a == b && d == e) by (nonlinear_arith)
            requires
                a * 10 + d == b * 10 + e,
                d < 10,
                e < 10,
                a >= 0,
                b >= 0,
        ;
        assert(all_digits(x.drop_last()));
        assert(all_digits(y.drop_last()));
        lemma_digits_injective(x.drop_last(), y.drop_last());
        assert(x =~= x.drop_last().push(x.last()));
        assert(y =~= y.drop_last().push(y.last()));
    } else {
        assert(x =~= y);
    }
}

/// Between digit strings of equal length, the smaller number sorts first.
pub proof fn lemma_digits_order(x: Seq<char>, y: Seq<char>)
    requires
        x.len() == y.len(),
        all_digits(x),
        all_digits(y),
        digits_value(x) < digits_value(y),
    ensures
        str_lt(x, y),
    decreases x.len(),
{
    let (xp, yp) = (x.drop_last(), y.drop_last());
    let (a, b) = (digits_value(xp), digits_value(yp));
    let (d, e) = (digit_value(x.last()), digit_value(y.last()));
    assert(is_digit(x[x.len() - 1]) && is_digit(y[y.len() - 1]));
    assert(all_digits(xp));
    assert(all_digits(yp));
    assert(x =~= xp + seq![x.last()]);
    assert(y =~= yp + seq![y.last()]);
    if a < b {
        lemma_digits_order(xp, yp);
        lemma_str_lt_extend(xp, yp, seq![x.last()], seq![y.last()]);
    } else {
        assert(a == b && d < e) by (nonlinear_arith)
            requires
                a * 10 + d < b * 10 + e,
                a >= b,
                d < 10,
                e < 10,
                d >= 0,
        ;
        lemma_digits_injective(xp, yp);
        lemma_str_lt_common_prefix(xp, seq![x.last()], seq![y.last()]);
        assert(str_lt(seq![x.last()], seq![y.last()]));
    }
}

/// Leading zeros do not change the value of a digit string.
proof fn lemma_leading_zeros(k: int, s: Seq<char>)
    requires
        all_digits(s),
    ensures
        all_digits(zeros(k) + s),
        digits_value(zeros(k) + s) == digits_value(s),
    decreases s.len(), if k > 0 { k } else { 0 },
{
    let z = zeros(k);
    assert forall|i: int| 0 <= i < (z + s).len() implies is_digit(#[trigger] (z + s)[i]) by {
        if i >= z.len() {
            assert((z + s)[i] == s[i - z.len()]);
        }
    }
    if s.len() > 0 {
        assert((z + s).drop_last() =~= z + s.drop_last());
        assert((z + s).last() == s.last());
        assert(all_digits(s.drop_last()));
        lemma_leading_zeros(k, s.drop_last());
    } else if k > 0 {
        assert(z + s =~= zeros(k - 1).push('0'));
        assert(zeros(k - 1) + s =~= zeros(k - 1));
        lemma_leading_zeros(k - 1, s);
        assert(digits_value(s) == 0);
        assert((z + s).drop_last() =~= zeros(k - 1));
        assert((z + s).last() == '0');
        assert(digit_value('0') == 0);
    } else {
        assert(z + s =~= Seq::<char>::empty());
    }
}

/// A number that fits in `width` digits, zero-padded: `width` digits denoting it.
pub proof fn lemma_zero_padded_digits(n: nat, width: nat)
    requires
        decimal(n).len() <= width,
    ensures
        zero_padded(n as int, width).len() == width,
        all_digits(zero_padded(n as int, width)),
        digits_value(zero_padded(n as int, width)) == n,
{
    lemma_decimal_digits(n);
    let k = width - decimal(n).len();
    assert(zero_padded(n as int, width) =~= zeros(k) + decimal(n));
    lemma_leading_zeros(k, decimal(n));
}

/// Larger numbers never have fewer digits.
pub proof fn lemma_decimal_len_monotone(a: nat, b: nat)
    requires
        a <= b,
    ensures
        decimal(a).len() <= decimal(b).len(),
    decreases b,
{
    if b >= 10 && a >= 10 {
        lemma_decimal_len_monotone(a / 10, b / 10);
    }
}

/// Law: ids zero-padded to a width that holds the larger one sort as numbers.
pub proof fn lemma_zero_padded_order(a: nat, b: nat, width: nat)
    requires
        a < b,
        decimal(b).len() <= width,
    ensures
        str_lt(zero_padded(a as int, width), zero_padded(b as int, width)),
        zero_padded(a as int, width).len() == zero_padded(b as int, width).len(),
{
    lemma_decimal_len_monotone(a, b);
    lemma_zero_padded_digits(a, width);
    lemma_zero_padded_digits(b, width);
    lemma_digits_order(zero_padded(a as int, width), zero_padded(b as int, width));
}

} // verus!
