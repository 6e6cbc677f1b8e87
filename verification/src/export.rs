//! Text of the exported results: CSV and JSON escaping, file-name stems and
//! calendar dates for timestamps.
use vstd::prelude::*;
use crate::order::{insert_sorted, lemma_sorted_of, sorted_distinct, sorted_insert, sorted_of, views_of};
use crate::text::{chars_of, joined, str_is, string_of, trim_end, trim_end_chars};
use crate::fmt::{dec, dec_chars, dec_string, push_str};

verus! {

// ---------------------------------------------------------------------------
// CSV fields.

/// The field with each `"` doubled.
pub open spec fn double_quotes(s: Seq<char>) -> Seq<char>
    decreases s.len(),
{
    if s.len() == 0 {
        seq![]
    } else {
        (if s[0] == '"' {
            seq!['"', '"']
        } else {
            seq![s[0]]
        }) + double_quotes(s.drop_first())
    }
}

/// The characters that make a CSV field need quotes.
pub open spec fn csv_special(c: char) -> bool {
    c == ',' || c == '"' || c == '\n'
}

/// A CSV field: quoted, with inner quotes doubled, when it holds a comma, a
/// quote or a line feed; as it is otherwise.
pub open spec fn spec_csv_escape(s: Seq<char>) -> Seq<char> {
    if exists|k: int| 0 <= k < s.len() && #[trigger] csv_special(s[k]) {
        seq!['"'] + double_quotes(s) + seq!['"']
    } else {
        s
    }
}

proof fn lemma_double_quotes_push(s: Seq<char>, c: char)
    ensures
        double_quotes(s.push(c)) == double_quotes(s) + (if c == '"' {
            seq!['"', '"']
        } else {
            seq![c]
        }),
    decreases s.len(),
{
    if s.len() > 0 {
        lemma_double_quotes_push(s.drop_first(), c);
        assert(s.push(c).drop_first() =~= s.drop_first().push(c));
    } else {
        assert(s.push(c).drop_first() =~= s);
    }
}

/// Escapes a CSV field.
pub fn csv_escape(s: &str) -> (r: String)
    ensures
        r@ == spec_csv_escape(s@),
{
    let v = chars_of(s);
    let mut special = false;
    let mut body: Vec<char> = Vec::new();
    let mut i: usize = 0;
    while i < v.len()
        invariant
            i <= v.len(),
            body@ == double_quotes(v@.take(i as int)),
            special == (exists|k: int| 0 <= k < i && #[trigger] csv_special(v@[k])),
        decreases v.len() - i,
    {
        let c = v[i];
        proof {
            lemma_double_quotes_push(v@.take(i as int), c);
            assert(v@.take(i + 1) =~= v@.take(i as int).push(c));
        }
        if c == ',' || c == '"' || c == '\n' {
            assert(csv_special(v@[i as int]));
            special = true;
        }
        if c == '"' {
            body.push('"');
            body.push('"');
        } else {
            body.push(c);
        }
        i = i + 1;
    }
    assert(v@.take(i as int) =~= v@);
    assert(special == (exists|k: int| 0 <= k < v@.len() && #[trigger] csv_special(v@[k])));
    if special {
        let mut out: Vec<char> = Vec::new();
        out.push('"');
        let mut j: usize = 0;
        while j < body.len()
            invariant
                j <= body.len(),
                out@ == seq!['"'] + body@.take(j as int),
            decreases body.len() - j,
        {
            out.push(body[j]);
            j = j + 1;
            assert(out@ =~= seq!['"'] + body@.take(j as int));
        }
        out.push('"');
        assert(body@.take(j as int) =~= body@);
        string_of(&out)
    } else {
        s.to_owned()
    }
}

/// Reading back the inside of a quoted CSV field: each `""` is one `"`; a
/// lone `"` cannot stand there.
pub open spec fn csv_unquote(t: Seq<char>) -> Option<Seq<char>>
    decreases t.len(),
{
    if t.len() == 0 {
        Some(seq![])
    } else if t[0] == '"' {
        if t.len() >= 2 && t[1] == '"' {
            match csv_unquote(t.skip(2)) {
                Some(r) => Some(seq!['"'] + r),
                None => None,
            }
        } else {
            None
        }
    } else {
        match csv_unquote(t.drop_first()) {
            Some(r) => Some(seq![t[0]] + r),
            None => None,
        }
    }
}

/// Reading a CSV field back: a quoted one is unquoted, another is taken as
/// it is.
pub open spec fn csv_field_value(f: Seq<char>) -> Option<Seq<char>> {
    if f.len() >= 2 && f[0] == '"' && f.last() == '"' {
        csv_unquote(f.subrange(1, f.len() - 1))
    } else {
        Some(f)
    }
}

proof fn lemma_unquote_doubled(s: Seq<char>)
    ensures
        csv_unquote(double_quotes(s)) == Some(s),
    decreases s.len(),
{
    if s.len() > 0 {
        lemma_unquote_doubled(s.drop_first());
        let t = double_quotes(s);
        let r = double_quotes(s.drop_first());
        if s[0] == '"' {
            assert(t == seq!['"', '"'] + r);
            assert(t.skip(2) =~= r);
        } else {
            assert(t == seq![s[0]] + r);
            assert(t.drop_first() =~= r);
        }
        assert(seq![s[0]] + s.drop_first() =~= s);
    }
}

/// A CSV field reads back as the text it was made from: a text with no
/// comma, quote or line feed stands as it is, any other is quoted with its
/// quotes doubled, so that no lone quote is left inside.
pub proof fn law_csv_field_round_trip(s: Seq<char>)
    ensures
        csv_field_value(spec_csv_escape(s)) == Some(s),
        (forall|k: int| 0 <= k < s.len() ==> !csv_special(#[trigger] s[k])) ==> spec_csv_escape(s)
            == s,
        (exists|k: int| 0 <= k < s.len() && csv_special(#[trigger] s[k])) ==> spec_csv_escape(s)[0]
            == '"' && spec_csv_escape(s).last() == '"',
{
    let e = spec_csv_escape(s);
    if exists|k: int| 0 <= k < s.len() && #[trigger] csv_special(s[k]) {
        lemma_unquote_doubled(s);
        let d = double_quotes(s);
        assert(e.subrange(1, e.len() - 1) =~= d);
    } else {
        if s.len() >= 2 && s[0] == '"' {
            assert(csv_special(s[0]));
        }
    }
}

// ---------------------------------------------------------------------------
// JSON strings.

/// Lowercase hexadecimal digit of `d < 16`.
pub open spec fn hex_digit(d: nat) -> char {
    if d < 10 {
        crate::fmt::digit_char(d)
    } else if d == 10 {
        'a'
    } else if d == 11 {
        'b'
    } else if d == 12 {
        'c'
    } else if d == 13 {
        'd'
    } else if d == 14 {
        'e'
    } else {
        'f'
    }
}

/// How a JSON string writes one character.
pub open spec fn json_char(c: char) -> Seq<char> {
    if c == '"' {
        seq!['\\', '"']
    } else if c == '\\' {
        seq!['\\', '\\']
    } else if c == '\n' {
        seq!['\\', 'n']
    } else if c == '\r' {
        seq!['\\', 'r']
    } else if c == '\t' {
        seq!['\\', 't']
    } else if (c as nat) < 0x20 {
        seq!['\\', 'u', '0', '0', hex_digit((c as nat) / 16), hex_digit((c as nat) % 16)]
    } else {
        seq![c]
    }
}

/// The escaped characters of a JSON string, without the quotes.
pub open spec fn json_body(s: Seq<char>) -> Seq<char>
    decreases s.len(),
{
    if s.len() == 0 {
        seq![]
    } else {
        json_body(s.drop_last()) + json_char(s.last())
    }
}

/// A JSON string literal holding `s`.
pub open spec fn spec_json_string(s: Seq<char>) -> Seq<char> {
    seq!['"'] + json_body(s) + seq!['"']
}

/// The character whose code point is `v`.
pub open spec fn char_with_code(v: nat) -> char {
    (v as u32) as char
}

/// The value of a lowercase hexadecimal digit.
pub open spec fn hex_value(c: char) -> Option<nat> {
    if '0' <= c && c <= '9' {
        Some((c as nat - '0' as nat) as nat)
    } else if 'a' <= c && c <= 'f' {
        Some((c as nat - 'a' as nat + 10) as nat)
    } else {
        None
    }
}

/// The character that an escape `\` followed by `e` stands for, when `e`
/// is one of the short escapes.
pub open spec fn short_escape(e: char) -> Option<char> {
    if e == '"' {
        Some('"')
    } else if e == '\\' {
        Some('\\')
    } else if e == 'n' {
        Some('\n')
    } else if e == 'r' {
        Some('\r')
    } else if e == 't' {
        Some('\t')
    } else {
        None
    }
}

/// Reading back the inside of a JSON string: escapes are undone, and a
/// quote, a lone backslash or a control character standing as it is makes
/// the text no JSON string.
pub open spec fn json_unescape(t: Seq<char>) -> Option<Seq<char>>
    decreases t.len(),
{
    if t.len() == 0 {
        Some(seq![])
    } else if t[0] == '\\' {
        if t.len() >= 2 && short_escape(t[1]) is Some {
            match json_unescape(t.skip(2)) {
                Some(r) => Some(seq![short_escape(t[1])->0] + r),
                None => None,
            }
        } else if t.len() >= 6 && t[1] == 'u' && t[2] == '0' && t[3] == '0' && hex_value(t[4]) is Some
            && hex_value(t[5]) is Some {
            let v = hex_value(t[4])->0 * 16 + hex_value(t[5])->0;
            match json_unescape(t.skip(6)) {
                Some(r) => Some(seq![char_with_code(v)] + r),
                None => None,
            }
        } else {
            None
        }
    } else if t[0] == '"' || (t[0] as nat) < 0x20 {
        None
    } else {
        match json_unescape(t.drop_first()) {
            Some(r) => Some(seq![t[0]] + r),
            None => None,
        }
    }
}

proof fn lemma_hex_digit(d: nat)
    requires
        d < 16,
    ensures
        hex_value(hex_digit(d)) == Some(d),
{
}

proof fn lemma_json_body_cons(s: Seq<char>)
    requires
        s.len() > 0,
    ensures
        json_body(s) == json_char(s[0]) + json_body(s.drop_first()),
    decreases s.len(),
{
    if s.len() == 1 {
        assert(s.drop_last() =~= Seq::<char>::empty());
        assert(s.drop_first() =~= Seq::<char>::empty());
        assert(json_body(s.drop_last()) == Seq::<char>::empty());
        assert(json_body(s.drop_first()) == Seq::<char>::empty());
        assert(json_body(s) =~= json_char(s[0]) + json_body(s.drop_first()));
    } else {
        lemma_json_body_cons(s.drop_last());
        assert(s.drop_last().drop_first() =~= s.drop_first().drop_last());
        assert(s.drop_first().last() == s.last());
        assert(s.drop_last()[0] == s[0]);
        assert(json_body(s) =~= json_char(s[0]) + json_body(s.drop_first()));
    }
}

proof fn lemma_json_unescape_body(s: Seq<char>)
    ensures
        json_unescape(json_body(s)) == Some(s),
    decreases s.len(),
{
    if s.len() == 0 {
        assert(json_body(s) == Seq::<char>::empty());
    } else {
        let c = s[0];
        let rest = s.drop_first();
        lemma_json_body_cons(s);
        lemma_json_unescape_body(rest);
        let r = json_body(rest);
        let t = json_body(s);
        let e = json_char(c);
        assert(t == e + r);
        if c == '"' || c == '\\' || c == '\n' || c == '\r' || c == '\t' {
            assert(t.skip(2) =~= r);
        } else if (c as nat) < 0x20 {
            lemma_hex_digit((c as nat) / 16);
            lemma_hex_digit((c as nat) % 16);
            assert(t.skip(6) =~= r);
            let v = hex_value(t[4])->0 * 16 + hex_value(t[5])->0;
            assert(v == c as nat);
            vstd::utf8::char_u32_cast(c, c as u32);
            assert(char_with_code(v) == c);
        } else {
            assert(t.drop_first() =~= r);
        }
        assert(seq![c] + rest =~= s);
    }
}

/// A JSON string reads back as the text it was made from: it is quoted,
/// and inside it every quote, backslash and control character is escaped,
/// so that undoing the escapes gives the text again.
pub proof fn law_json_string_round_trip(s: Seq<char>)
    ensures
        spec_json_string(s)[0] == '"',
        spec_json_string(s).last() == '"',
        json_unescape(spec_json_string(s).subrange(1, spec_json_string(s).len() - 1)) == Some(s),
{
    let j = spec_json_string(s);
    assert(j.subrange(1, j.len() - 1) =~= json_body(s));
    lemma_json_unescape_body(s);
}

fn hex_of(d: u32) -> (c: char)
    requires
        d < 16,
    ensures
        c == hex_digit(d as nat),
{
    if d < 10 {
        crate::fmt::digit_of(d as u128)
    } else if d == 10 {
        'a'
    } else if d == 11 {
        'b'
    } else if d == 12 {
        'c'
    } else if d == 13 {
        'd'
    } else if d == 14 {
        'e'
    } else {
        'f'
    }
}

/// Appends how a JSON string writes `c`.
fn push_json_char(out: &mut Vec<char>, c: char)
    ensures
        final(out)@ == old(out)@ + json_char(c),
{
    if c == '"' {
        out.push('\\');
        out.push('"');
    } else if c == '\\' {
        out.push('\\');
        out.push('\\');
    } else if c == '\n' {
        out.push('\\');
        out.push('n');
    } else if c == '\r' {
        out.push('\\');
        out.push('r');
    } else if c == '\t' {
        out.push('\\');
        out.push('t');
    } else if (c as u32) < 0x20 {
        let n = c as u32;
        out.push('\\');
        out.push('u');
        out.push('0');
        out.push('0');
        out.push(hex_of(n / 16));
        out.push(hex_of(n % 16));
    } else {
        out.push(c);
    }
    assert(final(out)@ =~= old(out)@ + json_char(c));
}

/// A JSON string literal: quotes, backslashes and control characters
/// escaped.
pub fn json_string(s: &str) -> (r: String)
    ensures
        r@ == spec_json_string(s@),
{
    let v = chars_of(s);
    let mut out: Vec<char> = Vec::new();
    out.push('"');
    let mut i: usize = 0;
    while i < v.len()
        invariant
            i <= v.len(),
            out@ == seq!['"'] + json_body(v@.take(i as int)),
        decreases v.len() - i,
    {
        proof {
            assert(v@.take(i + 1).drop_last() =~= v@.take(i as int));
        }
        push_json_char(&mut out, v[i]);
        i = i + 1;
        assert(out@ =~= seq!['"'] + json_body(v@.take(i as int)));
    }
    out.push('"');
    assert(v@.take(i as int) =~= v@);
    string_of(&out)
}

// ---------------------------------------------------------------------------
// File names.

/// Characters kept in a file name; the others become `_`.
pub open spec fn file_safe(c: char) -> bool {
    ('a' <= c && c <= 'z') || ('A' <= c && c <= 'Z') || ('0' <= c && c <= '9') || c == '_'
        || c == '-' || c == '.'
}

/// A file-name-safe copy of `s`: each character outside `[A-Za-z0-9_.-]`
/// replaced by `_`.
pub open spec fn spec_sanitize(s: Seq<char>) -> Seq<char> {
    Seq::new(s.len(), |i: int| if file_safe(s[i]) { s[i] } else { '_' })
}

pub fn sanitize(s: &str) -> (r: String)
    ensures
        r@ == spec_sanitize(s@),
{
    let v = chars_of(s);
    let mut out: Vec<char> = Vec::new();
    let mut i: usize = 0;
    while i < v.len()
        invariant
            i <= v.len(),
            out@ == spec_sanitize(v@.take(i as int)),
        decreases v.len() - i,
    {
        let c = v[i];
        if ('a' <= c && c <= 'z') || ('A' <= c && c <= 'Z') || ('0' <= c && c <= '9') || c == '_'
            || c == '-' || c == '.' {
            out.push(c);
        } else {
            out.push('_');
        }
        i = i + 1;
        assert(out@ =~= spec_sanitize(v@.take(i as int)));
    }
    assert(v@.take(i as int) =~= v@);
    string_of(&out)
}

// ---------------------------------------------------------------------------
// Calendar dates.

proof fn lemma_month_day(doy: u32)
    requires
        doy <= 365,
    ensures
        (5 * doy + 2) / 153 <= 11,
        (153 * ((5 * doy + 2) / 153) + 2) / 5 <= doy,
        doy - (153 * ((5 * doy + 2) / 153) + 2) / 5 <= 30,
{
    assert((5 * doy + 2) / 153 <= 11 && (153 * ((5 * doy + 2) / 153) + 2) / 5 <= doy && doy - (153
        * ((5 * doy + 2) / 153) + 2) / 5 <= 30) by (bit_vector)
        requires
            doy <= 365,
    ;
}

proof fn lemma_year_of_era(doe: u32)
    requires
        doe <= 146096,
    ensures
        ({
            let yoe = (doe - doe / 1460 + doe / 36524 - doe / 146096) / 365;
            &&& yoe <= 399
            &&& 365 * yoe + yoe / 4 - yoe / 100 <= doe
            &&& doe - (365 * yoe + yoe / 4 - yoe / 100) <= 365
        }),
{
    assert({
        let yoe = (doe - doe / 1460 + doe / 36524 - doe / 146096) / 365;
        &&& yoe <= 399
        &&& 365 * yoe + yoe / 4 - yoe / 100 <= doe
        &&& doe - (365 * yoe + yoe / 4 - yoe / 100) <= 365
    }) by (bit_vector)
        requires
            doe <= 146096,
    ;
}

/// Days from 0000-03-01 to 1970-01-01 in the proleptic Gregorian calendar.
pub open spec fn epoch_shift() -> int {
    719_468
}

/// The calendar fields of a day within a 400-year era (`doe` days after
/// 0000-03-01 of the era): year of era, month and day, years counted from
/// March so that February ends them.
pub open spec fn era_date(doe: int) -> (int, int, int) {
    let yoe = (doe - doe / 1460 + doe / 36524 - doe / 146096) / 365;
    let doy = doe - (365 * yoe + yoe / 4 - yoe / 100);
    let mp = (5 * doy + 2) / 153;
    let d = doy - (153 * mp + 2) / 5 + 1;
    let m = if mp < 10 {
        mp + 3
    } else {
        mp - 9
    };
    (yoe, m, d)
}

/// A leap year of the proleptic Gregorian calendar.
pub open spec fn is_leap(y: int) -> bool {
    y % 4 == 0 && (y % 100 != 0 || y % 400 == 0)
}

/// The number of days of month `m` (1 to 12) of year `y`.
pub open spec fn days_in_month(y: int, m: int) -> int {
    if m == 2 {
        if is_leap(y) {
            29
        } else {
            28
        }
    } else if m == 4 || m == 6 || m == 9 || m == 11 {
        30
    } else {
        31
    }
}

proof fn lemma_month_len(doy: u32)
    requires
        doy <= 365,
    ensures
        ({
            let mp = (5 * doy + 2) / 153;
            let d = doy - (153 * mp + 2) / 5 + 1;
            &&& (mp == 1 || mp == 3 || mp == 6 || mp == 8) ==> d <= 30
            &&& mp == 11 ==> d <= 29 && (d == 29 ==> doy == 365)
        }),
{
    assert({
        let mp = (5 * doy + 2) / 153;
        let d = doy - (153 * mp + 2) / 5 + 1;
        &&& (mp == 1 || mp == 3 || mp == 6 || mp == 8) ==> d <= 30
        &&& mp == 11 ==> d <= 29 && (d == 29 ==> doy == 365)
    }) by (bit_vector)
        requires
            doy <= 365,
    ;
}

proof fn lemma_era_leap_day(doe: u32)
    requires
        doe <= 146096,
    ensures
        ({
            let yoe = (doe - doe / 1460 + doe / 36524 - doe / 146096) / 365;
            let doy = doe - (365 * yoe + yoe / 4 - yoe / 100);
            doy == 365 ==> (yoe + 1) % 4 == 0 && ((yoe + 1) % 100 != 0 || (yoe + 1) % 400 == 0)
        }),
{
    assert({
        let yoe = (doe - doe / 1460 + doe / 36524 - doe / 146096) / 365;
        let doy = doe - (365 * yoe + yoe / 4 - yoe / 100);
        doy == 365 ==> (yoe + 1) % 4 == 0 && ((yoe + 1) % 100 != 0 || (yoe + 1) % 400 == 0)
    }) by (bit_vector)
        requires
            doe <= 146096,
    ;
}

/// UTC calendar date and time of `secs` seconds after 1970-01-01T00:00:00:
/// `(year, month, day, hour, minute, second)`.
pub open spec fn civil_of(secs: nat) -> (int, int, int, int, int, int) {
    let days = secs / 86400;
    let tod = secs % 86400;
    let z = days + epoch_shift();
    let era = z / 146097;
    let doe = z % 146097;
    let (yoe, m, d) = era_date(doe);
    let y = yoe + era * 400;
    (if m <= 2 {
        y + 1
    } else {
        y
    }, m, d, (tod / 3600) as int, ((tod % 3600) / 60) as int, (tod % 60) as int)
}

/// Every timestamp falls on a real date and time of the proleptic
/// Gregorian calendar: a month from 1 to 12, a day within that month of
/// that year (the 29th of February in leap years only), an hour below 24,
/// and a minute and a second below 60.
pub proof fn law_civil_is_a_date(secs: nat)
    ensures
        ({
            let (y, m, d, h, mi, s) = civil_of(secs);
            &&& 1 <= m <= 12
            &&& 1 <= d <= days_in_month(y, m)
            &&& 0 <= h < 24
            &&& 0 <= mi < 60
            &&& 0 <= s < 60
        }),
{
    let days = secs / 86400;
    let z = days + epoch_shift();
    let era = z / 146097;
    let doe = z % 146097;
    let e = doe as u32;
    lemma_year_of_era(e);
    lemma_era_leap_day(e);
    let yoe = (e - e / 1460 + e / 36524 - e / 146096) / 365;
    let doy = (e - (365 * yoe + yoe / 4 - yoe / 100)) as u32;
    lemma_month_day(doy);
    lemma_month_len(doy);
    let a = yoe + 1;
    assert(era * 400 + a == 4 * (era * 100) + a && era * 400 + a == 100 * (era * 4) + a)
        by (nonlinear_arith);
    vstd::arithmetic::div_mod::lemma_mod_multiples_vanish(era * 100, a, 4);
    vstd::arithmetic::div_mod::lemma_mod_multiples_vanish(era * 4, a, 100);
    vstd::arithmetic::div_mod::lemma_mod_multiples_vanish(era, a, 400);
}

/// The UTC date and time of a Unix timestamp in seconds:
/// `(year, month, day, hour, minute, second)`. The year must fit an `i32`.
pub fn civil_from_secs(secs: u64) -> (r: (i32, u32, u32, u32, u32, u32))
    requires
        civil_of(secs as nat).0 <= i32::MAX,
    ensures
        r.0 == civil_of(secs as nat).0,
        r.1 == civil_of(secs as nat).1,
        r.2 == civil_of(secs as nat).2,
        r.3 == civil_of(secs as nat).3,
        r.4 == civil_of(secs as nat).4,
        r.5 == civil_of(secs as nat).5,
        1 <= r.1 <= 12,
        1 <= r.2 <= 31,
        r.3 < 24,
        r.4 < 60,
        r.5 < 60,
{
    let days: u64 = secs / 86400;
    let tod: u32 = (secs % 86400) as u32;
    let h: u32 = tod / 3600;
    let mi: u32 = (tod % 3600) / 60;
    let sec: u32 = tod % 60;
    let z: u64 = days + 719_468;
    let era: u64 = z / 146_097;
    let doe: u32 = (z % 146_097) as u32;
    proof {
        lemma_year_of_era(doe);
    }
    let yoe: u32 = (doe - doe / 1460 + doe / 36524 - doe / 146_096) / 365;
    let doy: u32 = doe - (365 * yoe + yoe / 4 - yoe / 100);
    proof {
        lemma_month_day(doy);
    }
    let mp: u32 = (5 * doy + 2) / 153;
    let d: u32 = doy - (153 * mp + 2) / 5 + 1;
    let m: u32 = if mp < 10 {
        mp + 3
    } else {
        mp - 9
    };
    let y_raw: u64 = yoe as u64 + era * 400;
    let y: u64 = if m <= 2 {
        y_raw + 1
    } else {
        y_raw
    };
    assert(era_date(doe as int) == (yoe as int, m as int, d as int));
    (y as i32, m, d, h, mi, sec)
}

/// `s` padded on the left with `0` to at least `w` characters.
pub open spec fn pad0(s: Seq<char>, w: nat) -> Seq<char>
    decreases w,
{
    if s.len() >= w {
        s
    } else {
        seq!['0'] + pad0(s, (w - 1) as nat)
    }
}

proof fn lemma_pad0_len(s: Seq<char>, w: nat)
    ensures
        pad0(s, w).len() == if s.len() >= w { s.len() } else { w },
    decreases w,
{
    if s.len() < w {
        lemma_pad0_len(s, (w - 1) as nat);
    }
}

/// Appends `n` in decimal, zero-padded to `w` digits (`{:0w}`).
fn push_padded(out: &mut Vec<char>, n: u64, w: usize)
    ensures
        final(out)@ == old(out)@ + pad0(dec(n as nat), w as nat),
{
    let digits = dec_chars(n as u128);
    let mut missing: usize = if digits.len() >= w {
        0
    } else {
        w - digits.len()
    };
    let ghost start = out@;
    proof {
        lemma_pad0_len(dec(n as nat), w as nat);
    }
    while missing > 0
        invariant
            missing <= w,
            digits@ == dec(n as nat),
            digits.len() + missing <= w || missing == 0,
            out@ + pad0(digits@, (digits.len() + missing) as nat) == start + pad0(digits@, w as nat),
        decreases missing,
    {
        out.push('0');
        missing = missing - 1;
        assert(pad0(digits@, (digits.len() + missing + 1) as nat) == seq!['0'] + pad0(digits@, (digits.len() + missing) as nat));
        assert(out@ + pad0(digits@, (digits.len() + missing) as nat) =~= start + pad0(digits@, w as nat));
    }
    assert(pad0(digits@, digits.len() as nat) == digits@);
    let mut i: usize = 0;
    let ghost mid = out@;
    while i < digits.len()
        invariant
            i <= digits.len(),
            out@ == mid + digits@.take(i as int),
        decreases digits.len() - i,
    {
        out.push(digits[i]);
        i = i + 1;
        assert(out@ =~= mid + digits@.take(i as int));
    }
    assert(digits@.take(i as int) =~= digits@);
}

/// The run label of a timestamp: `YYYYMMDD-HHMMSS` in UTC.
pub open spec fn spec_timestamp_text(secs: nat) -> Seq<char> {
    let (y, mo, d, h, mi, s) = civil_of(secs);
    pad0(dec(y as nat), 4) + pad0(dec(mo as nat), 2) + pad0(dec(d as nat), 2) + seq!['-']
        + pad0(dec(h as nat), 2) + pad0(dec(mi as nat), 2) + pad0(dec(s as nat), 2)
}

/// The run label of a Unix timestamp in seconds: `YYYYMMDD-HHMMSS` (UTC).
pub fn timestamp_text(secs: u64) -> (r: String)
    requires
        civil_of(secs as nat).0 <= i32::MAX,
    ensures
        r@ == spec_timestamp_text(secs as nat),
{
    let (y, mo, d, h, mi, s) = civil_from_secs(secs);
    assert(civil_of(secs as nat).0 >= 0);
    let mut out: Vec<char> = Vec::new();
    push_padded(&mut out, y as u64, 4);
    push_padded(&mut out, mo as u64, 2);
    push_padded(&mut out, d as u64, 2);
    out.push('-');
    push_padded(&mut out, h as u64, 2);
    push_padded(&mut out, mi as u64, 2);
    push_padded(&mut out, s as u64, 2);
    assert(out@ =~= spec_timestamp_text(secs as nat));
    string_of(&out)
}

proof fn lemma_zero_lead(s: Seq<char>)
    ensures
        crate::fmt::digits_value(seq!['0'] + s) == crate::fmt::digits_value(s),
    decreases s.len(),
{
    let t = seq!['0'] + s;
    if s.len() > 0 {
        lemma_zero_lead(s.drop_last());
        assert(t.drop_last() =~= seq!['0'] + s.drop_last());
        assert(t.last() == s.last());
    } else {
        assert(t.drop_last() =~= Seq::<char>::empty());
        assert(crate::fmt::digits_value(Seq::<char>::empty()) == 0);
        assert(t.last() == '0');
    }
}

proof fn lemma_pad0_value(s: Seq<char>, w: nat)
    ensures
        crate::fmt::digits_value(pad0(s, w)) == crate::fmt::digits_value(s),
    decreases w,
{
    if s.len() < w {
        lemma_pad0_value(s, (w - 1) as nat);
        lemma_zero_lead(pad0(s, (w - 1) as nat));
    }
}

proof fn lemma_dec_short(n: nat)
    ensures
        n < 100 ==> dec(n).len() <= 2,
        n < 10000 ==> dec(n).len() <= 4,
    decreases n,
{
    if n >= 10 {
        lemma_dec_short(n / 10);
        if n < 100 {
            assert(n / 10 < 10);
            assert(dec(n / 10).len() == 1);
        }
        if n < 10000 {
            assert(n / 10 < 1000);
            lemma_dec_short3(n / 10);
        }
    }
}

proof fn lemma_dec_short3(n: nat)
    ensures
        n < 1000 ==> dec(n).len() <= 3,
    decreases n,
{
    if n >= 10 {
        lemma_dec_short(n / 10);
    }
}

/// A field of the run label: `v` zero-padded to `w` digits reads back as
/// `v` and takes exactly `w` characters.
proof fn lemma_padded_field(v: nat, w: nat)
    requires
        (w == 2 && v < 100) || (w == 4 && v < 10000),
    ensures
        pad0(dec(v), w).len() == w,
        crate::fmt::digits_value(pad0(dec(v), w)) == v,
{
    lemma_dec_short(v);
    lemma_pad0_len(dec(v), w);
    lemma_pad0_value(dec(v), w);
    crate::scenario::lemma_dec_digits(v);
}

/// The run label `YYYYMMDD-HHMMSS` holds the calendar fields of the
/// timestamp in that order, each zero-padded to its width, so that each
/// reads back as its field.
pub proof fn law_timestamp_fields(secs: nat)
    requires
        civil_of(secs).0 < 10000,
    ensures
        ({
            let t = spec_timestamp_text(secs);
            let (y, mo, d, h, mi, s) = civil_of(secs);
            &&& t.len() == 15
            &&& t[8] == '-'
            &&& crate::fmt::digits_value(t.subrange(0, 4)) == y
            &&& crate::fmt::digits_value(t.subrange(4, 6)) == mo
            &&& crate::fmt::digits_value(t.subrange(6, 8)) == d
            &&& crate::fmt::digits_value(t.subrange(9, 11)) == h
            &&& crate::fmt::digits_value(t.subrange(11, 13)) == mi
            &&& crate::fmt::digits_value(t.subrange(13, 15)) == s
        }),
{
    law_civil_is_a_date(secs);
    let (y, mo, d, h, mi, s) = civil_of(secs);
    assert(y >= 0);
    lemma_padded_field(y as nat, 4);
    lemma_padded_field(mo as nat, 2);
    lemma_padded_field(d as nat, 2);
    lemma_padded_field(h as nat, 2);
    lemma_padded_field(mi as nat, 2);
    lemma_padded_field(s as nat, 2);
    let a = pad0(dec(y as nat), 4);
    let b = pad0(dec(mo as nat), 2);
    let c = pad0(dec(d as nat), 2);
    let e = pad0(dec(h as nat), 2);
    let f = pad0(dec(mi as nat), 2);
    let g = pad0(dec(s as nat), 2);
    let t = spec_timestamp_text(secs);
    assert(t == a + b + c + seq!['-'] + e + f + g);
    assert(t.subrange(0, 4) =~= a);
    assert(t.subrange(4, 6) =~= b);
    assert(t.subrange(6, 8) =~= c);
    assert(t.subrange(9, 11) =~= e);
    assert(t.subrange(11, 13) =~= f);
    assert(t.subrange(13, 15) =~= g);
}

/// The file-name stem of an export: `<label>_<timestamp>`, sanitized.
pub fn artifact_stem(label: &str, ts: &str) -> (r: String)
    ensures
        r@ == spec_sanitize(label@ + "_"@ + ts@),
{
    let mut joined = label.to_owned();
    push_str(&mut joined, "_");
    push_str(&mut joined, ts);
    sanitize(joined.as_str())
}

/// Where an export went: the CSV and JSON files written.
pub struct RunArtifacts {
    pub csv: String,
    pub json: String,
}


// ---------------------------------------------------------------------------
// Samples and the CSV and JSON files.

/// A sample as the exporters write it: its time in milliseconds since the
/// Unix epoch, its scenario, and its metrics by name with each value
/// already written as text.
#[derive(Debug)]
pub struct SampleText {
    pub ts_ms: u128,
    pub scenario: String,
    pub metrics: Vec<(String, String)>,
}

pub struct SampleView {
    pub ts_ms: nat,
    pub scenario: Seq<char>,
    pub metrics: Seq<(Seq<char>, Seq<char>)>,
}

pub open spec fn pairs_view(m: Seq<(String, String)>) -> Seq<(Seq<char>, Seq<char>)> {
    Seq::new(m.len(), |i: int| (m[i].0@, m[i].1@))
}

pub open spec fn sample_view(s: SampleText) -> SampleView {
    SampleView { ts_ms: s.ts_ms as nat, scenario: s.scenario@, metrics: pairs_view(s.metrics@) }
}

pub open spec fn samples_view(s: Seq<SampleText>) -> Seq<SampleView> {
    Seq::new(s.len(), |i: int| sample_view(s[i]))
}

/// The metric names of a sample, in its order.
pub open spec fn names_of(m: Seq<(Seq<char>, Seq<char>)>) -> Seq<Seq<char>> {
    Seq::new(m.len(), |i: int| m[i].0)
}

/// The metric names of all samples, in order, repeats included.
pub open spec fn all_names(s: Seq<SampleView>) -> Seq<Seq<char>>
    decreases s.len(),
{
    if s.len() == 0 {
        seq![]
    } else {
        all_names(s.drop_last()) + names_of(s.last().metrics)
    }
}

/// Every metric name that occurs, once, sorted: the columns of the CSV.
pub open spec fn metric_columns(s: Seq<SampleView>) -> Seq<Seq<char>> {
    sorted_of(all_names(s))
}

pub proof fn lemma_sorted_of_concat(a: Seq<Seq<char>>, b: Seq<Seq<char>>, j: int)
    requires
        0 <= j < b.len(),
    ensures
        sorted_of(a + b.take(j + 1)) == sorted_insert(sorted_of(a + b.take(j)), b[j]),
{
    assert((a + b.take(j + 1)).drop_last() =~= a + b.take(j));
}

/// The sorted metric names of the samples.
pub fn metric_names(samples: &Vec<SampleText>) -> (r: Vec<String>)
    ensures
        views_of(r@) == metric_columns(samples_view(samples@)),
        sorted_distinct(views_of(r@)),
{
    let ghost sv = samples_view(samples@);
    let mut r: Vec<String> = Vec::new();
    let mut i: usize = 0;
    assert(views_of(r@) =~= sorted_of(all_names(sv.take(0))));
    while i < samples.len()
        invariant
            i <= samples.len(),
            sv == samples_view(samples@),
            views_of(r@) == sorted_of(all_names(sv.take(i as int))),
            sorted_distinct(views_of(r@)),
        decreases samples.len() - i,
    {
        let m = &samples[i].metrics;
        let ghost a = all_names(sv.take(i as int));
        let ghost b = names_of(sv[i as int].metrics);
        assert(a + b.take(0) =~= a);
        let mut j: usize = 0;
        while j < m.len()
            invariant
                j <= m.len(),
                sv == samples_view(samples@),
                i < samples.len(),
                m == samples@[i as int].metrics,
                b == names_of(sv[i as int].metrics),
                b.len() == m.len(),
                views_of(r@) == sorted_of(a + b.take(j as int)),
                sorted_distinct(views_of(r@)),
            decreases m.len() - j,
        {
            proof {
                lemma_sorted_of_concat(a, b, j as int);
            }
            insert_sorted(&mut r, m[j].0.clone());
            j = j + 1;
        }
        proof {
            assert(b.take(m.len() as int) =~= b);
            assert(sv.take(i + 1).drop_last() =~= sv.take(i as int));
        }
        i = i + 1;
    }
    assert(sv.take(samples.len() as int) =~= sv);
    r
}

/// The value text of the first metric named `name`.
pub open spec fn value_of(m: Seq<(Seq<char>, Seq<char>)>, name: Seq<char>) -> Option<Seq<char>>
    decreases m.len(),
{
    if m.len() == 0 {
        None
    } else if m[0].0 == name {
        Some(m[0].1)
    } else {
        value_of(m.drop_first(), name)
    }
}

fn lookup(m: &Vec<(String, String)>, name: &str) -> (r: Option<String>)
    ensures
        match r {
            Some(v) => value_of(pairs_view(m@), name@) == Some(v@),
            None => value_of(pairs_view(m@), name@) is None,
        },
{
    let ghost pv = pairs_view(m@);
    let mut i: usize = 0;
    assert(pv.skip(0) =~= pv);
    while i < m.len()
        invariant
            i <= m.len(),
            pv == pairs_view(m@),
            value_of(pv, name@) == value_of(pv.skip(i as int), name@),
        decreases m.len() - i,
    {
        assert(pv.skip(i as int).drop_first() =~= pv.skip(i + 1));
        if str_is(m[i].0.as_str(), name) {
            assert(pv.skip(i as int)[0] == pv[i as int]);
            return Some(m[i].1.clone());
        }
        i = i + 1;
    }
    None
}

/// The CSV header after `timestamp_ms,scenario`: `,name` per column.
pub open spec fn csv_columns(names: Seq<Seq<char>>) -> Seq<char>
    decreases names.len(),
{
    if names.len() == 0 {
        seq![]
    } else {
        csv_columns(names.drop_last()) + ","@ + spec_csv_escape(names.last())
    }
}

/// The cells of a CSV row after the scenario: `,value` per column, empty
/// where the sample lacks the metric.
pub open spec fn csv_cells(m: Seq<(Seq<char>, Seq<char>)>, names: Seq<Seq<char>>) -> Seq<char>
    decreases names.len(),
{
    if names.len() == 0 {
        seq![]
    } else {
        csv_cells(m, names.drop_last()) + ","@ + match value_of(m, names.last()) {
            Some(v) => v,
            None => seq![],
        }
    }
}

pub open spec fn csv_row(s: SampleView, names: Seq<Seq<char>>) -> Seq<char> {
    dec(s.ts_ms) + ","@ + spec_csv_escape(s.scenario) + csv_cells(s.metrics, names) + "\n"@
}

pub open spec fn csv_rows(s: Seq<SampleView>, names: Seq<Seq<char>>) -> Seq<char>
    decreases s.len(),
{
    if s.len() == 0 {
        seq![]
    } else {
        csv_rows(s.drop_last(), names) + csv_row(s.last(), names)
    }
}

/// The CSV file: a header `timestamp_ms,scenario,<metric>...` and one row
/// per sample.
pub open spec fn spec_csv_text(s: Seq<SampleView>) -> Seq<char> {
    let names = metric_columns(s);
    "timestamp_ms,scenario"@ + csv_columns(names) + "\n"@ + csv_rows(s, names)
}

/// The text of the CSV file.
pub fn csv_text(samples: &Vec<SampleText>) -> (r: String)
    ensures
        r@ == spec_csv_text(samples_view(samples@)),
{
    let ghost sv = samples_view(samples@);
    let names = metric_names(samples);
    let ghost nv = views_of(names@);
    let mut out = "timestamp_ms,scenario".to_owned();
    let ghost head = out@;
    let mut k: usize = 0;
    assert(nv.take(0) =~= Seq::<Seq<char>>::empty());
    while k < names.len()
        invariant
            k <= names.len(),
            nv == views_of(names@),
            out@ == head + csv_columns(nv.take(k as int)),
        decreases names.len() - k,
    {
        assert(nv.take(k + 1).drop_last() =~= nv.take(k as int));
        push_str(&mut out, ",");
        let e = csv_escape(names[k].as_str());
        push_str(&mut out, e.as_str());
        k = k + 1;
    }
    assert(nv.take(names.len() as int) =~= nv);
    push_str(&mut out, "\n");
    let ghost top = out@;
    let mut i: usize = 0;
    assert(sv.take(0) =~= Seq::<SampleView>::empty());
    while i < samples.len()
        invariant
            i <= samples.len(),
            sv == samples_view(samples@),
            nv == views_of(names@),
            out@ == top + csv_rows(sv.take(i as int), nv),
        decreases samples.len() - i,
    {
        let s = &samples[i];
        let ghost before = out@;
        let t = dec_string(s.ts_ms);
        push_str(&mut out, t.as_str());
        push_str(&mut out, ",");
        let e = csv_escape(s.scenario.as_str());
        push_str(&mut out, e.as_str());
        let ghost cells_start = out@;
        let mut k: usize = 0;
        while k < names.len()
            invariant
                k <= names.len(),
                i < samples.len(),
                s == samples@[i as int],
                sv == samples_view(samples@),
                nv == views_of(names@),
                out@ == cells_start + csv_cells(sv[i as int].metrics, nv.take(k as int)),
            decreases names.len() - k,
        {
            assert(nv.take(k + 1).drop_last() =~= nv.take(k as int));
            push_str(&mut out, ",");
            match lookup(&s.metrics, names[k].as_str()) {
                Some(v) => push_str(&mut out, v.as_str()),
                None => {},
            }
            k = k + 1;
        }
        assert(nv.take(names.len() as int) =~= nv);
        push_str(&mut out, "\n");
        proof {
            assert(sv.take(i + 1).drop_last() =~= sv.take(i as int));
            assert(out@ =~= top + csv_rows(sv.take(i + 1), nv));
        }
        i = i + 1;
    }
    assert(sv.take(samples.len() as int) =~= sv);
    out
}


/// `"name": value` for each metric of a sample, by name, comma separated.
pub open spec fn json_metrics(m: Seq<(Seq<char>, Seq<char>)>, names: Seq<Seq<char>>) -> Seq<char>
    decreases names.len(),
{
    if names.len() == 0 {
        seq![]
    } else {
        json_metrics(m, names.drop_last()) + (if names.len() > 1 {
            ", "@
        } else {
            seq![]
        }) + spec_json_string(names.last()) + ": "@ + match value_of(m, names.last()) {
            Some(v) => v,
            None => seq![],
        }
    }
}

/// One sample of the JSON file (`last`: no comma after it).
pub open spec fn json_sample(s: SampleView, last: bool) -> Seq<char> {
    "    {"@ + "\"ts_ms\": "@ + dec(s.ts_ms) + ", \"scenario\": "@ + spec_json_string(s.scenario)
        + ", \"metrics\": {"@ + json_metrics(s.metrics, sorted_of(names_of(s.metrics))) + "}}"@
        + (if last {
        seq![]
    } else {
        ","@
    }) + "\n"@
}

pub open spec fn json_samples(s: Seq<SampleView>, n: nat) -> Seq<char>
    decreases s.len(),
{
    if s.len() == 0 {
        seq![]
    } else {
        json_samples(s.drop_last(), n) + json_sample(s.last(), s.len() == n)
    }
}

/// The JSON file: the label, when it was made, the sample count, the
/// summary (JSON text, see `summary_json`) and the samples.
pub open spec fn spec_json_text(label: Seq<char>, generated_ms: nat, summary: Seq<char>, s: Seq<SampleView>) -> Seq<char> {
    "{\n"@ + "  \"label\": "@ + spec_json_string(label) + ",\n"@ + "  \"generated_at_ms\": "@ + dec(
        generated_ms,
    ) + ",\n"@ + "  \"sample_count\": "@ + dec(s.len()) + ",\n"@ + "  \"summary\": "@ + summary
        + ",\n"@ + "  \"samples\": [\n"@ + json_samples(s, s.len()) + "  ]\n}\n"@
}

fn push_json_metrics(out: &mut String, m: &Vec<(String, String)>)
    ensures
        final(out)@ == old(out)@ + json_metrics(pairs_view(m@), sorted_of(names_of(pairs_view(m@)))),
{
    let mut names: Vec<String> = Vec::new();
    let ghost pv = pairs_view(m@);
    let ghost nm = names_of(pv);
    let mut j: usize = 0;
    assert(views_of(names@) =~= sorted_of(nm.take(0)));
    while j < m.len()
        invariant
            j <= m.len(),
            pv == pairs_view(m@),
            nm == names_of(pv),
            views_of(names@) == sorted_of(nm.take(j as int)),
            sorted_distinct(views_of(names@)),
        decreases m.len() - j,
    {
        assert(nm.take(j + 1).drop_last() =~= nm.take(j as int));
        insert_sorted(&mut names, m[j].0.clone());
        j = j + 1;
    }
    assert(nm.take(m.len() as int) =~= nm);
    let ghost nv = views_of(names@);
    let ghost start = out@;
    let mut k: usize = 0;
    assert(nv.take(0) =~= Seq::<Seq<char>>::empty());
    while k < names.len()
        invariant
            k <= names.len(),
            pv == pairs_view(m@),
            nv == views_of(names@),
            out@ == start + json_metrics(pv, nv.take(k as int)),
        decreases names.len() - k,
    {
        assert(nv.take(k + 1).drop_last() =~= nv.take(k as int));
        if k > 0 {
            push_str(out, ", ");
        }
        let key = json_string(names[k].as_str());
        push_str(out, key.as_str());
        push_str(out, ": ");
        match lookup(m, names[k].as_str()) {
            Some(v) => push_str(out, v.as_str()),
            None => {},
        }
        k = k + 1;
    }
    assert(nv.take(names.len() as int) =~= nv);
}

fn json_sample_text(s: &SampleText, last: bool) -> (r: String)
    ensures
        r@ == json_sample(sample_view(*s), last),
{
    let mut out = "    {".to_owned();
    push_str(&mut out, "\"ts_ms\": ");
    let t = dec_string(s.ts_ms);
    push_str(&mut out, t.as_str());
    push_str(&mut out, ", \"scenario\": ");
    let e = json_string(s.scenario.as_str());
    push_str(&mut out, e.as_str());
    push_str(&mut out, ", \"metrics\": {");
    push_json_metrics(&mut out, &s.metrics);
    push_str(&mut out, "}}");
    if !last {
        push_str(&mut out, ",");
    }
    push_str(&mut out, "\n");
    assert(out@ =~= json_sample(sample_view(*s), last));
    out
}

/// The text of the JSON file.
pub fn json_text(label: &str, generated_ms: u128, summary: &str, samples: &Vec<SampleText>) -> (r: String)
    ensures
        r@ == spec_json_text(label@, generated_ms as nat, summary@, samples_view(samples@)),
{
    let ghost sv = samples_view(samples@);
    let mut out = "{\n".to_owned();
    push_str(&mut out, "  \"label\": ");
    let l = json_string(label);
    push_str(&mut out, l.as_str());
    push_str(&mut out, ",\n");
    push_str(&mut out, "  \"generated_at_ms\": ");
    let g = dec_string(generated_ms);
    push_str(&mut out, g.as_str());
    push_str(&mut out, ",\n");
    push_str(&mut out, "  \"sample_count\": ");
    let c = dec_string(samples.len() as u128);
    push_str(&mut out, c.as_str());
    push_str(&mut out, ",\n");
    push_str(&mut out, "  \"summary\": ");
    push_str(&mut out, summary);
    push_str(&mut out, ",\n");
    push_str(&mut out, "  \"samples\": [\n");
    let ghost top = out@;
    let mut i: usize = 0;
    assert(sv.take(0) =~= Seq::<SampleView>::empty());
    while i < samples.len()
        invariant
            i <= samples.len(),
            sv == samples_view(samples@),
            out@ == top + json_samples(sv.take(i as int), sv.len()),
        decreases samples.len() - i,
    {
        let piece = json_sample_text(&samples[i], i + 1 == samples.len());
        push_str(&mut out, piece.as_str());
        proof {
            assert(sv.take(i + 1).drop_last() =~= sv.take(i as int));
            assert(out@ =~= top + json_samples(sv.take(i + 1), sv.len()));
        }
        i = i + 1;
    }
    assert(sv.take(samples.len() as int) =~= sv);
    push_str(&mut out, "  ]\n}\n");
    out
}

/// The figures of one metric, each already written as text.
#[derive(Debug)]
pub struct MetricStats {
    pub n: usize,
    pub mean: String,
    pub min: String,
    pub max: String,
    pub p95: String,
}

pub open spec fn stats_line(name: Seq<char>, st: MetricStats) -> Seq<char> {
    name + ": n="@ + dec(st.n as nat) + " mean="@ + st.mean@ + " min="@ + st.min@ + " max="@
        + st.max@ + " p95="@ + st.p95@ + "\n"@
}

pub open spec fn stats_lines(names: Seq<Seq<char>>, stats: Seq<MetricStats>) -> Seq<char>
    decreases names.len(),
{
    if names.len() == 0 {
        seq![]
    } else {
        stats_lines(names.drop_last(), stats) + stats_line(names.last(), stats[names.len() - 1])
    }
}

/// The summary shown after an export: a line per metric, or
/// `(no samples)`.
pub open spec fn spec_summary_text(names: Seq<Seq<char>>, stats: Seq<MetricStats>) -> Seq<char> {
    if names.len() == 0 {
        "(no samples)"@
    } else {
        trim_end(stats_lines(names, stats))
    }
}

/// The summary text for the metrics `names` with their figures.
pub fn summary_text(names: &Vec<String>, stats: &Vec<MetricStats>) -> (r: String)
    requires
        names.len() == stats.len(),
    ensures
        r@ == spec_summary_text(views_of(names@), stats@),
{
    if names.len() == 0 {
        return "(no samples)".to_owned();
    }
    let ghost nv = views_of(names@);
    let mut out = String::new();
    let mut k: usize = 0;
    assert(nv.take(0) =~= Seq::<Seq<char>>::empty());
    while k < names.len()
        invariant
            k <= names.len() == stats.len(),
            nv == views_of(names@),
            out@ == stats_lines(nv.take(k as int), stats@),
        decreases names.len() - k,
    {
        assert(nv.take(k + 1).drop_last() =~= nv.take(k as int));
        let st = &stats[k];
        push_str(&mut out, names[k].as_str());
        push_str(&mut out, ": n=");
        let n = dec_string(st.n as u128);
        push_str(&mut out, n.as_str());
        push_str(&mut out, " mean=");
        push_str(&mut out, st.mean.as_str());
        push_str(&mut out, " min=");
        push_str(&mut out, st.min.as_str());
        push_str(&mut out, " max=");
        push_str(&mut out, st.max.as_str());
        push_str(&mut out, " p95=");
        push_str(&mut out, st.p95.as_str());
        push_str(&mut out, "\n");
        k = k + 1;
    }
    assert(nv.take(names.len() as int) =~= nv);
    let v = chars_of(out.as_str());
    let t = trim_end_chars(&v);
    string_of(&t)
}

pub open spec fn stats_entry(name: Seq<char>, st: MetricStats) -> Seq<char> {
    spec_json_string(name) + ": {\"n\": "@ + dec(st.n as nat) + ", \"mean\": "@ + st.mean@
        + ", \"min\": "@ + st.min@ + ", \"max\": "@ + st.max@ + ", \"p95\": "@ + st.p95@ + "}"@
}

pub open spec fn stats_entries(names: Seq<Seq<char>>, stats: Seq<MetricStats>) -> Seq<char>
    decreases names.len(),
{
    if names.len() == 0 {
        seq![]
    } else {
        stats_entries(names.drop_last(), stats) + (if names.len() > 1 {
            ", "@
        } else {
            seq![]
        }) + stats_entry(names.last(), stats[names.len() - 1])
    }
}

fn stats_entry_text(name: &str, st: &MetricStats) -> (r: String)
    ensures
        r@ == stats_entry(name@, *st),
{
    let mut out = json_string(name);
    push_str(&mut out, ": {\"n\": ");
    let n = dec_string(st.n as u128);
    push_str(&mut out, n.as_str());
    push_str(&mut out, ", \"mean\": ");
    push_str(&mut out, st.mean.as_str());
    push_str(&mut out, ", \"min\": ");
    push_str(&mut out, st.min.as_str());
    push_str(&mut out, ", \"max\": ");
    push_str(&mut out, st.max.as_str());
    push_str(&mut out, ", \"p95\": ");
    push_str(&mut out, st.p95.as_str());
    push_str(&mut out, "}");
    assert(out@ =~= stats_entry(name@, *st));
    out
}

/// The summary of the JSON file: an object with the figures of each metric.
pub fn summary_json(names: &Vec<String>, stats: &Vec<MetricStats>) -> (r: String)
    requires
        names.len() == stats.len(),
    ensures
        r@ == "{"@ + stats_entries(views_of(names@), stats@) + "}"@,
{
    let ghost nv = views_of(names@);
    let mut out = "{".to_owned();
    let ghost start = out@;
    let mut k: usize = 0;
    assert(nv.take(0) =~= Seq::<Seq<char>>::empty());
    while k < names.len()
        invariant
            k <= names.len() == stats.len(),
            nv == views_of(names@),
            out@ == start + stats_entries(nv.take(k as int), stats@),
        decreases names.len() - k,
    {
        assert(nv.take(k + 1).drop_last() =~= nv.take(k as int));
        if k > 0 {
            push_str(&mut out, ", ");
        }
        let e = stats_entry_text(names[k].as_str(), &stats[k]);
        push_str(&mut out, e.as_str());
        assert(out@ =~= start + stats_entries(nv.take(k + 1), stats@));
        k = k + 1;
    }
    assert(nv.take(names.len() as int) =~= nv);
    push_str(&mut out, "}");
    out
}


/// The CSV columns after `timestamp_ms,scenario` are the metric names that
/// occur in the samples, each once, sorted.
pub proof fn law_columns_are_the_metrics(s: Seq<SampleView>)
    ensures
        sorted_distinct(metric_columns(s)),
        metric_columns(s).to_set() == all_names(s).to_set(),
{
    lemma_sorted_of(all_names(s));
}

// ---------------------------------------------------------------------------
// The layout of the exported text.

/// The JSON object of one sample, as it stands in the `samples` array.
pub open spec fn sample_object(s: SampleView) -> Seq<char> {
    "    {"@ + "\"ts_ms\": "@ + dec(s.ts_ms) + ", \"scenario\": "@ + spec_json_string(s.scenario)
        + ", \"metrics\": {"@ + json_metrics(s.metrics, sorted_of(names_of(s.metrics))) + "}}"@
}

/// The objects of the samples, in order.
pub open spec fn sample_objects(s: Seq<SampleView>) -> Seq<Seq<char>> {
    Seq::new(s.len(), |i: int| sample_object(s[i]))
}

proof fn lemma_json_sample_object(x: SampleView, last: bool)
    ensures
        json_sample(x, last) == sample_object(x) + (if last {
            seq![]
        } else {
            ","@
        }) + "\n"@,
        json_sample(x, last) == sample_object(x) + (if last {
            "\n"@
        } else {
            ",\n"@
        }),
{
    reveal_strlit(",\n");
    reveal_strlit(",");
    reveal_strlit("\n");
    assert(json_sample(x, last) =~= sample_object(x) + (if last {
        seq![]
    } else {
        ","@
    }) + "\n"@);
}

proof fn lemma_json_samples_before_last(s: Seq<SampleView>, n: nat)
    requires
        0 < s.len() < n,
    ensures
        json_samples(s, n) == joined(sample_objects(s), ",\n"@) + ",\n"@,
    decreases s.len(),
{
    let x = s.last();
    lemma_json_sample_object(x, false);
    let objs = sample_objects(s);
    assert(objs.last() == sample_object(x));
    if s.len() == 1 {
        assert(s.drop_last() =~= Seq::<SampleView>::empty());
        assert(json_samples(s.drop_last(), n) == Seq::<char>::empty());
        assert(json_samples(s, n) =~= sample_object(x) + ",\n"@);
    } else {
        lemma_json_samples_before_last(s.drop_last(), n);
        assert(objs.drop_last() =~= sample_objects(s.drop_last()));
        assert(json_samples(s, n) =~= joined(objs.drop_last(), ",\n"@) + ",\n"@ + objs.last()
            + ",\n"@);
    }
}

/// The samples of the JSON file are their objects separated by commas, one
/// per line: every sample but the last is followed by a comma, the last by
/// none.
pub proof fn law_json_samples_separated(s: Seq<SampleView>)
    ensures
        json_samples(s, s.len()) == (if s.len() == 0 {
            seq![]
        } else {
            joined(sample_objects(s), ",\n"@) + "\n"@
        }),
{
    if s.len() > 0 {
        let x = s.last();
        lemma_json_sample_object(x, true);
        let objs = sample_objects(s);
        assert(objs.last() == sample_object(x));
        if s.len() == 1 {
            assert(s.drop_last() =~= Seq::<SampleView>::empty());
            assert(json_samples(s.drop_last(), s.len()) == Seq::<char>::empty());
            assert(json_samples(s, s.len()) =~= sample_object(x) + "\n"@);
        } else {
            lemma_json_samples_before_last(s.drop_last(), s.len());
            assert(objs.drop_last() =~= sample_objects(s.drop_last()));
            assert(json_samples(s, s.len()) =~= joined(objs.drop_last(), ",\n"@) + ",\n"@
                + objs.last() + "\n"@);
        }
    }
}

/// The summary line of each metric with its own figures, in order.
pub open spec fn summary_lines(names: Seq<Seq<char>>, stats: Seq<MetricStats>) -> Seq<Seq<char>> {
    Seq::new(names.len(), |i: int| stats_line(names[i], stats[i]))
}

proof fn lemma_stats_lines(names: Seq<Seq<char>>, stats: Seq<MetricStats>)
    requires
        names.len() <= stats.len(),
    ensures
        stats_lines(names, stats) == summary_lines(names, stats).flatten_alt(),
    decreases names.len(),
{
    if names.len() > 0 {
        lemma_stats_lines(names.drop_last(), stats);
        assert(summary_lines(names, stats).drop_last() =~= summary_lines(names.drop_last(), stats));
    }
}

/// The summary has one line per metric, in order, each with the figures of
/// that metric (`stats[i]` for `names[i]`), trailing whitespace trimmed.
pub proof fn law_summary_lines(names: Seq<Seq<char>>, stats: Seq<MetricStats>)
    requires
        names.len() == stats.len(),
    ensures
        spec_summary_text(names, stats) == (if names.len() == 0 {
            "(no samples)"@
        } else {
            trim_end(summary_lines(names, stats).flatten())
        }),
{
    lemma_stats_lines(names, stats);
    summary_lines(names, stats).lemma_flatten_and_flatten_alt_are_equivalent();
}

/// The entry of each metric with its own figures, in order.
pub open spec fn summary_entries(names: Seq<Seq<char>>, stats: Seq<MetricStats>) -> Seq<Seq<char>> {
    Seq::new(names.len(), |i: int| stats_entry(names[i], stats[i]))
}

/// The JSON summary holds one entry per metric, in order and separated by
/// commas, each with the figures of that metric (`stats[i]` for
/// `names[i]`).
pub proof fn law_summary_entries(names: Seq<Seq<char>>, stats: Seq<MetricStats>)
    requires
        names.len() <= stats.len(),
    ensures
        stats_entries(names, stats) == joined(summary_entries(names, stats), ", "@),
    decreases names.len(),
{
    if names.len() > 0 {
        law_summary_entries(names.drop_last(), stats);
        assert(summary_entries(names, stats).drop_last() =~= summary_entries(
            names.drop_last(),
            stats,
        ));
        if names.len() == 1 {
            assert(stats_entries(names, stats) =~= stats_entry(names.last(), stats[0]));
        }
    }
}

/// The CSV rows, each the row of its own sample, in order.
pub open spec fn sample_rows(s: Seq<SampleView>, names: Seq<Seq<char>>) -> Seq<Seq<char>> {
    Seq::new(s.len(), |i: int| csv_row(s[i], names))
}

/// The CSV holds one row per sample, in order, each made from that sample.
pub proof fn law_csv_rows(s: Seq<SampleView>, names: Seq<Seq<char>>)
    ensures
        csv_rows(s, names) == sample_rows(s, names).flatten(),
{
    lemma_csv_rows(s, names);
    sample_rows(s, names).lemma_flatten_and_flatten_alt_are_equivalent();
}

proof fn lemma_csv_rows(s: Seq<SampleView>, names: Seq<Seq<char>>)
    ensures
        csv_rows(s, names) == sample_rows(s, names).flatten_alt(),
    decreases s.len(),
{
    if s.len() > 0 {
        lemma_csv_rows(s.drop_last(), names);
        assert(sample_rows(s, names).drop_last() =~= sample_rows(s.drop_last(), names));
    }
}

/// A sample's value under a metric name: that of its first pair with the
/// name, none when no pair has it.
pub proof fn law_value_of(m: Seq<(Seq<char>, Seq<char>)>, name: Seq<char>)
    ensures
        value_of(m, name) is None <==> forall|i: int| 0 <= i < m.len() ==> m[i].0 != name,
        value_of(m, name) matches Some(v) ==> exists|i: int|
            0 <= i < m.len() && m[i].0 == name && m[i].1 == v && forall|j: int| 0 <= j < i ==> m[j].0
                != name,
    decreases m.len(),
{
    if m.len() > 0 {
        let t = m.drop_first();
        law_value_of(t, name);
        assert forall|i: int| 0 <= i < t.len() implies t[i] == m[i + 1] by {}
        if m[0].0 != name {
            if value_of(t, name) is None {
                assert forall|i: int| 0 <= i < m.len() implies m[i].0 != name by {
                    if i > 0 {
                        assert(m[i] == t[i - 1]);
                    }
                }
            } else {
                let v = value_of(t, name)->0;
                let k = choose|k: int|
                    0 <= k < t.len() && t[k].0 == name && t[k].1 == v && forall|j: int|
                        0 <= j < k ==> t[j].0 != name;
                assert(m[k + 1] == t[k]);
                assert forall|j: int| 0 <= j < k + 1 implies m[j].0 != name by {
                    if j > 0 {
                        assert(m[j] == t[j - 1]);
                    }
                }
            }
            if forall|i: int| 0 <= i < m.len() ==> m[i].0 != name {
                assert forall|i: int| 0 <= i < t.len() implies t[i].0 != name by {
                    assert(t[i] == m[i + 1]);
                }
            }
        }
    }
}

/// The metric cells of a CSV row: for each column in order, a comma and
/// the sample's value there, nothing where it has none.
pub open spec fn row_cells(m: Seq<(Seq<char>, Seq<char>)>, names: Seq<Seq<char>>) -> Seq<Seq<char>> {
    Seq::new(
        names.len(),
        |i: int|
            ","@ + match value_of(m, names[i]) {
                Some(v) => v,
                None => seq![],
            },
    )
}

/// The CSV header columns: a comma and the escaped name of each, in order.
pub open spec fn header_cells(names: Seq<Seq<char>>) -> Seq<Seq<char>> {
    Seq::new(names.len(), |i: int| ","@ + spec_csv_escape(names[i]))
}

proof fn lemma_csv_cells(m: Seq<(Seq<char>, Seq<char>)>, names: Seq<Seq<char>>)
    ensures
        csv_cells(m, names) == row_cells(m, names).flatten_alt(),
        csv_columns(names) == header_cells(names).flatten_alt(),
    decreases names.len(),
{
    if names.len() > 0 {
        lemma_csv_cells(m, names.drop_last());
        assert(row_cells(m, names).drop_last() =~= row_cells(m, names.drop_last()));
        assert(header_cells(names).drop_last() =~= header_cells(names.drop_last()));
    }
}

/// The CSV header lists the columns in order, each escaped, and each row
/// has one cell per column, in the same order, holding the sample's value
/// for that column's metric.
pub proof fn law_csv_cells(m: Seq<(Seq<char>, Seq<char>)>, names: Seq<Seq<char>>)
    ensures
        csv_cells(m, names) == row_cells(m, names).flatten(),
        csv_columns(names) == header_cells(names).flatten(),
{
    lemma_csv_cells(m, names);
    row_cells(m, names).lemma_flatten_and_flatten_alt_are_equivalent();
    header_cells(names).lemma_flatten_and_flatten_alt_are_equivalent();
}

/// The metric entries of a JSON sample, one per name in order.
pub open spec fn metric_entries(m: Seq<(Seq<char>, Seq<char>)>, names: Seq<Seq<char>>) -> Seq<
    Seq<char>,
> {
    Seq::new(
        names.len(),
        |i: int|
            spec_json_string(names[i]) + ": "@ + match value_of(m, names[i]) {
                Some(v) => v,
                None => seq![],
            },
    )
}

/// The metrics of a JSON sample are one entry per name, in order and
/// separated by commas, each the quoted name and the sample's value.
pub proof fn law_json_metrics(m: Seq<(Seq<char>, Seq<char>)>, names: Seq<Seq<char>>)
    ensures
        json_metrics(m, names) == joined(metric_entries(m, names), ", "@),
    decreases names.len(),
{
    if names.len() > 0 {
        law_json_metrics(m, names.drop_last());
        assert(metric_entries(m, names).drop_last() =~= metric_entries(m, names.drop_last()));
        if names.len() == 1 {
            assert(names.drop_last() =~= Seq::<Seq<char>>::empty());
            assert(json_metrics(m, names.drop_last()) == Seq::<char>::empty());
            assert(json_metrics(m, names) =~= metric_entries(m, names)[0]);
        }
    }
}

/// A file-name-safe copy has the same length, only safe characters, and
/// keeps every safe character where it stands; so a label and timestamp
/// that are already safe give the stem `label_timestamp` unchanged.
pub proof fn law_sanitize(s: Seq<char>, label: Seq<char>, ts: Seq<char>)
    ensures
        spec_sanitize(s).len() == s.len(),
        forall|i: int| 0 <= i < s.len() ==> file_safe(#[trigger] spec_sanitize(s)[i]),
        forall|i: int| 0 <= i < s.len() && file_safe(s[i]) ==> #[trigger] spec_sanitize(s)[i] == s[i],
        (forall|i: int| 0 <= i < label.len() ==> file_safe(#[trigger] label[i])) && (forall|i: int|
            0 <= i < ts.len() ==> file_safe(#[trigger] ts[i])) ==> spec_sanitize(label + "_"@ + ts)
            == label + "_"@ + ts,
{
    reveal_strlit("_");
    let x = label + "_"@ + ts;
    if (forall|i: int| 0 <= i < label.len() ==> file_safe(#[trigger] label[i])) && (forall|i: int|
        0 <= i < ts.len() ==> file_safe(#[trigger] ts[i])) {
        assert forall|i: int| 0 <= i < x.len() implies file_safe(#[trigger] x[i]) by {
            if i < label.len() {
                assert(x[i] == label[i]);
            } else if i > label.len() {
                assert(x[i] == ts[i - label.len() - 1]);
            }
        }
        assert(spec_sanitize(x) =~= x);
    }
}

} // verus!
