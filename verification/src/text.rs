//! Character-sequence helpers shared by the parsers and formatters.
//!
//! Text is handled as sequences of `char`; each executable helper is tied to
//! a spec function over `Seq<char>` that says what it computes.
use vstd::prelude::*;

verus! {

broadcast use vstd::string::group_string_axioms;

/// Unicode `White_Space` property, as `char::is_whitespace` uses it.
pub open spec fn is_ws(c: char) -> bool {
    ||| ('\u{9}' <= c && c <= '\u{d}')
    ||| c == ' '
    ||| c == '\u{85}'
    ||| c == '\u{a0}'
    ||| c == '\u{1680}'
    ||| ('\u{2000}' <= c && c <= '\u{200a}')
    ||| c == '\u{2028}'
    ||| c == '\u{2029}'
    ||| c == '\u{202f}'
    ||| c == '\u{205f}'
    ||| c == '\u{3000}'
}

pub open spec fn is_digit(c: char) -> bool {
    '0' <= c && c <= '9'
}

/// Number of whitespace characters at the start of `s`.
pub open spec fn lead_ws(s: Seq<char>) -> nat
    decreases s.len(),
{
    if s.len() == 0 || !is_ws(s[0]) {
        0
    } else {
        1 + lead_ws(s.drop_first())
    }
}

/// Number of whitespace characters at the end of `s`.
pub open spec fn trail_ws(s: Seq<char>) -> nat
    decreases s.len(),
{
    if s.len() == 0 || !is_ws(s.last()) {
        0
    } else {
        1 + trail_ws(s.drop_last())
    }
}

/// `str::trim_start`.
pub open spec fn trim_start(s: Seq<char>) -> Seq<char> {
    s.skip(lead_ws(s) as int)
}

/// `str::trim_end`.
pub open spec fn trim_end(s: Seq<char>) -> Seq<char> {
    s.take(s.len() - trail_ws(s))
}

/// `str::trim`.
pub open spec fn trim(s: Seq<char>) -> Seq<char> {
    trim_end(trim_start(s))
}

/// Index of the first occurrence of `c` in `s`.
pub open spec fn find_char(s: Seq<char>, c: char) -> Option<nat>
    decreases s.len(),
{
    if s.len() == 0 {
        None
    } else if s[0] == c {
        Some(0)
    } else {
        match find_char(s.drop_first(), c) {
            Some(i) => Some(i + 1),
            None => None,
        }
    }
}

/// Index of the first whitespace character of `s`.
pub open spec fn find_ws(s: Seq<char>) -> Option<nat>
    decreases s.len(),
{
    if s.len() == 0 {
        None
    } else if is_ws(s[0]) {
        Some(0)
    } else {
        match find_ws(s.drop_first()) {
            Some(i) => Some(i + 1),
            None => None,
        }
    }
}

/// Index of the first character of `s` that is not an ASCII digit.
pub open spec fn find_non_digit(s: Seq<char>) -> Option<nat>
    decreases s.len(),
{
    if s.len() == 0 {
        None
    } else if !is_digit(s[0]) {
        Some(0)
    } else {
        match find_non_digit(s.drop_first()) {
            Some(i) => Some(i + 1),
            None => None,
        }
    }
}

pub open spec fn starts_with(s: Seq<char>, p: Seq<char>) -> bool {
    p.len() <= s.len() && s.take(p.len() as int) == p
}

/// One line as `str::lines` yields it: a trailing `'\r'` is dropped when a
/// `'\n'` ended the line.
pub open spec fn strip_cr(line: Seq<char>) -> Seq<char> {
    if line.len() > 0 && line.last() == '\r' {
        line.drop_last()
    } else {
        line
    }
}

/// `str::lines`: the text split at each `'\n'` (and `"\r\n"`); a final line
/// ending does not start another, empty line.
pub open spec fn lines(s: Seq<char>) -> Seq<Seq<char>>
    decreases s.len(),
{
    if s.len() == 0 {
        seq![]
    } else {
        match find_char(s, '\n') {
            Some(i) => {
                proof {
                    lemma_find_char_props(s, '\n');
                }
                seq![strip_cr(s.take(i as int))] + lines(s.skip(i as int + 1))
            },
            None => seq![s],
        }
    }
}

/// The views of a sequence of character vectors.
pub open spec fn views(v: Seq<Vec<char>>) -> Seq<Seq<char>> {
    Seq::new(v.len(), |i: int| v[i]@)
}

pub proof fn lemma_lead_ws(s: Seq<char>, i: int)
    requires
        0 <= i <= s.len(),
        forall|j: int| 0 <= j < i ==> is_ws(#[trigger] s[j]),
        i == s.len() || !is_ws(s[i]),
    ensures
        lead_ws(s) == i,
    decreases i,
{
    if i > 0 {
        lemma_lead_ws(s.drop_first(), i - 1);
    }
}

pub proof fn lemma_trail_ws(s: Seq<char>, k: int)
    requires
        0 <= k <= s.len(),
        forall|j: int| s.len() - k <= j < s.len() ==> is_ws(#[trigger] s[j]),
        k == s.len() || !is_ws(s[s.len() - k - 1]),
    ensures
        trail_ws(s) == k,
    decreases k,
{
    if k > 0 {
        lemma_trail_ws(s.drop_last(), k - 1);
    }
}

pub proof fn lemma_find_char(s: Seq<char>, c: char, i: int)
    requires
        0 <= i <= s.len(),
        forall|j: int| 0 <= j < i ==> #[trigger] s[j] != c,
    ensures
        i < s.len() && s[i] == c ==> find_char(s, c) == Some(i as nat),
        i == s.len() ==> find_char(s, c) is None,
    decreases i,
{
    if i > 0 {
        lemma_find_char(s.drop_first(), c, i - 1);
    }
}

pub proof fn lemma_find_ws(s: Seq<char>, i: int)
    requires
        0 <= i <= s.len(),
        forall|j: int| 0 <= j < i ==> !is_ws(#[trigger] s[j]),
    ensures
        i < s.len() && is_ws(s[i]) ==> find_ws(s) == Some(i as nat),
        i == s.len() ==> find_ws(s) is None,
    decreases i,
{
    if i > 0 {
        lemma_find_ws(s.drop_first(), i - 1);
    }
}

pub proof fn lemma_find_non_digit(s: Seq<char>, i: int)
    requires
        0 <= i <= s.len(),
        forall|j: int| 0 <= j < i ==> is_digit(#[trigger] s[j]),
    ensures
        i < s.len() && !is_digit(s[i]) ==> find_non_digit(s) == Some(i as nat),
        i == s.len() ==> find_non_digit(s) is None,
    decreases i,
{
    if i > 0 {
        lemma_find_non_digit(s.drop_first(), i - 1);
    }
}

/// What `find_char` returns is an occurrence, and the first one.
pub proof fn lemma_find_char_props(s: Seq<char>, c: char)
    ensures
        find_char(s, c) matches Some(i) ==> i < s.len() && s[i as int] == c && forall|j: int|
            0 <= j < i ==> s[j] != c,
        find_char(s, c) is None ==> forall|j: int| 0 <= j < s.len() ==> s[j] != c,
    decreases s.len(),
{
    if s.len() > 0 {
        lemma_find_char_props(s.drop_first(), c);
        assert forall|j: int| 1 <= j < s.len() implies s[j] == s.drop_first()[j - 1] by {}
    }
}

/// What `find_ws` returns is the first whitespace character.
pub proof fn lemma_find_ws_props(s: Seq<char>)
    ensures
        find_ws(s) matches Some(i) ==> i < s.len() && is_ws(s[i as int]) && forall|j: int|
            0 <= j < i ==> !is_ws(s[j]),
        find_ws(s) is None ==> forall|j: int| 0 <= j < s.len() ==> !is_ws(s[j]),
    decreases s.len(),
{
    if s.len() > 0 {
        lemma_find_ws_props(s.drop_first());
        assert forall|j: int| 1 <= j < s.len() implies s[j] == s.drop_first()[j - 1] by {}
    }
}

/// What `find_non_digit` returns is the first non-digit.
pub proof fn lemma_find_non_digit_props(s: Seq<char>)
    ensures
        find_non_digit(s) matches Some(i) ==> i < s.len() && !is_digit(s[i as int]) && forall|
            j: int,
        | 0 <= j < i ==> is_digit(s[j]),
        find_non_digit(s) is None ==> forall|j: int| 0 <= j < s.len() ==> is_digit(s[j]),
    decreases s.len(),
{
    if s.len() > 0 {
        lemma_find_non_digit_props(s.drop_first());
        assert forall|j: int| 1 <= j < s.len() implies s[j] == s.drop_first()[j - 1] by {}
    }
}

/// The leading whitespace is whitespace, and what follows it is not.
pub proof fn lemma_lead_ws_props(s: Seq<char>)
    ensures
        lead_ws(s) <= s.len(),
        forall|j: int| 0 <= j < lead_ws(s) ==> is_ws(#[trigger] s[j]),
        lead_ws(s) < s.len() ==> !is_ws(s[lead_ws(s) as int]),
    decreases s.len(),
{
    if s.len() > 0 && is_ws(s[0]) {
        lemma_lead_ws_props(s.drop_first());
        assert forall|j: int| 0 <= j < lead_ws(s) implies is_ws(#[trigger] s[j]) by {
            if j > 0 {
                assert(s[j] == s.drop_first()[j - 1]);
            }
        }
    }
}

/// The trailing whitespace is whitespace, and what precedes it is not.
pub proof fn lemma_trail_ws_props(s: Seq<char>)
    ensures
        trail_ws(s) <= s.len(),
        forall|j: int| s.len() - trail_ws(s) <= j < s.len() ==> is_ws(#[trigger] s[j]),
        trail_ws(s) < s.len() ==> !is_ws(s[s.len() - trail_ws(s) - 1]),
    decreases s.len(),
{
    if s.len() > 0 && is_ws(s.last()) {
        lemma_trail_ws_props(s.drop_last());
        assert forall|j: int| s.len() - trail_ws(s) <= j < s.len() implies is_ws(
            #[trigger] s[j],
        ) by {
            if j < s.len() - 1 {
                assert(s[j] == s.drop_last()[j]);
            }
        }
    }
}

/// No whitespace at the start.
pub open spec fn no_ws_start(s: Seq<char>) -> bool {
    s.len() == 0 || !is_ws(s[0])
}

/// No whitespace at the end.
pub open spec fn no_ws_end(s: Seq<char>) -> bool {
    s.len() == 0 || !is_ws(s.last())
}

/// Every character is whitespace.
pub open spec fn all_ws(s: Seq<char>) -> bool {
    forall|i: int| 0 <= i < s.len() ==> is_ws(#[trigger] s[i])
}

/// `c` does not occur in `s`.
pub open spec fn lacks(s: Seq<char>, c: char) -> bool {
    forall|i: int| 0 <= i < s.len() ==> #[trigger] s[i] != c
}

pub proof fn lemma_trim_start_ws_prefix(a: Seq<char>, b: Seq<char>)
    requires
        all_ws(a),
    ensures
        trim_start(a + b) == trim_start(b),
{
    lemma_lead_ws_props(b);
    let s = a + b;
    let k = a.len() + lead_ws(b);
    assert forall|j: int| 0 <= j < k implies is_ws(#[trigger] s[j]) by {
        if j >= a.len() {
            assert(s[j] == b[j - a.len()]);
        }
    }
    if k < s.len() {
        assert(s[k as int] == b[lead_ws(b) as int]);
    }
    lemma_lead_ws(s, k as int);
    assert(s.skip(k as int) =~= b.skip(lead_ws(b) as int));
}

pub proof fn lemma_trim_start_noop(x: Seq<char>)
    requires
        no_ws_start(x),
    ensures
        trim_start(x) == x,
{
    lemma_lead_ws(x, 0);
    assert(x.skip(0) =~= x);
}

pub proof fn lemma_trim_end_ws_suffix(a: Seq<char>, b: Seq<char>)
    requires
        all_ws(b),
    ensures
        trim_end(a + b) == trim_end(a),
{
    lemma_trail_ws_props(a);
    let s = a + b;
    let k = b.len() + trail_ws(a);
    assert forall|j: int| s.len() - k <= j < s.len() implies is_ws(#[trigger] s[j]) by {
        if j < a.len() {
            assert(s[j] == a[j]);
        } else {
            assert(s[j] == b[j - a.len()]);
        }
    }
    if k < s.len() {
        assert(s[s.len() - k - 1] == a[a.len() - trail_ws(a) - 1]);
    }
    lemma_trail_ws(s, k as int);
    assert(s.take(s.len() - k) =~= a.take(a.len() - trail_ws(a)));
}

pub proof fn lemma_trim_end_noop(x: Seq<char>)
    requires
        no_ws_end(x),
    ensures
        trim_end(x) == x,
{
    lemma_trail_ws(x, 0);
    assert(x.take(x.len() as int) =~= x);
}

/// What trimming leaves: no whitespace at either end, and a stretch of the
/// text that was trimmed.
pub proof fn lemma_trim_props(x: Seq<char>)
    ensures
        no_ws_start(trim_start(x)),
        no_ws_end(trim_end(x)),
        no_ws_start(trim(x)),
        no_ws_end(trim(x)),
        trim_start(x) == x.skip(lead_ws(x) as int),
        trim(x) == x.subrange(lead_ws(x) as int, (lead_ws(x) + trim(x).len()) as int),
        lead_ws(x) + trim(x).len() <= x.len(),
        no_ws_end(x) ==> no_ws_end(trim_start(x)),
        no_ws_start(x) ==> no_ws_start(trim_end(x)),
{
    lemma_lead_ws_props(x);
    let t = trim_start(x);
    lemma_trail_ws_props(t);
    lemma_trail_ws_props(x);
    if t.len() > 0 {
        assert(t[0] == x[lead_ws(x) as int]);
        assert(t.last() == x.last());
    }
    let e = trim_end(x);
    if e.len() > 0 {
        assert(e[0] == x[0]);
    }
    let tt = trim(x);
    if tt.len() > 0 {
        assert(tt[0] == t[0]);
        assert(tt.last() == t[t.len() - trail_ws(t) - 1]);
    }
    assert(tt =~= x.subrange(lead_ws(x) as int, (lead_ws(x) + tt.len()) as int));
}

/// `find_char` on a concatenation whose first part lacks the character.
pub proof fn lemma_find_char_concat(a: Seq<char>, b: Seq<char>, c: char)
    requires
        lacks(a, c),
    ensures
        find_char(a + b, c) == (match find_char(b, c) {
            Some(i) => Some(i + a.len()),
            None => None::<nat>,
        }),
{
    let s = a + b;
    lemma_find_char_props(b, c);
    match find_char(b, c) {
        Some(i) => {
            assert forall|j: int| 0 <= j < i + a.len() implies #[trigger] s[j] != c by {
                if j >= a.len() {
                    assert(s[j] == b[j - a.len()]);
                }
            }
            assert(s[(i + a.len()) as int] == b[i as int]);
            lemma_find_char(s, c, (i + a.len()) as int);
        },
        None => {
            assert forall|j: int| 0 <= j < s.len() implies #[trigger] s[j] != c by {
                if j >= a.len() {
                    assert(s[j] == b[j - a.len()]);
                }
            }
            lemma_find_char(s, c, s.len() as int);
        },
    }
}

/// `find_ws` on a concatenation whose first part has no whitespace.
pub proof fn lemma_find_ws_concat(a: Seq<char>, b: Seq<char>)
    requires
        forall|i: int| 0 <= i < a.len() ==> !is_ws(#[trigger] a[i]),
    ensures
        find_ws(a + b) == (match find_ws(b) {
            Some(i) => Some(i + a.len()),
            None => None::<nat>,
        }),
{
    let s = a + b;
    lemma_find_ws_props(b);
    match find_ws(b) {
        Some(i) => {
            assert forall|j: int| 0 <= j < i + a.len() implies !is_ws(#[trigger] s[j]) by {
                if j >= a.len() {
                    assert(s[j] == b[j - a.len()]);
                }
            }
            assert(s[(i + a.len()) as int] == b[i as int]);
            lemma_find_ws(s, (i + a.len()) as int);
        },
        None => {
            assert forall|j: int| 0 <= j < s.len() implies !is_ws(#[trigger] s[j]) by {
                if j >= a.len() {
                    assert(s[j] == b[j - a.len()]);
                }
            }
            lemma_find_ws(s, s.len() as int);
        },
    }
}

/// The lines of `str::lines` hold no line feed.
pub proof fn lemma_lines_no_newline(s: Seq<char>)
    ensures
        forall|k: int| 0 <= k < lines(s).len() ==> lacks(#[trigger] lines(s)[k], '\n'),
    decreases s.len(),
{
    if s.len() > 0 {
        lemma_find_char_props(s, '\n');
        match find_char(s, '\n') {
            Some(i) => {
                lemma_lines_no_newline(s.skip(i as int + 1));
                let first = strip_cr(s.take(i as int));
                assert(lacks(first, '\n'));
                assert forall|k: int| 0 <= k < lines(s).len() implies lacks(
                    #[trigger] lines(s)[k],
                    '\n',
                ) by {
                    if k > 0 {
                        assert(lines(s)[k] == lines(s.skip(i as int + 1))[k - 1]);
                    }
                }
            },
            None => {},
        }
    }
}

/// A line without line feed and without a final carriage return, then a
/// line feed: `str::lines` yields that line first.
pub proof fn lemma_lines_cons(l: Seq<char>, t: Seq<char>)
    requires
        lacks(l, '\n'),
        l.len() == 0 || l.last() != '\r',
    ensures
        lines(l + seq!['\n'] + t) == seq![l] + lines(t),
{
    let s = l + seq!['\n'] + t;
    assert forall|j: int| 0 <= j < l.len() implies #[trigger] s[j] != '\n' by {
        assert(s[j] == l[j]);
    }
    assert(s[l.len() as int] == '\n');
    lemma_find_char(s, '\n', l.len() as int);
    assert(s.take(l.len() as int) =~= l);
    assert(s.skip(l.len() as int + 1) =~= t);
}

pub fn is_whitespace(c: char) -> (r: bool)
    ensures
        r == is_ws(c),
{
    ('\u{9}' <= c && c <= '\u{d}') || c == ' ' || c == '\u{85}' || c == '\u{a0}' || c
        == '\u{1680}' || ('\u{2000}' <= c && c <= '\u{200a}') || c == '\u{2028}' || c
        == '\u{2029}' || c == '\u{202f}' || c == '\u{205f}' || c == '\u{3000}'
}

/// The characters of a string slice, in order.
pub fn chars_of(s: &str) -> (v: Vec<char>)
    ensures
        v@ == s@,
{
    let mut v: Vec<char> = Vec::new();
    for c in it: s.chars()
        invariant
            v@ == it.seq().take(it.index() as int),
    {
        v.push(c);
    }
    v
}

/// `String::push`.
#[verifier::external_body]
pub(crate) fn push_char(s: &mut String, c: char)
    ensures
        final(s)@ == old(s)@.push(c),
{
    s.push(c);
}

/// A `String` holding the given characters.
pub fn string_of(v: &Vec<char>) -> (s: String)
    ensures
        s@ == v@,
{
    let mut s = String::new();
    let mut i: usize = 0;
    while i < v.len()
        invariant
            i <= v.len(),
            s@ == v@.take(i as int),
        decreases v.len() - i,
    {
        push_char(&mut s, v[i]);
        i = i + 1;
        assert(s@ =~= v@.take(i as int));
    }
    assert(v@.take(i as int) =~= v@);
    s
}

/// The characters `v[from..to]`.
pub fn slice_of(v: &Vec<char>, from: usize, to: usize) -> (r: Vec<char>)
    requires
        from <= to <= v.len(),
    ensures
        r@ == v@.subrange(from as int, to as int),
{
    let mut r: Vec<char> = Vec::new();
    let mut i: usize = from;
    while i < to
        invariant
            from <= i <= to <= v.len(),
            r@ == v@.subrange(from as int, i as int),
        decreases to - i,
    {
        r.push(v[i]);
        i = i + 1;
        assert(r@ =~= v@.subrange(from as int, i as int));
    }
    r
}

/// Character-wise equality.
pub fn chars_eq(a: &Vec<char>, b: &Vec<char>) -> (r: bool)
    ensures
        r == (a@ == b@),
{
    if a.len() != b.len() {
        return false;
    }
    let mut i: usize = 0;
    while i < a.len()
        invariant
            a.len() == b.len(),
            i <= a.len(),
            forall|j: int| 0 <= j < i ==> a@[j] == b@[j],
        decreases a.len() - i,
    {
        if a[i] != b[i] {
            return false;
        }
        i = i + 1;
    }
    assert(a@ =~= b@);
    true
}

/// Whether the characters equal those of `lit`.
pub fn chars_eq_str(a: &Vec<char>, lit: &str) -> (r: bool)
    ensures
        r == (a@ == lit@),
{
    let b = chars_of(lit);
    chars_eq(a, &b)
}

/// Whether the string slice equals `lit`.
pub fn str_is(a: &str, lit: &str) -> (r: bool)
    ensures
        r == (a@ == lit@),
{
    let v = chars_of(a);
    chars_eq_str(&v, lit)
}

/// `str::trim_start`.
pub fn trim_start_chars(s: &Vec<char>) -> (r: Vec<char>)
    ensures
        r@ == trim_start(s@),
{
    let mut i: usize = 0;
    while i < s.len() && is_whitespace(s[i])
        invariant
            i <= s.len(),
            forall|j: int| 0 <= j < i ==> is_ws(#[trigger] s@[j]),
        decreases s.len() - i,
    {
        i = i + 1;
    }
    proof {
        lemma_lead_ws(s@, i as int);
    }
    slice_of(s, i, s.len())
}

/// `str::trim_end`.
pub fn trim_end_chars(s: &Vec<char>) -> (r: Vec<char>)
    ensures
        r@ == trim_end(s@),
{
    let mut k: usize = 0;
    while k < s.len() && is_whitespace(s[s.len() - k - 1])
        invariant
            k <= s.len(),
            forall|j: int| s.len() - k <= j < s.len() ==> is_ws(#[trigger] s@[j]),
        decreases s.len() - k,
    {
        k = k + 1;
    }
    proof {
        lemma_trail_ws(s@, k as int);
    }
    slice_of(s, 0, s.len() - k)
}

/// `str::trim`.
pub fn trim_chars(s: &Vec<char>) -> (r: Vec<char>)
    ensures
        r@ == trim(s@),
{
    let t = trim_start_chars(s);
    trim_end_chars(&t)
}

/// First occurrence of `c`.
pub fn find_char_in(s: &Vec<char>, c: char) -> (r: Option<usize>)
    ensures
        r matches Some(i) ==> find_char(s@, c) == Some(i as nat),
        r is None ==> find_char(s@, c) is None,
{
    let mut i: usize = 0;
    while i < s.len()
        invariant
            i <= s.len(),
            forall|j: int| 0 <= j < i ==> #[trigger] s@[j] != c,
        decreases s.len() - i,
    {
        if s[i] == c {
            proof {
                lemma_find_char(s@, c, i as int);
            }
            return Some(i);
        }
        i = i + 1;
    }
    proof {
        lemma_find_char(s@, c, i as int);
    }
    None
}

/// First whitespace character.
pub fn find_ws_in(s: &Vec<char>) -> (r: Option<usize>)
    ensures
        r matches Some(i) ==> find_ws(s@) == Some(i as nat),
        r is None ==> find_ws(s@) is None,
{
    let mut i: usize = 0;
    while i < s.len()
        invariant
            i <= s.len(),
            forall|j: int| 0 <= j < i ==> !is_ws(#[trigger] s@[j]),
        decreases s.len() - i,
    {
        if is_whitespace(s[i]) {
            proof {
                lemma_find_ws(s@, i as int);
            }
            return Some(i);
        }
        i = i + 1;
    }
    proof {
        lemma_find_ws(s@, i as int);
    }
    None
}

/// First character that is not an ASCII digit.
pub fn find_non_digit_in(s: &Vec<char>) -> (r: Option<usize>)
    ensures
        r matches Some(i) ==> find_non_digit(s@) == Some(i as nat),
        r is None ==> find_non_digit(s@) is None,
{
    let mut i: usize = 0;
    while i < s.len()
        invariant
            i <= s.len(),
            forall|j: int| 0 <= j < i ==> is_digit(#[trigger] s@[j]),
        decreases s.len() - i,
    {
        if !('0' <= s[i] && s[i] <= '9') {
            proof {
                lemma_find_non_digit(s@, i as int);
            }
            return Some(i);
        }
        i = i + 1;
    }
    proof {
        lemma_find_non_digit(s@, i as int);
    }
    None
}

/// Whether `s` begins with the characters of `p`.
pub fn starts_with_str(s: &Vec<char>, p: &str) -> (r: bool)
    ensures
        r == starts_with(s@, p@),
{
    let pv = chars_of(p);
    if pv.len() > s.len() {
        return false;
    }
    let head = slice_of(s, 0, pv.len());
    chars_eq(&head, &pv)
}

/// `str::lines`.
pub fn lines_of(s: &Vec<char>) -> (r: Vec<Vec<char>>)
    ensures
        views(r@) == lines(s@),
{
    let mut r: Vec<Vec<char>> = Vec::new();
    let mut start: usize = 0;
    assert(s@.skip(0) =~= s@);
    while start < s.len()
        invariant
            start <= s.len(),
            lines(s@) == views(r@) + lines(s@.skip(start as int)),
        decreases s.len() - start,
    {
        let rest = slice_of(s, start, s.len());
        assert(rest@ =~= s@.skip(start as int));
        let ghost prev = r@;
        match find_char_in(&rest, '\n') {
            Some(i) => {
                proof {
                    lemma_find_char_props(rest@, '\n');
                }
                let mut line = slice_of(&rest, 0, i);
                if line.len() > 0 && line[line.len() - 1] == '\r' {
                    line.pop();
                }
                assert(line@ =~= strip_cr(rest@.take(i as int)));
                assert(rest@.skip(i + 1) =~= s@.skip(start + i + 1));
                r.push(line);
                assert(views(r@) =~= views(prev) + seq![line@]);
                start = start + i + 1;
            },
            None => {
                r.push(rest);
                assert(views(r@) =~= views(prev) + seq![rest@]);
                start = s.len();
                assert(s@.skip(start as int) =~= Seq::<char>::empty());
            },
        }
    }
    r
}


/// `p` occurs in `s` at index `i`.
pub open spec fn occurs_at(s: Seq<char>, p: Seq<char>, i: int) -> bool {
    0 <= i && i + p.len() <= s.len() && s.subrange(i, i + p.len()) == p
}

/// `p` occurs somewhere in `s`.
pub open spec fn contains(s: Seq<char>, p: Seq<char>) -> bool {
    exists|i: int| occurs_at(s, p, i)
}

/// The parts in order, with `sep` between each two.
pub open spec fn joined(parts: Seq<Seq<char>>, sep: Seq<char>) -> Seq<char>
    decreases parts.len(),
{
    if parts.len() == 0 {
        seq![]
    } else if parts.len() == 1 {
        parts[0]
    } else {
        joined(parts.drop_last(), sep) + sep + parts.last()
    }
}

} // verus!
