//! Line patterns of the scenario language, compiled with the `regex` crate.
use vstd::prelude::*;
use regex::Regex;
use crate::fmt::{debug_str, push_str, str_debug};
use crate::text::{
    chars_of, contains, lemma_lead_ws_props, starts_with, starts_with_str, string_of, slice_of, trim,
    trim_chars, trim_start, trim_start_chars,
};

verus! {

#[verifier::external_type_specification]
#[verifier::external_body]
pub struct ExRegex(Regex);

/// `Regex::clone`: a handle on the same compiled regex (nothing further is
/// stated of it).
pub assume_specification[ <Regex as Clone>::clone ](r: &Regex) -> Regex;

/// The characters that `regex::escape` prefixes with a backslash.
pub open spec fn is_meta(c: char) -> bool {
    c == '\\' || c == '.' || c == '+' || c == '*' || c == '?' || c == '(' || c == ')' || c
        == '|' || c == '[' || c == ']' || c == '{' || c == '}' || c == '^' || c == '$' || c
        == '#' || c == '&' || c == '-' || c == '~'
}

/// `regex::escape`: every meta character gets a backslash in front of it.
pub open spec fn escaped(s: Seq<char>) -> Seq<char>
    decreases s.len(),
{
    if s.len() == 0 {
        seq![]
    } else if is_meta(s[0]) {
        seq!['\\', s[0]] + escaped(s.drop_first())
    } else {
        seq![s[0]] + escaped(s.drop_first())
    }
}

/// What `Regex::new` gives for a pattern text: success, or the error's
/// display text.
pub uninterp spec fn regex_build(src: Seq<char>) -> Result<(), Seq<char>>;

/// `Regex::captures_len` of the regex compiled from a pattern text: the
/// number of capture groups, the implicit whole-match group included.
pub uninterp spec fn regex_group_count(src: Seq<char>) -> nat;

/// `regex::escape`; its source escapes exactly the meta characters above.
#[verifier::external_body]
fn regex_escape(s: &str) -> (r: String)
    ensures
        r@ == escaped(s@),
{
    regex::escape(s)
}

/// The longest literal pattern, in characters, that is promised to compile.
/// `Regex::new` refuses a valid pattern only when its compiled automaton
/// passes the default size limit of 10 MiB; a literal character takes at
/// most four byte states of 32 bytes each, so 4096 characters stay far
/// below it.
pub open spec fn literal_limit() -> nat {
    4096
}

/// `Regex::new`: succeeds as `regex_build` says, and on failure hands back
/// the error's display text. It fails only on an invalid pattern or one that
/// passes the size limit; the text that a literal pattern compiles to is
/// valid (`regex::escape` documents its output as a literal, and the group
/// of a `{}` is plain syntax), so one of at most `literal_limit` characters
/// compiles.
#[verifier::external_body]
fn regex_new(src: &str) -> (r: Result<Regex, String>)
    ensures
        r.is_ok() == regex_build(src@).is_ok(),
        r.is_err() ==> regex_build(src@) == Err::<(), Seq<char>>(r->Err_0@),
        forall|t: Seq<char>|
            #[trigger] literal_regex(t) == src@ && t.len() <= literal_limit() ==> r.is_ok(),
{
    match Regex::new(src) {
        Ok(re) => Ok(re),
        Err(e) => Err(e.to_string()),
    }
}

/// The group of a `{}` placeholder: an optionally negative decimal number.
pub open spec fn number_group() -> Seq<char> {
    "(-?\\d+(?:\\.\\d+)?)"@
}

/// Number of non-overlapping `{}` in `s`, scanning from the left.
pub open spec fn count_placeholders(s: Seq<char>) -> nat
    decreases s.len(),
{
    if s.len() < 2 {
        0
    } else if s[0] == '{' && s[1] == '}' {
        1 + count_placeholders(s.skip(2))
    } else {
        count_placeholders(s.drop_first())
    }
}

/// Index of the first `{}` in `s`.
pub open spec fn first_placeholder(s: Seq<char>) -> Option<nat>
    decreases s.len(),
{
    if s.len() < 2 {
        None
    } else if s[0] == '{' && s[1] == '}' {
        Some(0)
    } else {
        match first_placeholder(s.drop_first()) {
            Some(i) => Some(i + 1),
            None => None,
        }
    }
}

/// The regex text that a literal pattern (no `re:` prefix) compiles to.
pub open spec fn literal_regex(t: Seq<char>) -> Seq<char> {
    match first_placeholder(t) {
        Some(i) => escaped(t.take(i as int)) + number_group() + escaped(t.skip(i as int + 2)),
        None => escaped(t),
    }
}

/// A literal pattern (no `re:`, at most one `{}`) of at most
/// `literal_limit` characters once trimmed, and not empty.
pub open spec fn literal_fits(src: Seq<char>) -> bool {
    let t = trim(src);
    &&& 0 < t.len() <= literal_limit()
    &&& !starts_with(t, "re:"@)
    &&& count_placeholders(t) <= 1
}

/// A compiled pattern in spec terms: the regex text it was built from and
/// the trimmed pattern as written.
pub struct PatternView {
    pub source: Seq<char>,
    pub raw: Seq<char>,
}

/// `Pattern::compile` on the pattern text `src`.
pub open spec fn spec_compile(src: Seq<char>) -> Result<PatternView, Seq<char>> {
    let t = trim(src);
    if t.len() == 0 {
        Err("pattern is empty"@)
    } else if starts_with(t, "re:"@) {
        let r = trim_start(t.skip(3));
        if r.len() == 0 {
            Err("empty regex after `re:`"@)
        } else {
            match regex_build(r) {
                Ok(_) => Ok(PatternView { source: r, raw: t }),
                Err(e) => Err("bad regex "@ + str_debug(r) + ": "@ + e),
            }
        }
    } else if count_placeholders(t) > 1 {
        Err("at most one {} placeholder per pattern"@)
    } else {
        let pat = literal_regex(t);
        match regex_build(pat) {
            Ok(_) => Ok(PatternView { source: pat, raw: t }),
            Err(e) => Err("internal regex build failed: "@ + e),
        }
    }
}

/// A line pattern: literal text (with at most one `{}` number placeholder)
/// or, after `re:`, a full regex.
#[derive(Debug, Clone)]
pub struct Pattern {
    regex: Regex,
    source: String,
    raw: String,
}

impl View for Pattern {
    type V = PatternView;

    closed spec fn view(&self) -> PatternView {
        PatternView { source: self.source@, raw: self.raw@ }
    }
}

/// `Regex::captures_len` on a pattern's regex. Every `Pattern` holds the
/// regex that `Regex::new` built from its `source` (only `compile` makes
/// one), so the count is that of the source text. A text that
/// `regex::escape` produced has no group of its own, so its count is one;
/// the regex of a literal pattern with a `{}` has one group besides.
#[verifier::external_body]
fn captures_len(p: &Pattern) -> (n: usize)
    ensures
        n == regex_group_count(p@.source),
        n >= 1,
        forall|t: Seq<char>| #[trigger] escaped(t) == p@.source ==> n == 1,
        forall|t: Seq<char>|
            #[trigger] literal_regex(t) == p@.source ==> n == (if first_placeholder(t) is Some {
                2nat
            } else {
                1nat
            }),
{
    p.regex.captures_len()
}

/// `Regex::is_match` of the regex compiled from `src`, on `line`.
pub uninterp spec fn regex_matches(src: Seq<char>, line: Seq<char>) -> bool;

/// The text of capture group 1 in the first match, in `line`, of the regex
/// compiled from `src` (`None`: no match, or the group took no part in it).
pub uninterp spec fn regex_group1(src: Seq<char>, line: Seq<char>) -> Option<Seq<char>>;

/// `Regex::is_match` on a pattern's regex, which `compile` built from the
/// pattern's `source`. `regex::escape` documents its result as usable as a
/// literal, so a source that it produced from `t` matches exactly the lines
/// in which `t` occurs (`is_match` looks for a match anywhere in the line).
#[verifier::external_body]
fn regex_is_match(p: &Pattern, line: &str) -> (b: bool)
    ensures
        b == regex_matches(p@.source, line@),
        forall|t: Seq<char>| #[trigger] escaped(t) == p@.source ==> b == contains(line@, t),
{
    p.regex.is_match(line)
}

/// `Regex::captures` on a pattern's regex, then `Captures::get(1)`: the
/// text of group 1. The regex crate documents that `captures` finds a match
/// exactly when `is_match` does.
#[verifier::external_body]
fn regex_captures_group1(p: &Pattern, line: &str) -> (r: Option<String>)
    ensures
        r is Some <==> regex_group1(p@.source, line@) is Some,
        r matches Some(t) ==> regex_group1(p@.source, line@) == Some(t@),
        r is Some ==> regex_matches(p@.source, line@),
{
    match p.regex.captures(line) {
        Some(c) => match c.get(1) {
            Some(m) => Some(m.as_str().to_string()),
            None => None,
        },
        None => None,
    }
}

pub proof fn lemma_count_placeholders(s: Seq<char>, i: int)
    requires
        0 <= i <= s.len(),
    ensures
        i + 1 < s.len() && s[i] == '{' && s[i + 1] == '}' ==> count_placeholders(s.skip(i))
            == 1 + count_placeholders(s.skip(i + 2)),
        !(i + 1 < s.len() && s[i] == '{' && s[i + 1] == '}') && i < s.len()
            ==> count_placeholders(s.skip(i)) == count_placeholders(s.skip(i + 1)),
{
    if i < s.len() {
        assert(s.skip(i).drop_first() =~= s.skip(i + 1));
        if i + 1 < s.len() {
            assert(s.skip(i).skip(2) =~= s.skip(i + 2));
        }
    }
}

pub proof fn lemma_first_placeholder(s: Seq<char>, i: int)
    requires
        0 <= i <= s.len(),
        forall|j: int| 0 <= j < i ==> !(j + 1 < s.len() && #[trigger] s[j] == '{' && s[j + 1]
            == '}'),
    ensures
        i + 1 < s.len() && s[i] == '{' && s[i + 1] == '}' ==> first_placeholder(s) == Some(
            i as nat,
        ),
        i + 1 >= s.len() ==> first_placeholder(s) is None,
    decreases i,
{
    if i > 0 {
        let t = s.drop_first();
        assert forall|j: int| 0 <= j < i - 1 implies !(j + 1 < t.len() && #[trigger] t[j] == '{'
            && t[j + 1] == '}') by {
            assert(t[j] == s[j + 1]);
        }
        lemma_first_placeholder(t, i - 1);
        assert(!(0 + 1 < s.len() && s[0] == '{' && s[1] == '}'));
    }
}

/// Number of `{}` placeholders in `s`.
fn count_placeholders_in(s: &Vec<char>) -> (n: usize)
    ensures
        n == count_placeholders(s@),
{
    let mut n: usize = 0;
    let mut i: usize = 0;
    assert(s@.skip(0) =~= s@);
    while i < s.len()
        invariant
            i <= s.len(),
            n <= i,
            count_placeholders(s@) == n + count_placeholders(s@.skip(i as int)),
        decreases s.len() - i,
    {
        proof {
            lemma_count_placeholders(s@, i as int);
        }
        if i + 1 < s.len() && s[i] == '{' && s[i + 1] == '}' {
            n = n + 1;
            i = i + 2;
        } else {
            i = i + 1;
        }
    }
    assert(s@.skip(i as int) =~= Seq::<char>::empty());
    n
}

/// Index of the first `{}`.
pub fn first_placeholder_index(s: &Vec<char>) -> (r: Option<usize>)
    ensures
        r matches Some(i) ==> first_placeholder(s@) == Some(i as nat),
        r is None ==> first_placeholder(s@) is None,
{
    let mut i: usize = 0;
    while s.len() >= 2 && i < s.len() - 1
        invariant
            i <= s.len(),
            forall|j: int| 0 <= j < i ==> !(j + 1 < s@.len() && #[trigger] s@[j] == '{' && s@[j
                + 1] == '}'),
        decreases s.len() - i,
    {
        if s[i] == '{' && s[i + 1] == '}' {
            proof {
                lemma_first_placeholder(s@, i as int);
            }
            return Some(i);
        }
        i = i + 1;
    }
    proof {
        lemma_first_placeholder(s@, i as int);
    }
    None
}

/// `regex::escape` on the characters of `v`.
fn escape_chars(v: &Vec<char>) -> (r: String)
    ensures
        r@ == escaped(v@),
{
    let s = string_of(v);
    regex_escape(s.as_str())
}

impl Pattern {
    /// Compiles a pattern as the scenario language writes it: trimmed;
    /// `re:` followed by a regex; otherwise literal text whose regex
    /// characters are escaped and whose single `{}`, if any, captures a
    /// decimal number.
    pub fn compile(src: &str) -> (r: Result<Pattern, String>)
        ensures
            match r {
                Ok(p) => spec_compile(src@) == Ok::<PatternView, Seq<char>>(p@),
                Err(m) => spec_compile(src@) == Err::<PatternView, Seq<char>>(m@),
            },
            literal_fits(src@) ==> r is Ok,
    {
        let sv = chars_of(src);
        let t = trim_chars(&sv);
        if t.len() == 0 {
            return Err("pattern is empty".to_owned());
        }
        let raw = string_of(&t);
        if starts_with_str(&t, "re:") {
            proof {
                reveal_strlit("re:");
            }
            let after = slice_of(&t, 3, t.len());
            assert(after@ == t@.skip(3));
            let r = trim_start_chars(&after);
            if r.len() == 0 {
                return Err("empty regex after `re:`".to_owned());
            }
            let rs = string_of(&r);
            match regex_new(rs.as_str()) {
                Ok(re) => Ok(Pattern { regex: re, source: rs, raw }),
                Err(e) => {
                    let mut m = "bad regex ".to_owned();
                    let d = debug_str(rs.as_str());
                    push_str(&mut m, d.as_str());
                    push_str(&mut m, ": ");
                    push_str(&mut m, e.as_str());
                    Err(m)
                },
            }
        } else {
            let n = count_placeholders_in(&t);
            if n > 1 {
                return Err("at most one {} placeholder per pattern".to_owned());
            }
            let pat = match first_placeholder_index(&t) {
                Some(i) => {
                    proof {
                        lemma_first_placeholder_bound(t@);
                    }
                    let a = slice_of(&t, 0, i);
                    let b = slice_of(&t, i + 2, t.len());
                    assert(a@ == t@.take(i as int));
                    assert(b@ == t@.skip(i + 2));
                    let mut p = escape_chars(&a);
                    push_str(&mut p, "(-?\\d+(?:\\.\\d+)?)");
                    let eb = escape_chars(&b);
                    push_str(&mut p, eb.as_str());
                    p
                },
                None => escape_chars(&t),
            };
            assert(pat@ == literal_regex(t@));
            match regex_new(pat.as_str()) {
                Ok(re) => Ok(Pattern { regex: re, source: pat, raw }),
                Err(e) => {
                    let mut m = "internal regex build failed: ".to_owned();
                    push_str(&mut m, e.as_str());
                    Err(m)
                },
            }
        }
    }

    /// The pattern as written, trimmed.
    pub fn raw(&self) -> (r: &str)
        ensures
            r@ == self@.raw,
    {
        self.raw.as_str()
    }

    /// The regex text the pattern was compiled from.
    pub fn source(&self) -> (r: &str)
        ensures
            r@ == self@.source,
    {
        self.source.as_str()
    }

    /// A copy of the pattern, sharing its compiled regex.
    pub fn duplicate(&self) -> (r: Pattern)
        ensures
            r@ == self@,
    {
        Pattern { regex: self.regex.clone(), source: self.source.clone(), raw: self.raw.clone() }
    }

    /// The regex the pattern holds: the one `compile` built from `source`
    /// (an outside value, of which only its identity is stated).
    pub closed spec fn compiled(&self) -> Regex {
        self.regex
    }

    /// The compiled regex.
    pub fn regex(&self) -> (r: &Regex)
        ensures
            *r == self.compiled(),
    {
        &self.regex
    }

    /// Whether `line` matches the pattern.
    pub fn is_match(&self, line: &str) -> (b: bool)
        ensures
            b == regex_matches(self@.source, line@),
            self@.source == escaped(self@.raw) ==> b == contains(line@, self@.raw),
    {
        regex_is_match(self, line)
    }

    /// The text of the pattern's first capture group in `line`: for a `{}`
    /// pattern, the number it stands for.
    pub fn first_group(&self, line: &str) -> (r: Option<String>)
        ensures
            r is Some <==> regex_group1(self@.source, line@) is Some,
            r matches Some(t) ==> regex_group1(self@.source, line@) == Some(t@),
            r is Some ==> regex_matches(self@.source, line@),
    {
        regex_captures_group1(self, line)
    }

    /// Number of capture groups of the compiled regex, the whole match
    /// included.
    pub fn group_count(&self) -> (n: usize)
        ensures
            n == regex_group_count(self@.source),
            forall|t: Seq<char>| #[trigger] escaped(t) == self@.source ==> n == 1,
            forall|t: Seq<char>|
                #[trigger] literal_regex(t) == self@.source ==> n == (if first_placeholder(t) is Some {
                    2nat
                } else {
                    1nat
                }),
    {
        captures_len(self)
    }
}

/// A pattern without `re:` is literal text: its regex is the trimmed text
/// with every regex character escaped and its `{}`, if any, made a number
/// group. Without `{}` it is the escaped text alone, so (see
/// `Pattern::is_match` and `Pattern::group_count`) it matches exactly the
/// lines that contain that text and has no capture group besides the whole
/// match; with one it has one group more. `Pattern::compile` promises
/// success on literal text that fits `literal_limit`.
pub proof fn law_literal_pattern(src: Seq<char>, p: PatternView)
    requires
        spec_compile(src) == Ok::<PatternView, Seq<char>>(p),
        !starts_with(trim(src), "re:"@),
        count_placeholders(trim(src)) <= 1,
    ensures
        p.raw == trim(src),
        p.source == literal_regex(p.raw),
        count_placeholders(p.raw) == 0 ==> p.source == escaped(p.raw),
{
    if count_placeholders(trim(src)) == 0 {
        lemma_no_placeholder(trim(src));
    }
}

proof fn lemma_no_placeholder(s: Seq<char>)
    requires
        count_placeholders(s) == 0,
    ensures
        first_placeholder(s) is None,
    decreases s.len(),
{
    if s.len() >= 2 {
        lemma_no_placeholder(s.drop_first());
    }
}

pub proof fn lemma_first_placeholder_bound(s: Seq<char>)
    ensures
        first_placeholder(s) matches Some(i) ==> i + 2 <= s.len(),
    decreases s.len(),
{
    if s.len() >= 2 && !(s[0] == '{' && s[1] == '}') {
        lemma_first_placeholder_bound(s.drop_first());
    }
}

} // verus!
