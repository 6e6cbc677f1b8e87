//! The `.mcb` scenario language: steps, durations and the line parser.
use vstd::prelude::*;
use crate::duration::Duration;
use crate::fmt::{dec, dec_string, digit_char, debug_str, push_str, str_debug, digits_value, parse_u64_digits};
use crate::pattern::{Pattern, PatternView, regex_group_count, spec_compile};
use crate::text::{
    chars_of, chars_eq_str, find_char, find_char_in, find_non_digit, find_non_digit_in,
    find_ws, find_ws_in, is_digit, lemma_find_non_digit_props, lines, lines_of, slice_of,
    string_of, trim, trim_chars, trim_start, trim_start_chars, views, is_ws,
};

verus! {

/// One step of a scenario.
#[derive(Debug)]
pub enum Step {
    Start,
    Wait { timeout: Duration, pattern: Pattern },
    Send(String),
    Sleep(Duration),
    Grab { name: String, pattern: Pattern },
    Loop { total: Duration, every: Duration, body: Vec<Step> },
    Stop,
}

/// A step in spec terms: durations in milliseconds, text as characters.
pub enum StepView {
    Start,
    Wait { timeout: nat, pattern: PatternView },
    Send(Seq<char>),
    Sleep(nat),
    Grab { name: Seq<char>, pattern: PatternView },
    Loop { total: nat, every: nat, body: Seq<StepView> },
    Stop,
}

impl Step {
    pub open spec fn view_step(self) -> StepView
        decreases self,
    {
        match self {
            Step::Start => StepView::Start,
            Step::Wait { timeout, pattern } => StepView::Wait {
                timeout: timeout@,
                pattern: pattern@,
            },
            Step::Send(cmd) => StepView::Send(cmd@),
            Step::Sleep(d) => StepView::Sleep(d@),
            Step::Grab { name, pattern } => StepView::Grab { name: name@, pattern: pattern@ },
            Step::Loop { total, every, body } => StepView::Loop {
                total: total@,
                every: every@,
                body: Seq::new(
                    body@.len(),
                    |i: int|
                        if 0 <= i < body@.len() {
                            body@[i].view_step()
                        } else {
                            StepView::Stop
                        },
                ),
            },
            Step::Stop => StepView::Stop,
        }
    }
}

impl Step {
    /// A copy of the step, loop bodies included.
    #[verifier::loop_isolation(false)]
    pub fn duplicate(&self) -> (r: Step)
        ensures
            r.view_step() == self.view_step(),
        decreases self,
    {
        match self {
            Step::Start => Step::Start,
            Step::Wait { timeout, pattern } => Step::Wait {
                timeout: *timeout,
                pattern: pattern.duplicate(),
            },
            Step::Send(cmd) => Step::Send(cmd.clone()),
            Step::Sleep(d) => Step::Sleep(*d),
            Step::Grab { name, pattern } => Step::Grab {
                name: name.clone(),
                pattern: pattern.duplicate(),
            },
            Step::Loop { total, every, body } => {
                let mut copy: Vec<Step> = Vec::new();
                let mut i: usize = 0;
                while i < body.len()
                    invariant
                        i <= body.len(),
                        copy@.len() == i,
                        forall|j: int| 0 <= j < i ==> (#[trigger] copy@[j]).view_step()
                            == body@[j].view_step(),
                    decreases body.len() - i,
                {
                    proof {
                        assert(decreases_to!(body => body@));
                        assert(decreases_to!(body@ => body@[i as int]));
                    }
                    let c = body[i].duplicate();
                    copy.push(c);
                    i = i + 1;
                }
                let r = Step::Loop { total: *total, every: *every, body: copy };
                assert(r.view_step()->Loop_body =~= self.view_step()->Loop_body);
                assert(r.view_step() == self.view_step());
                r
            },
            Step::Stop => Step::Stop,
        }
    }
}

impl Clone for Step {
    fn clone(&self) -> (r: Step)
        ensures
            r.view_step() == self.view_step(),
    {
        self.duplicate()
    }
}

/// The views of a sequence of steps.
pub open spec fn steps_view(s: Seq<Step>) -> Seq<StepView> {
    Seq::new(s.len(), |i: int| s[i].view_step())
}

/// A parsed scenario: its name (the file stem of its path) and its steps.
#[derive(Debug, Clone)]
pub struct Scenario {
    pub name: String,
    pub path: String,
    pub steps: Vec<Step>,
}

/// A syntax error: the 1-based line and what is wrong there.
#[derive(Debug, Clone)]
pub struct ParseError {
    pub line: usize,
    pub msg: String,
}

/// A scenario file that could not be read or parsed.
#[derive(Debug, Clone)]
pub struct ScenarioLoadError {
    pub path: String,
    pub msg: String,
}

impl ParseError {
    /// The error as `Display` shows it: `line N: message`.
    pub fn to_text(&self) -> (r: String)
        ensures
            r@ == "line "@ + dec(self.line as nat) + ": "@ + self.msg@,
    {
        let mut r = "line ".to_owned();
        let n = dec_string(self.line as u128);
        push_str(&mut r, n.as_str());
        push_str(&mut r, ": ");
        push_str(&mut r, self.msg.as_str());
        r
    }
}

impl ScenarioLoadError {
    /// The error as `Display` shows it: `path: message`.
    pub fn to_text(&self) -> (r: String)
        ensures
            r@ == self.path@ + ": "@ + self.msg@,
    {
        let mut r = self.path.clone();
        push_str(&mut r, ": ");
        push_str(&mut r, self.msg.as_str());
        r
    }
}

// ---------------------------------------------------------------------------
// The language in spec terms.

/// A line with its `#` comment removed.
pub open spec fn strip_comment(line: Seq<char>) -> Seq<char> {
    match find_char(line, '#') {
        Some(i) => line.take(i as int),
        None => line,
    }
}

/// The first word of `s` and the rest, both without leading whitespace.
pub open spec fn split_verb(s: Seq<char>) -> (Seq<char>, Seq<char>) {
    let t = trim_start(s);
    match find_ws(t) {
        Some(i) => (t.take(i as int), trim_start(t.skip(i as int))),
        None => (t, seq![]),
    }
}

pub open spec fn is_ascii_alpha(c: char) -> bool {
    ('a' <= c && c <= 'z') || ('A' <= c && c <= 'Z')
}

/// A metric name: `[A-Za-z_][A-Za-z0-9_]*`.
pub open spec fn is_ident(s: Seq<char>) -> bool {
    &&& s.len() > 0
    &&& (is_ascii_alpha(s[0]) || s[0] == '_')
    &&& forall|i: int| 1 <= i < s.len() ==> (is_ascii_alpha(#[trigger] s[i]) || is_digit(s[i])
        || s[i] == '_')
}

/// `parse_duration` in spec terms: milliseconds, or the error text.
pub open spec fn spec_parse_duration(src: Seq<char>) -> Result<nat, Seq<char>> {
    let s = trim(src);
    if s.len() == 0 {
        Err("duration missing"@)
    } else {
        match find_non_digit(s) {
            None => Err("missing unit in "@ + str_debug(s) + " (use ms/s/m)"@),
            Some(pos) => if pos == 0 {
                Err("bad duration "@ + str_debug(s))
            } else {
                let num = s.take(pos as int);
                let unit = s.skip(pos as int);
                let n = digits_value(num);
                if n > u64::MAX {
                    Err("bad duration number "@ + str_debug(num))
                } else if unit == "ms"@ {
                    Ok(n)
                } else if unit == "s"@ {
                    Ok(n * 1000)
                } else if unit == "m"@ {
                    if n * 60 > u64::MAX {
                        Err("bad duration number "@ + str_debug(num))
                    } else {
                        Ok(n * 60 * 1000)
                    }
                } else {
                    Err("bad duration unit "@ + str_debug(unit) + " (use ms/s/m)"@)
                }
            },
        }
    }
}

/// Timeout of a `wait` that gives none: 120 s.
pub open spec fn default_wait_ms() -> nat {
    120_000
}

/// The arguments of `wait`: an optional leading duration, then the pattern.
pub open spec fn spec_wait_args(rest: Seq<char>) -> Result<(nat, Seq<char>), Seq<char>> {
    if rest.len() == 0 {
        Err("`wait` requires a pattern"@)
    } else {
        let (head, tail) = split_verb(rest);
        if head.len() > 0 && tail.len() == 0 {
            Ok((default_wait_ms(), rest))
        } else {
            match spec_parse_duration(head) {
                Ok(d) => Ok((d, tail)),
                Err(_) => Ok((default_wait_ms(), rest)),
            }
        }
    }
}

/// The arguments of `loop`: `<total> every <interval>`, interval not zero.
pub open spec fn spec_loop_header(rest: Seq<char>) -> Result<(nat, nat), Seq<char>> {
    let (total_str, tail) = split_verb(rest);
    if total_str.len() == 0 {
        Err("`loop` requires <total> every <interval>"@)
    } else {
        match spec_parse_duration(total_str) {
            Err(m) => Err(m),
            Ok(total) => {
                let (kw, interval_str) = split_verb(tail);
                if kw != "every"@ {
                    Err("`loop` syntax: `loop <total> every <interval>`"@)
                } else {
                    match spec_parse_duration(interval_str) {
                        Err(m) => Err(m),
                        Ok(every) => if every == 0 {
                            Err("loop interval must be > 0"@)
                        } else {
                            Ok((total, every))
                        },
                    }
                }
            },
        }
    }
}

/// An open `loop` while its body is read: header, body so far, and the
/// line of the `loop`.
pub struct FrameView {
    pub total: nat,
    pub every: nat,
    pub body: Seq<StepView>,
    pub line: nat,
}

/// The parser's state after some lines: the top-level steps and the open
/// loops, innermost last.
pub struct ParseView {
    pub top: Seq<StepView>,
    pub stack: Seq<FrameView>,
}

/// Appends a step to the innermost open loop, or to the top level.
pub open spec fn push_step_view(st: ParseView, step: StepView) -> ParseView {
    if st.stack.len() == 0 {
        ParseView { top: st.top.push(step), stack: st.stack }
    } else {
        let f = st.stack.last();
        ParseView {
            top: st.top,
            stack: st.stack.drop_last().push(
                FrameView { total: f.total, every: f.every, body: f.body.push(step), line: f.line },
            ),
        }
    }
}

/// A syntax error in spec terms: line and message.
pub type ErrView = (nat, Seq<char>);

/// What one line (number `ln`) does to the parser's state: its code, with
/// the comment cut and the rest trimmed, decides.
pub open spec fn parse_line(st: ParseView, ln: nat, raw: Seq<char>) -> Result<ParseView, ErrView> {
    parse_code(st, ln, trim(strip_comment(raw)))
}

/// What the code of line `ln` does to the parser's state.
pub open spec fn parse_code(st: ParseView, ln: nat, line: Seq<char>) -> Result<ParseView, ErrView> {
    if line.len() == 0 {
        Ok(st)
    } else {
        let (verb, rest) = split_verb(line);
        if verb == "end"@ {
            if rest.len() > 0 {
                Err((ln, "`end` takes no arguments"@))
            } else if st.stack.len() == 0 {
                Err((ln, "`end` without matching `loop`"@))
            } else {
                let f = st.stack.last();
                Ok(
                    push_step_view(
                        ParseView { top: st.top, stack: st.stack.drop_last() },
                        StepView::Loop { total: f.total, every: f.every, body: f.body },
                    ),
                )
            }
        } else if verb == "wait"@ {
            match spec_wait_args(rest) {
                Err(m) => Err((ln, m)),
                Ok((t, p)) => match spec_compile(p) {
                    Err(m) => Err((ln, m)),
                    Ok(pv) => Ok(push_step_view(st, StepView::Wait { timeout: t, pattern: pv })),
                },
            }
        } else if verb == "send"@ {
            if rest.len() == 0 {
                Err((ln, "`send` requires a command"@))
            } else {
                Ok(push_step_view(st, StepView::Send(rest)))
            }
        } else if verb == "sleep"@ {
            match spec_parse_duration(rest) {
                Err(m) => Err((ln, m)),
                Ok(d) => Ok(push_step_view(st, StepView::Sleep(d))),
            }
        } else if verb == "grab"@ {
            let (name, pat) = split_verb(rest);
            if name.len() == 0 {
                Err((ln, "`grab` requires a metric name"@))
            } else if pat.len() == 0 {
                Err((ln, "`grab` requires a pattern"@))
            } else if !is_ident(name) {
                Err((ln, "metric name "@ + str_debug(name) + " must be [A-Za-z_][A-Za-z0-9_]*"@))
            } else {
                match spec_compile(pat) {
                    Err(m) => Err((ln, m)),
                    Ok(pv) => if regex_group_count(pv.source) < 2 {
                        Err((ln, "`grab` pattern must include {} or a regex capture group"@))
                    } else {
                        Ok(push_step_view(st, StepView::Grab { name, pattern: pv }))
                    },
                }
            }
        } else if verb == "loop"@ {
            match spec_loop_header(rest) {
                Err(m) => Err((ln, m)),
                Ok((total, every)) => Ok(
                    ParseView {
                        top: st.top,
                        stack: st.stack.push(
                            FrameView { total, every, body: seq![], line: ln },
                        ),
                    },
                ),
            }
        } else if verb == "stop"@ {
            if rest.len() > 0 {
                Err((ln, "`stop` takes no arguments"@))
            } else {
                Ok(push_step_view(st, StepView::Stop))
            }
        } else if verb == "start"@ {
            if rest.len() > 0 {
                Err((ln, "`start` takes no arguments"@))
            } else {
                Ok(push_step_view(st, StepView::Start))
            }
        } else {
            Err((ln, "unknown verb "@ + str_debug(verb)))
        }
    }
}

pub open spec fn empty_parse() -> ParseView {
    ParseView { top: seq![], stack: seq![] }
}

/// The parser's state after the first `n` lines.
pub open spec fn parse_prefix(ls: Seq<Seq<char>>, n: nat) -> Result<ParseView, ErrView>
    decreases n,
{
    if n == 0 {
        Ok(empty_parse())
    } else {
        match parse_prefix(ls, (n - 1) as nat) {
            Ok(st) => parse_line(st, n, ls[n - 1]),
            Err(e) => Err(e),
        }
    }
}

/// Once a prefix of the lines fails, every longer prefix fails the same way.
pub proof fn lemma_prefix_err(ls: Seq<Seq<char>>, m: nat, n: nat)
    requires
        m <= n,
        parse_prefix(ls, m) is Err,
    ensures
        parse_prefix(ls, n) == parse_prefix(ls, m),
    decreases n - m,
{
    if m < n {
        lemma_prefix_err(ls, m, (n - 1) as nat);
    }
}

/// `parse` in spec terms: the top-level steps of a script, or its first
/// error (the line of the innermost unclosed `loop` when one is left open).
pub open spec fn spec_parse_steps(src: Seq<char>) -> Result<Seq<StepView>, ErrView> {
    let ls = lines(src);
    match parse_prefix(ls, ls.len()) {
        Err(e) => Err(e),
        Ok(st) => if st.stack.len() > 0 {
            Err((st.stack.last().line, "`loop` missing matching `end`"@))
        } else {
            Ok(st.top)
        },
    }
}

// ---------------------------------------------------------------------------
// Scenario names from paths.

/// Index of the last occurrence of `c` in `s`.
pub open spec fn rfind_char(s: Seq<char>, c: char) -> Option<nat>
    decreases s.len(),
{
    if s.len() == 0 {
        None
    } else if s.last() == c {
        Some((s.len() - 1) as nat)
    } else {
        rfind_char(s.drop_last(), c)
    }
}

/// The last component of a `/`-separated path that is neither empty nor
/// `.` (the components `Path::components` keeps at the end).
pub open spec fn last_component(p: Seq<char>) -> Option<Seq<char>>
    decreases p.len(),
{
    match rfind_char(p, '/') {
        None => if p.len() == 0 || p == "."@ {
            None
        } else {
            Some(p)
        },
        Some(i) => {
            let seg = p.skip(i as int + 1);
            if seg.len() == 0 || seg == "."@ {
                if i < p.len() {
                    last_component(p.take(i as int))
                } else {
                    None
                }
            } else {
                Some(seg)
            }
        },
    }
}

/// `Path::file_name`.
pub open spec fn file_name(p: Seq<char>) -> Option<Seq<char>> {
    match last_component(p) {
        Some(c) => if c == ".."@ {
            None
        } else {
            Some(c)
        },
        None => None,
    }
}

/// `Path::file_stem`: the file name without its last extension; a name
/// whose only dot leads it is kept whole.
pub open spec fn file_stem(p: Seq<char>) -> Option<Seq<char>> {
    match file_name(p) {
        None => None,
        Some(n) => match rfind_char(n, '.') {
            None => Some(n),
            Some(i) => if i == 0 {
                Some(n)
            } else {
                Some(n.take(i as int))
            },
        },
    }
}

/// The name of the scenario in the file at `path`.
pub open spec fn scenario_name(path: Seq<char>) -> Seq<char> {
    match file_stem(path) {
        Some(s) => s,
        None => "scenario"@,
    }
}

pub proof fn lemma_rfind_char(s: Seq<char>, c: char, k: int)
    requires
        0 <= k <= s.len(),
        forall|j: int| s.len() - k <= j < s.len() ==> #[trigger] s[j] != c,
    ensures
        k < s.len() && s[s.len() - k - 1] == c ==> rfind_char(s, c) == Some(
            (s.len() - k - 1) as nat,
        ),
        k == s.len() ==> rfind_char(s, c) is None,
    decreases k,
{
    if k > 0 {
        assert forall|j: int| s.drop_last().len() - (k - 1) <= j < s.drop_last().len() implies #[trigger] s.drop_last()[j] != c by {
            assert(s.drop_last()[j] == s[j]);
        }
        lemma_rfind_char(s.drop_last(), c, k - 1);
    }
}

/// Last occurrence of `c`.
fn rfind_char_in(s: &Vec<char>, c: char) -> (r: Option<usize>)
    ensures
        r matches Some(i) ==> rfind_char(s@, c) == Some(i as nat) && i < s.len(),
        r is None ==> rfind_char(s@, c) is None,
{
    let mut k: usize = 0;
    while k < s.len()
        invariant
            k <= s.len(),
            forall|j: int| s.len() - k <= j < s.len() ==> #[trigger] s@[j] != c,
        decreases s.len() - k,
    {
        if s[s.len() - k - 1] == c {
            proof {
                lemma_rfind_char(s@, c, k as int);
            }
            return Some(s.len() - k - 1);
        }
        k = k + 1;
    }
    proof {
        lemma_rfind_char(s@, c, k as int);
    }
    None
}

fn last_component_of(p: &Vec<char>) -> (r: Option<Vec<char>>)
    ensures
        r matches Some(v) ==> last_component(p@) == Some(v@),
        r is None ==> last_component(p@) is None,
    decreases p.len(),
{
    match rfind_char_in(p, '/') {
        None => {
            if p.len() == 0 || chars_eq_str(p, ".") {
                None
            } else {
                Some(p.clone())
            }
        },
        Some(i) => {
            let seg = slice_of(p, i + 1, p.len());
            assert(seg@ == p@.skip(i + 1));
            if seg.len() == 0 || chars_eq_str(&seg, ".") {
                let head = slice_of(p, 0, i);
                assert(head@ == p@.take(i as int));
                last_component_of(&head)
            } else {
                Some(seg)
            }
        },
    }
}

/// The scenario name for a path: its file stem, or `scenario`.
pub fn scenario_name_of(path: &str) -> (r: String)
    ensures
        r@ == scenario_name(path@),
{
    let p = chars_of(path);
    let name = match last_component_of(&p) {
        Some(c) => {
            if chars_eq_str(&c, "..") {
                None
            } else {
                Some(c)
            }
        },
        None => None,
    };
    match name {
        None => "scenario".to_owned(),
        Some(n) => match rfind_char_in(&n, '.') {
            None => string_of(&n),
            Some(i) => {
                if i == 0 {
                    string_of(&n)
                } else {
                    let stem = slice_of(&n, 0, i);
                    string_of(&stem)
                }
            },
        },
    }
}

// ---------------------------------------------------------------------------
// Executable parser.

/// A line with its `#` comment removed.
fn strip_comment_chars(line: &Vec<char>) -> (r: Vec<char>)
    ensures
        r@ == strip_comment(line@),
{
    match find_char_in(line, '#') {
        Some(i) => {
            proof {
                crate::text::lemma_find_char_props(line@, '#');
            }
            slice_of(line, 0, i)
        },
        None => line.clone(),
    }
}

/// The first word of `s` and the rest.
fn split_verb_chars(s: &Vec<char>) -> (r: (Vec<char>, Vec<char>))
    ensures
        (r.0@, r.1@) == split_verb(s@),
{
    let t = trim_start_chars(s);
    match find_ws_in(&t) {
        Some(i) => {
            proof {
                crate::text::lemma_find_ws_props(t@);
            }
            let w = slice_of(&t, 0, i);
            let rest = slice_of(&t, i, t.len());
            assert(rest@ == t@.skip(i as int));
            let r = trim_start_chars(&rest);
            (w, r)
        },
        None => (t, Vec::new()),
    }
}

/// Whether `s` is a metric name.
fn is_ident_chars(s: &Vec<char>) -> (r: bool)
    ensures
        r == is_ident(s@),
{
    if s.len() == 0 {
        return false;
    }
    let c0 = s[0];
    if !(('a' <= c0 && c0 <= 'z') || ('A' <= c0 && c0 <= 'Z') || c0 == '_') {
        return false;
    }
    let mut i: usize = 1;
    while i < s.len()
        invariant
            1 <= i <= s.len(),
            forall|j: int| 1 <= j < i ==> (is_ascii_alpha(#[trigger] s@[j]) || is_digit(s@[j])
                || s@[j] == '_'),
        decreases s.len() - i,
    {
        let c = s[i];
        if !(('a' <= c && c <= 'z') || ('A' <= c && c <= 'Z') || ('0' <= c && c <= '9') || c
            == '_') {
            return false;
        }
        i = i + 1;
    }
    true
}

/// `format!("{:?}", ..)` of the characters.
fn debug_chars(v: &Vec<char>) -> (r: String)
    ensures
        r@ == str_debug(v@),
{
    let s = string_of(v);
    debug_str(s.as_str())
}

/// `a`, then `b`.
fn join2(a: &str, b: &str) -> (r: String)
    ensures
        r@ == a@ + b@,
{
    let mut r = a.to_owned();
    push_str(&mut r, b);
    r
}

/// `a`, then `b`, then `c`.
fn join3(a: &str, b: &str, c: &str) -> (r: String)
    ensures
        r@ == a@ + b@ + c@,
{
    let mut r = a.to_owned();
    push_str(&mut r, b);
    push_str(&mut r, c);
    r
}

fn duration_from_chars(src: &Vec<char>) -> (r: Result<Duration, String>)
    ensures
        match r {
            Ok(d) => spec_parse_duration(src@) == Ok::<nat, Seq<char>>(d@),
            Err(m) => spec_parse_duration(src@) == Err::<nat, Seq<char>>(m@),
        },
{
    let s = trim_chars(src);
    if s.len() == 0 {
        return Err("duration missing".to_owned());
    }
    proof {
        lemma_find_non_digit_props(s@);
    }
    match find_non_digit_in(&s) {
        None => {
            let d = debug_chars(&s);
            Err(join3("missing unit in ", d.as_str(), " (use ms/s/m)"))
        },
        Some(pos) => {
            if pos == 0 {
                let d = debug_chars(&s);
                return Err(join2("bad duration ", d.as_str()));
            }
            let num = slice_of(&s, 0, pos);
            let unit = slice_of(&s, pos, s.len());
            assert(num@ == s@.take(pos as int));
            assert(unit@ == s@.skip(pos as int));
            match parse_u64_digits(&num) {
                None => {
                    let d = debug_chars(&num);
                    Err(join2("bad duration number ", d.as_str()))
                },
                Some(n) => {
                    if chars_eq_str(&unit, "ms") {
                        Ok(Duration::from_millis(n))
                    } else if chars_eq_str(&unit, "s") {
                        Ok(Duration::from_secs(n))
                    } else if chars_eq_str(&unit, "m") {
                        if n > u64::MAX / 60 {
                            let d = debug_chars(&num);
                            Err(join2("bad duration number ", d.as_str()))
                        } else {
                            let d = Duration::from_secs(n * 60);
                            assert(d@ == n as nat * 60 * 1000);
                            Ok(d)
                        }
                    } else {
                        let d = debug_chars(&unit);
                        Err(join3("bad duration unit ", d.as_str(), " (use ms/s/m)"))
                    }
                },
            }
        },
    }
}

/// Parses a duration: a whole number followed by `ms`, `s` or `m`,
/// surrounding whitespace allowed. A number that does not fit in 64 bits,
/// as a count of seconds, is refused.
pub fn parse_duration(src: &str) -> (r: Result<Duration, String>)
    ensures
        match r {
            Ok(d) => spec_parse_duration(src@) == Ok::<nat, Seq<char>>(d@),
            Err(m) => spec_parse_duration(src@) == Err::<nat, Seq<char>>(m@),
        },
{
    let v = chars_of(src);
    duration_from_chars(&v)
}

/// A syntax error at a line.
fn err(line: usize, msg: String) -> (e: ParseError)
    ensures
        e.line == line,
        e.msg == msg,
{
    ParseError { line, msg }
}

/// The arguments of `wait`: timeout and pattern text.
fn parse_wait_args(rest: &Vec<char>, lineno: usize) -> (r: Result<(Duration, Vec<char>), ParseError>)
    ensures
        match r {
            Ok((d, p)) => spec_wait_args(rest@) == Ok::<(nat, Seq<char>), Seq<char>>((d@, p@)),
            Err(e) => e.line == lineno && spec_wait_args(rest@) == Err::<(nat, Seq<char>), Seq<char>>(e.msg@),
        },
{
    if rest.len() == 0 {
        return Err(err(lineno, "`wait` requires a pattern".to_owned()));
    }
    let (head, tail) = split_verb_chars(rest);
    if head.len() > 0 && tail.len() == 0 {
        return Ok((Duration::from_millis(120_000), rest.clone()));
    }
    match duration_from_chars(&head) {
        Ok(d) => Ok((d, tail)),
        Err(_) => Ok((Duration::from_millis(120_000), rest.clone())),
    }
}

/// A `loop` header.
#[derive(Debug)]
struct LoopHeader {
    total: Duration,
    every: Duration,
}

fn parse_loop_header(rest: &Vec<char>, lineno: usize) -> (r: Result<LoopHeader, ParseError>)
    ensures
        match r {
            Ok(h) => spec_loop_header(rest@) == Ok::<(nat, nat), Seq<char>>((h.total@, h.every@)),
            Err(e) => e.line == lineno && spec_loop_header(rest@) == Err::<(nat, nat), Seq<char>>(e.msg@),
        },
{
    let (total_str, tail) = split_verb_chars(rest);
    if total_str.len() == 0 {
        return Err(err(lineno, "`loop` requires <total> every <interval>".to_owned()));
    }
    let total = match duration_from_chars(&total_str) {
        Ok(d) => d,
        Err(m) => return Err(err(lineno, m)),
    };
    let (kw, interval_str) = split_verb_chars(&tail);
    if !chars_eq_str(&kw, "every") {
        return Err(err(lineno, "`loop` syntax: `loop <total> every <interval>`".to_owned()));
    }
    let every = match duration_from_chars(&interval_str) {
        Ok(d) => d,
        Err(m) => return Err(err(lineno, m)),
    };
    if every.is_zero() {
        return Err(err(lineno, "loop interval must be > 0".to_owned()));
    }
    Ok(LoopHeader { total, every })
}

/// An open `loop`: its header, the body read so far and its line.
struct LoopFrame {
    hdr: LoopHeader,
    body: Vec<Step>,
    line: usize,
}

spec fn frame_view(f: LoopFrame) -> FrameView {
    FrameView { total: f.hdr.total@, every: f.hdr.every@, body: steps_view(f.body@), line: f.line as nat }
}

/// The parser's state: top-level steps and open loops.
struct ParseState {
    top: Vec<Step>,
    stack: Vec<LoopFrame>,
}

spec fn state_view(st: ParseState) -> ParseView {
    ParseView {
        top: steps_view(st.top@),
        stack: Seq::new(st.stack@.len(), |i: int| frame_view(st.stack@[i])),
    }
}

/// Appends a step to the innermost open loop, or to the top level.
fn push_step(st: ParseState, step: Step) -> (r: ParseState)
    ensures
        state_view(r) == push_step_view(state_view(st), step.view_step()),
{
    let ghost sv = state_view(st);
    let mut st = st;
    if st.stack.len() == 0 {
        st.top.push(step);
        assert(state_view(st).top =~= sv.top.push(step.view_step()));
        assert(state_view(st).stack =~= sv.stack);
        st
    } else {
        let mut f = st.stack.pop().unwrap();
        let ghost fv = frame_view(f);
        f.body.push(step);
        assert(steps_view(f.body@) =~= fv.body.push(step.view_step()));
        st.stack.push(f);
        assert(state_view(st).stack =~= push_step_view(sv, step.view_step()).stack);
        assert(state_view(st).top =~= sv.top);
        st
    }
}

/// A `loop` step made from a closed frame.
fn close_frame(f: LoopFrame) -> (r: Step)
    ensures
        r.view_step() == (StepView::Loop {
            total: frame_view(f).total,
            every: frame_view(f).every,
            body: frame_view(f).body,
        }),
{
    let ghost fv = frame_view(f);
    let r = Step::Loop { total: f.hdr.total, every: f.hdr.every, body: f.body };
    assert(r.view_step()->Loop_body =~= fv.body);
    r
}

/// Applies one line (1-based number `ln`) of a script to the parser's state.
fn feed_line(st: ParseState, ln: usize, raw: &Vec<char>) -> (r: Result<ParseState, ParseError>)
    ensures
        match r {
            Ok(st2) => parse_line(state_view(st), ln as nat, raw@) == Ok::<ParseView, ErrView>(
                state_view(st2),
            ),
            Err(e) => parse_line(state_view(st), ln as nat, raw@) == Err::<ParseView, ErrView>(
                (e.line as nat, e.msg@),
            ),
        },
{
    let ghost sv = state_view(st);
    let stripped = strip_comment_chars(raw);
    let line = trim_chars(&stripped);
    if line.len() == 0 {
        return Ok(st);
    }
    let (verb, rest) = split_verb_chars(&line);
    if chars_eq_str(&verb, "end") {
        if rest.len() > 0 {
            return Err(err(ln, "`end` takes no arguments".to_owned()));
        }
        let mut st = st;
        match st.stack.pop() {
            None => Err(err(ln, "`end` without matching `loop`".to_owned())),
            Some(f) => {
                assert(state_view(st).stack =~= sv.stack.drop_last());
                let step = close_frame(f);
                Ok(push_step(st, step))
            },
        }
    } else if chars_eq_str(&verb, "wait") {
        let (timeout, pattern_src) = match parse_wait_args(&rest, ln) {
            Ok(a) => a,
            Err(e) => return Err(e),
        };
        let ps = string_of(&pattern_src);
        match Pattern::compile(ps.as_str()) {
            Ok(pattern) => Ok(push_step(st, Step::Wait { timeout, pattern })),
            Err(m) => Err(err(ln, m)),
        }
    } else if chars_eq_str(&verb, "send") {
        if rest.len() == 0 {
            return Err(err(ln, "`send` requires a command".to_owned()));
        }
        let cmd = string_of(&rest);
        Ok(push_step(st, Step::Send(cmd)))
    } else if chars_eq_str(&verb, "sleep") {
        match duration_from_chars(&rest) {
            Ok(d) => Ok(push_step(st, Step::Sleep(d))),
            Err(m) => Err(err(ln, m)),
        }
    } else if chars_eq_str(&verb, "grab") {
        let (name, pattern_src) = split_verb_chars(&rest);
        if name.len() == 0 {
            return Err(err(ln, "`grab` requires a metric name".to_owned()));
        }
        if pattern_src.len() == 0 {
            return Err(err(ln, "`grab` requires a pattern".to_owned()));
        }
        if !is_ident_chars(&name) {
            let d = debug_chars(&name);
            return Err(
                err(ln, join3("metric name ", d.as_str(), " must be [A-Za-z_][A-Za-z0-9_]*")),
            );
        }
        let ps = string_of(&pattern_src);
        let pattern = match Pattern::compile(ps.as_str()) {
            Ok(p) => p,
            Err(m) => return Err(err(ln, m)),
        };
        if pattern.group_count() < 2 {
            return Err(
                err(ln, "`grab` pattern must include {} or a regex capture group".to_owned()),
            );
        }
        let name_s = string_of(&name);
        Ok(push_step(st, Step::Grab { name: name_s, pattern }))
    } else if chars_eq_str(&verb, "loop") {
        let hdr = match parse_loop_header(&rest, ln) {
            Ok(h) => h,
            Err(e) => return Err(e),
        };
        let mut st = st;
        let f = LoopFrame { hdr, body: Vec::new(), line: ln };
        assert(frame_view(f).body =~= Seq::<StepView>::empty());
        st.stack.push(f);
        assert(state_view(st).stack =~= sv.stack.push(frame_view(f)));
        Ok(st)
    } else if chars_eq_str(&verb, "stop") {
        if rest.len() > 0 {
            return Err(err(ln, "`stop` takes no arguments".to_owned()));
        }
        Ok(push_step(st, Step::Stop))
    } else if chars_eq_str(&verb, "start") {
        if rest.len() > 0 {
            return Err(err(ln, "`start` takes no arguments".to_owned()));
        }
        Ok(push_step(st, Step::Start))
    } else {
        let d = debug_chars(&verb);
        Err(err(ln, join2("unknown verb ", d.as_str())))
    }
}

/// Parses a scenario script. `path` is the script's path; its file stem
/// names the scenario.
///
/// Each non-blank line (after its `#` comment is removed) is one verb with
/// its arguments; `loop` opens a body that `end` closes. The first error is
/// reported with its 1-based line.
pub fn parse(src: &str, path: &str) -> (r: Result<Scenario, ParseError>)
    ensures
        match r {
            Ok(sc) => {
                &&& spec_parse_steps(src@) == Ok::<Seq<StepView>, ErrView>(steps_view(sc.steps@))
                &&& sc.name@ == scenario_name(path@)
                &&& sc.path@ == path@
            },
            Err(e) => spec_parse_steps(src@) == Err::<Seq<StepView>, ErrView>(
                (e.line as nat, e.msg@),
            ),
        },
{
    let name = scenario_name_of(path);
    let text = chars_of(src);
    let ls = lines_of(&text);
    let ghost lsv = views(ls@);
    let mut st = ParseState { top: Vec::new(), stack: Vec::new() };
    assert(state_view(st).top =~= empty_parse().top);
    assert(state_view(st).stack =~= empty_parse().stack);
    let mut idx: usize = 0;
    while idx < ls.len()
        invariant
            idx <= ls.len(),
            lsv == views(ls@),
            lsv == lines(text@),
            text@ == src@,
            parse_prefix(lsv, idx as nat) == Ok::<ParseView, ErrView>(state_view(st)),
        decreases ls.len() - idx,
    {
        let lineno = idx + 1;
        assert(ls@[idx as int]@ == lsv[idx as int]);
        match feed_line(st, lineno, &ls[idx]) {
            Ok(st2) => {
                st = st2;
            },
            Err(e) => {
                proof {
                    lemma_prefix_err(lsv, (idx + 1) as nat, lsv.len());
                }
                return Err(e);
            },
        }
        idx = idx + 1;
    }
    if st.stack.len() > 0 {
        let ln = st.stack[st.stack.len() - 1].line;
        return Err(err(ln, "`loop` missing matching `end`".to_owned()));
    }
    assert(steps_view(st.top@) == state_view(st).top);
    Ok(Scenario { name, path: path.to_owned(), steps: st.top })
}

// ---------------------------------------------------------------------------
// Laws of the language.

/// Parse errors name a line of the script: between 1 and the number of
/// lines.
pub proof fn law_error_line_in_script(src: Seq<char>)
    requires
        spec_parse_steps(src) is Err,
    ensures
        1 <= spec_parse_steps(src)->Err_0.0 <= lines(src).len(),
{
    let ls = lines(src);
    lemma_prefix_lines(ls, ls.len());
}

proof fn lemma_prefix_lines(ls: Seq<Seq<char>>, n: nat)
    requires
        n <= ls.len(),
    ensures
        parse_prefix(ls, n) matches Ok(st) ==> forall|k: int|
            0 <= k < st.stack.len() ==> 1 <= (#[trigger] st.stack[k]).line <= n,
        parse_prefix(ls, n) matches Err(e) ==> 1 <= e.0 <= n,
    decreases n,
{
    if n > 0 {
        lemma_prefix_lines(ls, (n - 1) as nat);
        match parse_prefix(ls, (n - 1) as nat) {
            Ok(st) => {
                let r = parse_line(st, n, ls[n - 1]);
                match r {
                    Ok(st2) => {
                        assert forall|k: int| 0 <= k < st2.stack.len() implies 1 <= (
                        #[trigger] st2.stack[k]).line <= n by {
                            if k < st.stack.len() - 1 || (k < st.stack.len() && st2.stack.len()
                                >= st.stack.len()) {
                                assert(st2.stack[k].line == st.stack[k].line
                                    || st2.stack[k].line == n);
                            }
                        }
                    },
                    Err(_) => {},
                }
            },
            Err(_) => {},
        }
    }
}

/// Comments and surrounding whitespace do not change a script's meaning:
/// two scripts whose lines agree once comments are cut and the rest is
/// trimmed parse alike.
pub proof fn law_comments_ignored(a: Seq<char>, b: Seq<char>)
    requires
        lines(a).len() == lines(b).len(),
        forall|i: int|
            0 <= i < lines(a).len() ==> trim(strip_comment(#[trigger] lines(a)[i])) == trim(
                strip_comment(lines(b)[i]),
            ),
    ensures
        spec_parse_steps(a) == spec_parse_steps(b),
{
    lemma_prefix_same_code(lines(a), lines(b), lines(a).len());
}

proof fn lemma_prefix_same_code(a: Seq<Seq<char>>, b: Seq<Seq<char>>, n: nat)
    requires
        a.len() == b.len(),
        n <= a.len(),
        forall|i: int| 0 <= i < a.len() ==> trim(strip_comment(#[trigger] a[i])) == trim(
            strip_comment(b[i]),
        ),
    ensures
        parse_prefix(a, n) == parse_prefix(b, n),
    decreases n,
{
    if n > 0 {
        lemma_prefix_same_code(a, b, (n - 1) as nat);
        assert(trim(strip_comment(a[n - 1])) == trim(strip_comment(b[n - 1])));
    }
}

/// The code of a line: the comment cut, the rest trimmed.
pub open spec fn code_of(raw: Seq<char>) -> Seq<char> {
    trim(strip_comment(raw))
}

/// The code of the lines that hold any, in order: what is left of a script
/// once blank and comment-only lines are taken out.
pub open spec fn code_lines(ls: Seq<Seq<char>>) -> Seq<Seq<char>>
    decreases ls.len(),
{
    if ls.len() == 0 {
        seq![]
    } else if code_of(ls.last()).len() == 0 {
        code_lines(ls.drop_last())
    } else {
        code_lines(ls.drop_last()).push(code_of(ls.last()))
    }
}

/// The parser's state with the line numbers of the open loops forgotten.
pub open spec fn unlined(st: ParseView) -> ParseView {
    ParseView {
        top: st.top,
        stack: Seq::new(
            st.stack.len(),
            |i: int|
                FrameView {
                    total: st.stack[i].total,
                    every: st.stack[i].every,
                    body: st.stack[i].body,
                    line: 0,
                },
        ),
    }
}

/// A parse outcome with line numbers forgotten: the state, or the message.
pub open spec fn unlined_outcome(r: Result<ParseView, ErrView>) -> Result<ParseView, Seq<char>> {
    match r {
        Ok(st) => Ok(unlined(st)),
        Err(e) => Err(e.1),
    }
}

/// Parsing code lines alone, with line numbers forgotten.
pub open spec fn parse_codes(cs: Seq<Seq<char>>) -> Result<ParseView, Seq<char>>
    decreases cs.len(),
{
    if cs.len() == 0 {
        Ok(empty_parse())
    } else {
        match parse_codes(cs.drop_last()) {
            Ok(st) => unlined_outcome(parse_code(st, 0, cs.last())),
            Err(m) => Err(m),
        }
    }
}

proof fn lemma_unlined_push(st: ParseView, step: StepView)
    ensures
        unlined(push_step_view(st, step)) == unlined(push_step_view(unlined(st), step)),
{
    let a = unlined(push_step_view(st, step));
    let b = unlined(push_step_view(unlined(st), step));
    if st.stack.len() > 0 {
        assert(unlined(st).stack.last().body == st.stack.last().body);
        assert(unlined(st).stack.drop_last() =~= unlined(
            ParseView { top: st.top, stack: st.stack.drop_last() },
        ).stack);
    }
    assert(a.stack =~= b.stack);
}

proof fn lemma_parse_code_unlined(st: ParseView, ln: nat, c: Seq<char>)
    ensures
        unlined_outcome(parse_code(st, ln, c)) == unlined_outcome(parse_code(unlined(st), 0, c)),
{
    let u = unlined(st);
    reveal_strlit("end");
    reveal_strlit("wait");
    reveal_strlit("send");
    reveal_strlit("sleep");
    reveal_strlit("grab");
    reveal_strlit("loop");
    if c.len() > 0 {
        let (verb, rest) = split_verb(c);
        if verb == "end"@ {
            if rest.len() == 0 && st.stack.len() > 0 {
                let f = st.stack.last();
                let g = u.stack.last();
                assert(g.total == f.total && g.every == f.every && g.body == f.body);
                let p = ParseView { top: st.top, stack: st.stack.drop_last() };
                let q = ParseView { top: u.top, stack: u.stack.drop_last() };
                assert(unlined(p).stack =~= unlined(q).stack);
                assert(unlined(p) == unlined(q));
                let step = StepView::Loop { total: f.total, every: f.every, body: f.body };
                lemma_unlined_push(p, step);
                lemma_unlined_push(q, step);
                assert(parse_code(st, ln, c) == Ok::<ParseView, ErrView>(push_step_view(p, step)));
                assert(parse_code(u, 0, c) == Ok::<ParseView, ErrView>(push_step_view(q, step)));
            } else {
                assert(u.stack.len() == st.stack.len());
            }
        } else if verb == "loop"@ {
            assert(verb[0] == 'l');
            assert("wait"@[0] == 'w' && "send"@[0] == 's' && "sleep"@[0] == 's' && "grab"@[0]
                == 'g');
            match spec_loop_header(rest) {
                Ok((total, every)) => {
                    let p = ParseView {
                        top: st.top,
                        stack: st.stack.push(FrameView { total, every, body: seq![], line: ln }),
                    };
                    let q = ParseView {
                        top: u.top,
                        stack: u.stack.push(FrameView { total, every, body: seq![], line: 0 }),
                    };
                    assert(unlined(p).stack =~= unlined(q).stack);
                    assert(parse_code(st, ln, c) == Ok::<ParseView, ErrView>(p));
                    assert(parse_code(u, 0, c) == Ok::<ParseView, ErrView>(q));
                },
                Err(_) => {},
            }
        } else {
            assert forall|step: StepView|
                unlined(push_step_view(st, step)) == #[trigger] unlined(push_step_view(u, step)) by {
                lemma_unlined_push(st, step);
            }
        }
    } else {
        lemma_unlined_twice(st);
    }
}

proof fn lemma_unlined_twice(st: ParseView)
    ensures
        unlined(unlined(st)) == unlined(st),
{
    assert(unlined(unlined(st)).stack =~= unlined(st).stack);
}

proof fn lemma_prefix_codes(ls: Seq<Seq<char>>, n: nat)
    requires
        n <= ls.len(),
    ensures
        unlined_outcome(parse_prefix(ls, n)) == parse_codes(code_lines(ls.take(n as int))),
    decreases n,
{
    if n == 0 {
        assert(ls.take(0) =~= Seq::<Seq<char>>::empty());
        assert(unlined(empty_parse()).stack =~= empty_parse().stack);
    } else {
        lemma_prefix_codes(ls, (n - 1) as nat);
        let t = ls.take(n as int);
        assert(t.drop_last() =~= ls.take(n - 1));
        assert(t.last() == ls[n - 1]);
        let c = code_of(ls[n - 1]);
        match parse_prefix(ls, (n - 1) as nat) {
            Ok(st) => {
                if c.len() > 0 {
                    let cs = code_lines(t);
                    assert(cs.drop_last() == code_lines(ls.take(n - 1)));
                    assert(cs.last() == c);
                    lemma_parse_code_unlined(st, n, c);
                    match parse_code(unlined(st), 0, c) {
                        Ok(x) => lemma_unlined_twice(x),
                        Err(_) => {},
                    }
                }
            },
            Err(_) => {
                if c.len() > 0 {
                    let cs = code_lines(t);
                    assert(cs.drop_last() == code_lines(ls.take(n - 1)));
                }
            },
        }
    }
}

/// Blank lines and comment-only lines can be added or taken out anywhere,
/// and comments changed, without changing what a script means: two scripts
/// with the same code lines in the same order either both parse, to the
/// same steps, or both fail with the same message (at lines that the
/// inserted lines may shift).
pub proof fn law_blank_and_comment_lines_ignored(a: Seq<char>, b: Seq<char>)
    requires
        code_lines(lines(a)) == code_lines(lines(b)),
    ensures
        spec_parse_steps(a) is Ok <==> spec_parse_steps(b) is Ok,
        spec_parse_steps(a) is Ok ==> spec_parse_steps(a) == spec_parse_steps(b),
        spec_parse_steps(a) is Err ==> spec_parse_steps(a)->Err_0.1 == spec_parse_steps(b)->Err_0.1,
{
    let la = lines(a);
    let lb = lines(b);
    lemma_prefix_codes(la, la.len());
    lemma_prefix_codes(lb, lb.len());
    assert(la.take(la.len() as int) =~= la);
    assert(lb.take(lb.len() as int) =~= lb);
    match (parse_prefix(la, la.len()), parse_prefix(lb, lb.len())) {
        (Ok(x), Ok(y)) => {
            assert(unlined(x) == unlined(y));
            assert(x.stack.len() == unlined(x).stack.len());
            assert(y.stack.len() == unlined(y).stack.len());
        },
        _ => {},
    }
}

proof fn lemma_digit_char(d: nat)
    requires
        d < 10,
    ensures
        is_digit(digit_char(d)),
        (digit_char(d) as nat) - ('0' as nat) == d,
{
}

pub proof fn lemma_dec_digits(n: nat)
    ensures
        dec(n).len() > 0,
        forall|i: int| 0 <= i < dec(n).len() ==> is_digit(#[trigger] dec(n)[i]),
        digits_value(dec(n)) == n,
    decreases n,
{
    lemma_digit_char(n % 10);
    if n < 10 {
        assert(dec(n).drop_last() =~= Seq::<char>::empty());
        assert(digits_value(Seq::<char>::empty()) == 0);
        assert(dec(n).last() == digit_char(n));
        assert(n % 10 == n);
        assert(digits_value(dec(n)) == n);
    }
    if n >= 10 {
        lemma_dec_digits(n / 10);
        let p = dec(n / 10);
        assert(dec(n).drop_last() =~= p);
        assert(dec(n).last() == digit_char(n % 10));
        assert(digits_value(dec(n)) == digits_value(p) * 10 + n % 10);
        assert((n / 10) * 10 + n % 10 == n);
        assert forall|i: int| 0 <= i < dec(n).len() implies is_digit(#[trigger] dec(n)[i]) by {
            if i < p.len() {
                assert(dec(n)[i] == p[i]);
            }
        }
    }
}

/// A whole number written in decimal with a unit parses to that many
/// milliseconds, seconds (times 1000) or minutes (times 60000); a count of
/// minutes whose seconds do not fit in 64 bits is refused.
pub proof fn law_duration_units(n: u64)
    ensures
        spec_parse_duration(dec(n as nat) + "ms"@) == Ok::<nat, Seq<char>>(n as nat),
        spec_parse_duration(dec(n as nat) + "s"@) == Ok::<nat, Seq<char>>(n as nat * 1000),
        n as nat * 60 <= u64::MAX ==> spec_parse_duration(dec(n as nat) + "m"@) == Ok::<
            nat,
            Seq<char>,
        >(n as nat * 60000),
        n as nat * 60 > u64::MAX ==> spec_parse_duration(dec(n as nat) + "m"@) == Err::<
            nat,
            Seq<char>,
        >("bad duration number "@ + str_debug(dec(n as nat))),
{
    reveal_strlit("ms");
    reveal_strlit("s");
    reveal_strlit("m");
    lemma_duration_unit(n, "ms"@);
    lemma_duration_unit(n, "s"@);
    lemma_duration_unit(n, "m"@);
}

proof fn lemma_duration_unit(n: u64, unit: Seq<char>)
    requires
        unit.len() > 0,
        !is_digit(unit[0]),
        !is_ws(unit.last()),
        !is_ws(unit[0]),
    ensures
        ({
            let s = dec(n as nat) + unit;
            &&& trim(s) == s
            &&& find_non_digit(s) == Some(dec(n as nat).len())
            &&& s.take(dec(n as nat).len() as int) == dec(n as nat)
            &&& s.skip(dec(n as nat).len() as int) == unit
            &&& digits_value(dec(n as nat)) == n
        }),
{
    let d = dec(n as nat);
    lemma_dec_digits(n as nat);
    let s = d + unit;
    assert(s[0] == d[0]);
    assert(!is_ws(d[0]));
    assert(s.last() == unit.last());
    crate::text::lemma_trim_start_noop(s);
    crate::text::lemma_trim_end_noop(s);
    assert forall|j: int| 0 <= j < d.len() implies is_digit(#[trigger] s[j]) by {
        assert(s[j] == d[j]);
    }
    assert(s[d.len() as int] == unit[0]);
    crate::text::lemma_find_non_digit(s, d.len() as int);
    assert(s.take(d.len() as int) =~= d);
    assert(s.skip(d.len() as int) =~= unit);
}

// ---------------------------------------------------------------------------
// What single lines mean.

/// A text without `c`: `c` is not found in it.
proof fn lemma_no_char(x: Seq<char>, c: char)
    requires
        crate::text::lacks(x, c),
    ensures
        find_char(x, c) is None,
{
    crate::text::lemma_find_char(x, c, x.len() as int);
}

/// The parts of a text around what trimming keeps: whitespace, the trimmed
/// text, whitespace.
proof fn lemma_trim_split(a: Seq<char>)
    requires
        trim(a).len() > 0,
    ensures
        ({
            let l = crate::text::lead_ws(a) as int;
            let m = trim(a);
            &&& a == a.take(l) + m + a.skip(l + m.len())
            &&& crate::text::all_ws(a.take(l))
            &&& crate::text::all_ws(a.skip(l + m.len()))
            &&& crate::text::no_ws_start(m)
            &&& crate::text::no_ws_end(m)
        }),
{
    let l = crate::text::lead_ws(a) as int;
    let m = trim(a);
    crate::text::lemma_trim_props(a);
    crate::text::lemma_lead_ws_props(a);
    let t = a.skip(l);
    crate::text::lemma_trail_ws_props(t);
    assert(trim_start(a) == t);
    assert(m == t.take(t.len() - crate::text::trail_ws(t)));
    assert forall|j: int| 0 <= j < a.skip(l + m.len()).len() implies is_ws(
        #[trigger] a.skip(l + m.len())[j],
    ) by {
        assert(a.skip(l + m.len())[j] == t[m.len() + j]);
    }
    assert(a =~= a.take(l) + m + a.skip(l + m.len()));
}

/// The code of a line `v a`, with `v` a word and `a` no comment: the verb
/// `v` and the trimmed arguments.
pub proof fn lemma_line_code(v: Seq<char>, a: Seq<char>)
    requires
        v.len() > 0,
        forall|j: int| 0 <= j < v.len() ==> !is_ws(#[trigger] v[j]),
        crate::text::lacks(v, '#'),
        crate::text::lacks(a, '#'),
        trim(a).len() > 0,
    ensures
        split_verb(code_of(v + seq![' '] + a)) == (v, trim(a)),
{
    let x = v + seq![' '] + a;
    assert(crate::text::lacks(x, '#')) by {
        assert forall|j: int| 0 <= j < x.len() implies #[trigger] x[j] != '#' by {
            if j < v.len() {
                assert(x[j] == v[j]);
            } else if j > v.len() {
                assert(x[j] == a[j - v.len() - 1]);
            }
        }
    }
    lemma_no_char(x, '#');
    assert(strip_comment(x) == x);
    lemma_trim_split(a);
    let l = crate::text::lead_ws(a) as int;
    let m = trim(a);
    let p = a.take(l);
    let q = a.skip(l + m.len());
    let body = seq![' '] + p + m;
    let y = v + body;
    assert(x =~= y + q);
    crate::text::lemma_trim_end_ws_suffix(y, q);
    assert(y.last() == m.last());
    crate::text::lemma_trim_end_noop(y);
    assert(y[0] == v[0]);
    crate::text::lemma_trim_start_noop(x);
    assert(x[0] == v[0]);
    assert(trim(x) == y);
    crate::text::lemma_trim_start_noop(y);
    crate::text::lemma_find_ws(body, 0);
    crate::text::lemma_find_ws_concat(v, body);
    assert(y.take(v.len() as int) =~= v);
    assert(y.skip(v.len() as int) =~= body);
    assert(crate::text::all_ws(seq![' '] + p)) by {
        assert forall|j: int| 0 <= j < (seq![' '] + p).len() implies is_ws(
            #[trigger] (seq![' '] + p)[j],
        ) by {
            if j > 0 {
                assert((seq![' '] + p)[j] == p[j - 1]);
            }
        }
    }
    assert(body =~= (seq![' '] + p) + m);
    crate::text::lemma_trim_start_ws_prefix(seq![' '] + p, m);
    crate::text::lemma_trim_start_noop(m);
}

/// What the parser makes of its state after the last line.
pub open spec fn finished(r: Result<ParseView, ErrView>) -> Result<Seq<StepView>, ErrView> {
    match r {
        Err(e) => Err(e),
        Ok(st) => if st.stack.len() > 0 {
            Err((st.stack.last().line, "`loop` missing matching `end`"@))
        } else {
            Ok(st.top)
        },
    }
}

/// A one-line script: its steps, or its error.
proof fn lemma_one_line(l: Seq<char>)
    requires
        crate::text::lacks(l, '\n'),
        l.len() == 0 || l.last() != '\r',
    ensures
        spec_parse_steps(l + "\n"@) == finished(parse_line(empty_parse(), 1, l)),
{
    reveal_strlit("\n");
    assert(l + "\n"@ =~= l + seq!['\n'] + Seq::<char>::empty());
    crate::text::lemma_lines_cons(l, Seq::<char>::empty());
    assert(lines(Seq::<char>::empty()) == Seq::<Seq<char>>::empty());
    assert(lines(l + "\n"@) =~= seq![l]);
    assert(parse_prefix(seq![l], 0) == Ok::<ParseView, ErrView>(empty_parse()));
}

/// The verbs of the language differ from each other.
proof fn lemma_verbs_differ()
    ensures
        "end"@ != "wait"@,
        "end"@ != "send"@,
        "end"@ != "sleep"@,
        "end"@ != "grab"@,
        "end"@ != "loop"@,
        "end"@ != "stop"@,
        "end"@ != "start"@,
        "wait"@ != "send"@,
        "wait"@ != "sleep"@,
        "wait"@ != "grab"@,
        "wait"@ != "loop"@,
        "wait"@ != "stop"@,
        "wait"@ != "start"@,
        "send"@ != "sleep"@,
        "send"@ != "grab"@,
        "send"@ != "loop"@,
        "send"@ != "stop"@,
        "send"@ != "start"@,
        "sleep"@ != "grab"@,
        "sleep"@ != "loop"@,
        "sleep"@ != "stop"@,
        "sleep"@ != "start"@,
        "grab"@ != "loop"@,
        "grab"@ != "stop"@,
        "grab"@ != "start"@,
        "loop"@ != "stop"@,
        "loop"@ != "start"@,
        "stop"@ != "start"@,
{
    reveal_strlit("end");
    reveal_strlit("wait");
    reveal_strlit("send");
    reveal_strlit("sleep");
    reveal_strlit("grab");
    reveal_strlit("loop");
    reveal_strlit("stop");
    reveal_strlit("start");
    assert("end"@ != "wait"@) by {
        if "end"@.len() == "wait"@.len() {
            assert("end"@[0] != "wait"@[0] || "end"@[1] != "wait"@[1] || "end"@[2] != "wait"@[2]);
        }
    }
    assert("end"@ != "send"@) by {
        if "end"@.len() == "send"@.len() {
            assert("end"@[0] != "send"@[0] || "end"@[1] != "send"@[1] || "end"@[2] != "send"@[2]);
        }
    }
    assert("end"@ != "sleep"@) by {
        if "end"@.len() == "sleep"@.len() {
            assert("end"@[0] != "sleep"@[0] || "end"@[1] != "sleep"@[1] || "end"@[2] != "sleep"@[2]);
        }
    }
    assert("end"@ != "grab"@) by {
        if "end"@.len() == "grab"@.len() {
            assert("end"@[0] != "grab"@[0] || "end"@[1] != "grab"@[1] || "end"@[2] != "grab"@[2]);
        }
    }
    assert("end"@ != "loop"@) by {
        if "end"@.len() == "loop"@.len() {
            assert("end"@[0] != "loop"@[0] || "end"@[1] != "loop"@[1] || "end"@[2] != "loop"@[2]);
        }
    }
    assert("end"@ != "stop"@) by {
        if "end"@.len() == "stop"@.len() {
            assert("end"@[0] != "stop"@[0] || "end"@[1] != "stop"@[1] || "end"@[2] != "stop"@[2]);
        }
    }
    assert("end"@ != "start"@) by {
        if "end"@.len() == "start"@.len() {
            assert("end"@[0] != "start"@[0] || "end"@[1] != "start"@[1] || "end"@[2] != "start"@[2]);
        }
    }
    assert("wait"@ != "send"@) by {
        if "wait"@.len() == "send"@.len() {
            assert("wait"@[0] != "send"@[0] || "wait"@[1] != "send"@[1] || "wait"@[2] != "send"@[2]);
        }
    }
    assert("wait"@ != "sleep"@) by {
        if "wait"@.len() == "sleep"@.len() {
            assert("wait"@[0] != "sleep"@[0] || "wait"@[1] != "sleep"@[1] || "wait"@[2] != "sleep"@[2]);
        }
    }
    assert("wait"@ != "grab"@) by {
        if "wait"@.len() == "grab"@.len() {
            assert("wait"@[0] != "grab"@[0] || "wait"@[1] != "grab"@[1] || "wait"@[2] != "grab"@[2]);
        }
    }
    assert("wait"@ != "loop"@) by {
        if "wait"@.len() == "loop"@.len() {
            assert("wait"@[0] != "loop"@[0] || "wait"@[1] != "loop"@[1] || "wait"@[2] != "loop"@[2]);
        }
    }
    assert("wait"@ != "stop"@) by {
        if "wait"@.len() == "stop"@.len() {
            assert("wait"@[0] != "stop"@[0] || "wait"@[1] != "stop"@[1] || "wait"@[2] != "stop"@[2]);
        }
    }
    assert("wait"@ != "start"@) by {
        if "wait"@.len() == "start"@.len() {
            assert("wait"@[0] != "start"@[0] || "wait"@[1] != "start"@[1] || "wait"@[2] != "start"@[2]);
        }
    }
    assert("send"@ != "sleep"@) by {
        if "send"@.len() == "sleep"@.len() {
            assert("send"@[0] != "sleep"@[0] || "send"@[1] != "sleep"@[1] || "send"@[2] != "sleep"@[2]);
        }
    }
    assert("send"@ != "grab"@) by {
        if "send"@.len() == "grab"@.len() {
            assert("send"@[0] != "grab"@[0] || "send"@[1] != "grab"@[1] || "send"@[2] != "grab"@[2]);
        }
    }
    assert("send"@ != "loop"@) by {
        if "send"@.len() == "loop"@.len() {
            assert("send"@[0] != "loop"@[0] || "send"@[1] != "loop"@[1] || "send"@[2] != "loop"@[2]);
        }
    }
    assert("send"@ != "stop"@) by {
        if "send"@.len() == "stop"@.len() {
            assert("send"@[0] != "stop"@[0] || "send"@[1] != "stop"@[1] || "send"@[2] != "stop"@[2]);
        }
    }
    assert("send"@ != "start"@) by {
        if "send"@.len() == "start"@.len() {
            assert("send"@[0] != "start"@[0] || "send"@[1] != "start"@[1] || "send"@[2] != "start"@[2]);
        }
    }
    assert("sleep"@ != "grab"@) by {
        if "sleep"@.len() == "grab"@.len() {
            assert("sleep"@[0] != "grab"@[0] || "sleep"@[1] != "grab"@[1] || "sleep"@[2] != "grab"@[2]);
        }
    }
    assert("sleep"@ != "loop"@) by {
        if "sleep"@.len() == "loop"@.len() {
            assert("sleep"@[0] != "loop"@[0] || "sleep"@[1] != "loop"@[1] || "sleep"@[2] != "loop"@[2]);
        }
    }
    assert("sleep"@ != "stop"@) by {
        if "sleep"@.len() == "stop"@.len() {
            assert("sleep"@[0] != "stop"@[0] || "sleep"@[1] != "stop"@[1] || "sleep"@[2] != "stop"@[2]);
        }
    }
    assert("sleep"@ != "start"@) by {
        if "sleep"@.len() == "start"@.len() {
            assert("sleep"@[0] != "start"@[0] || "sleep"@[1] != "start"@[1] || "sleep"@[2] != "start"@[2]);
        }
    }
    assert("grab"@ != "loop"@) by {
        if "grab"@.len() == "loop"@.len() {
            assert("grab"@[0] != "loop"@[0] || "grab"@[1] != "loop"@[1] || "grab"@[2] != "loop"@[2]);
        }
    }
    assert("grab"@ != "stop"@) by {
        if "grab"@.len() == "stop"@.len() {
            assert("grab"@[0] != "stop"@[0] || "grab"@[1] != "stop"@[1] || "grab"@[2] != "stop"@[2]);
        }
    }
    assert("grab"@ != "start"@) by {
        if "grab"@.len() == "start"@.len() {
            assert("grab"@[0] != "start"@[0] || "grab"@[1] != "start"@[1] || "grab"@[2] != "start"@[2]);
        }
    }
    assert("loop"@ != "stop"@) by {
        if "loop"@.len() == "stop"@.len() {
            assert("loop"@[0] != "stop"@[0] || "loop"@[1] != "stop"@[1] || "loop"@[2] != "stop"@[2]);
        }
    }
    assert("loop"@ != "start"@) by {
        if "loop"@.len() == "start"@.len() {
            assert("loop"@[0] != "start"@[0] || "loop"@[1] != "start"@[1] || "loop"@[2] != "start"@[2]);
        }
    }
    assert("stop"@ != "start"@) by {
        if "stop"@.len() == "start"@.len() {
            assert("stop"@[0] != "start"@[0] || "stop"@[1] != "start"@[1] || "stop"@[2] != "start"@[2]);
        }
    }
}

/// A script of one line `v a`: what the parser makes of it, with the verb
/// `v` and the trimmed arguments.
proof fn lemma_verb_line(v: Seq<char>, a: Seq<char>)
    requires
        v.len() > 0,
        forall|j: int| 0 <= j < v.len() ==> !is_ws(#[trigger] v[j]),
        crate::text::lacks(v, '#'),
        crate::text::lacks(v, '\n'),
        crate::text::lacks(a, '#'),
        crate::text::lacks(a, '\n'),
        crate::text::lacks(a, '\r'),
        trim(a).len() > 0,
    ensures
        ({
            let l = v + seq![' '] + a;
            &&& crate::text::lacks(l, '\n')
            &&& l.last() != '\r'
            &&& spec_parse_steps(l + "\n"@) == finished(parse_code(empty_parse(), 1, code_of(l)))
            &&& code_of(l).len() > 0
            &&& split_verb(code_of(l)) == (v, trim(a))
        }),
{
    let l = v + seq![' '] + a;
    assert(crate::text::lacks(l, '\n')) by {
        assert forall|j: int| 0 <= j < l.len() implies #[trigger] l[j] != '\n' by {
            if j < v.len() {
                assert(l[j] == v[j]);
            } else if j > v.len() {
                assert(l[j] == a[j - v.len() - 1]);
            }
        }
    }
    assert(l.last() != '\r') by {
        if a.len() > 0 {
            assert(l.last() == a.last());
        }
    }
    lemma_one_line(l);
    lemma_line_code(v, a);
}

/// A script of one line holding only the word `v`.
proof fn lemma_word_line(v: Seq<char>)
    requires
        v.len() > 0,
        forall|j: int| 0 <= j < v.len() ==> !is_ws(#[trigger] v[j]),
        crate::text::lacks(v, '#'),
        crate::text::lacks(v, '\n'),
    ensures
        spec_parse_steps(v + "\n"@) == finished(parse_code(empty_parse(), 1, v)),
        code_of(v) == v,
        split_verb(v) == (v, Seq::<char>::empty()),
{
    assert(v.last() != '\r') by {
        assert(!is_ws(v[v.len() - 1]));
    }
    lemma_one_line(v);
    lemma_no_char(v, '#');
    crate::text::lemma_trim_start_noop(v);
    assert(!is_ws(v.last()));
    crate::text::lemma_trim_end_noop(v);
    crate::text::lemma_find_ws(v, v.len() as int);
}

/// `send` takes the whole rest of its line, trimmed, as the console
/// command: a script line `send c` is the one step `Send(c)` with `c`
/// trimmed, spaces inside it kept.
pub proof fn law_send_takes_the_whole_line(c: Seq<char>)
    requires
        crate::text::lacks(c, '#'),
        crate::text::lacks(c, '\n'),
        crate::text::lacks(c, '\r'),
        trim(c).len() > 0,
    ensures
        spec_parse_steps("send "@ + c + "\n"@) == Ok::<Seq<StepView>, ErrView>(
            seq![StepView::Send(trim(c))],
        ),
{
    reveal_strlit("send ");
    reveal_strlit("send");
    lemma_verbs_differ();
    let v = "send"@;
    assert("send "@ + c =~= v + seq![' '] + c);
    lemma_verb_line(v, c);
}

/// `start` and `stop` alone on a line are the steps of that name, and an
/// `end` with no open `loop` is refused.
pub proof fn law_bare_verbs()
    ensures
        spec_parse_steps("start\n"@) == Ok::<Seq<StepView>, ErrView>(seq![StepView::Start]),
        spec_parse_steps("stop\n"@) == Ok::<Seq<StepView>, ErrView>(seq![StepView::Stop]),
        spec_parse_steps("end\n"@) == Err::<Seq<StepView>, ErrView>(
            (1, "`end` without matching `loop`"@),
        ),
{
    lemma_verbs_differ();
    reveal_strlit("start\n");
    reveal_strlit("stop\n");
    reveal_strlit("end\n");
    reveal_strlit("start");
    reveal_strlit("stop");
    reveal_strlit("end");
    reveal_strlit("\n");
    assert("start\n"@ =~= "start"@ + "\n"@);
    assert("stop\n"@ =~= "stop"@ + "\n"@);
    assert("end\n"@ =~= "end"@ + "\n"@);
    lemma_word_line("start"@);
    lemma_word_line("stop"@);
    lemma_word_line("end"@);
}

/// `start`, `stop` and `end` take no arguments, and `send` needs one.
pub proof fn law_argument_counts(c: Seq<char>)
    requires
        crate::text::lacks(c, '#'),
        crate::text::lacks(c, '\n'),
        crate::text::lacks(c, '\r'),
        trim(c).len() > 0,
    ensures
        spec_parse_steps("start "@ + c + "\n"@) == Err::<Seq<StepView>, ErrView>(
            (1, "`start` takes no arguments"@),
        ),
        spec_parse_steps("stop "@ + c + "\n"@) == Err::<Seq<StepView>, ErrView>(
            (1, "`stop` takes no arguments"@),
        ),
        spec_parse_steps("end "@ + c + "\n"@) == Err::<Seq<StepView>, ErrView>(
            (1, "`end` takes no arguments"@),
        ),
        spec_parse_steps("send\n"@) == Err::<Seq<StepView>, ErrView>(
            (1, "`send` requires a command"@),
        ),
{
    lemma_verbs_differ();
    reveal_strlit("start ");
    reveal_strlit("stop ");
    reveal_strlit("end ");
    reveal_strlit("start");
    reveal_strlit("stop");
    reveal_strlit("end");
    reveal_strlit("send");
    reveal_strlit("send\n");
    reveal_strlit("\n");
    assert("start "@ + c =~= "start"@ + seq![' '] + c);
    assert("stop "@ + c =~= "stop"@ + seq![' '] + c);
    assert("end "@ + c =~= "end"@ + seq![' '] + c);
    assert("send\n"@ =~= "send"@ + "\n"@);
    lemma_verb_line("start"@, c);
    lemma_verb_line("stop"@, c);
    lemma_verb_line("end"@, c);
    lemma_word_line("send"@);
}

/// A `sleep` line is the one step `Sleep` of the duration its argument
/// reads as, or that duration's error: `sleep Nms`, `sleep Ns` and
/// `sleep Nm` sleep N milliseconds, seconds and minutes.
pub proof fn law_sleep_line(d: Seq<char>, n: u64)
    requires
        crate::text::lacks(d, '#'),
        crate::text::lacks(d, '\n'),
        crate::text::lacks(d, '\r'),
        trim(d).len() > 0,
    ensures
        spec_parse_steps("sleep "@ + d + "\n"@) == (match spec_parse_duration(trim(d)) {
            Ok(ms) => Ok::<Seq<StepView>, ErrView>(seq![StepView::Sleep(ms)]),
            Err(m) => Err((1, m)),
        }),
        spec_parse_steps("sleep "@ + dec(n as nat) + "ms\n"@) == Ok::<Seq<StepView>, ErrView>(
            seq![StepView::Sleep(n as nat)],
        ),
        spec_parse_steps("sleep "@ + dec(n as nat) + "s\n"@) == Ok::<Seq<StepView>, ErrView>(
            seq![StepView::Sleep(n as nat * 1000)],
        ),
{
    lemma_sleep_line(d);
    reveal_strlit("ms\n");
    reveal_strlit("s\n");
    reveal_strlit("ms");
    reveal_strlit("s");
    reveal_strlit("\n");
    lemma_dec_digits(n as nat);
    law_duration_units(n);
    let ms = dec(n as nat) + "ms"@;
    let sec = dec(n as nat) + "s"@;
    lemma_duration_unit(n, "ms"@);
    lemma_duration_unit(n, "s"@);
    assert(dec(n as nat) + "ms\n"@ =~= ms + "\n"@);
    assert(dec(n as nat) + "s\n"@ =~= sec + "\n"@);
    assert("sleep "@ + dec(n as nat) + "ms\n"@ =~= "sleep "@ + ms + "\n"@);
    assert("sleep "@ + dec(n as nat) + "s\n"@ =~= "sleep "@ + sec + "\n"@);
    lemma_unit_text(n, "ms"@);
    lemma_unit_text(n, "s"@);
    lemma_sleep_line(ms);
    lemma_sleep_line(sec);
}

/// A number with a unit of letters holds no `#` and no line break.
proof fn lemma_unit_text(n: u64, unit: Seq<char>)
    requires
        forall|j: int| 0 <= j < unit.len() ==> 'a' <= #[trigger] unit[j] <= 'z',
    ensures
        crate::text::lacks(dec(n as nat) + unit, '#'),
        crate::text::lacks(dec(n as nat) + unit, '\n'),
        crate::text::lacks(dec(n as nat) + unit, '\r'),
{
    lemma_dec_digits(n as nat);
    let x = dec(n as nat) + unit;
    assert forall|j: int| 0 <= j < x.len() implies #[trigger] x[j] != '#' && x[j] != '\n' && x[j]
        != '\r' by {
        if j < dec(n as nat).len() {
            assert(x[j] == dec(n as nat)[j]);
        } else {
            assert(x[j] == unit[j - dec(n as nat).len()]);
        }
    }
}

proof fn lemma_sleep_line(d: Seq<char>)
    requires
        crate::text::lacks(d, '#'),
        crate::text::lacks(d, '\n'),
        crate::text::lacks(d, '\r'),
        trim(d).len() > 0,
    ensures
        spec_parse_steps("sleep "@ + d + "\n"@) == (match spec_parse_duration(trim(d)) {
            Ok(ms) => Ok::<Seq<StepView>, ErrView>(seq![StepView::Sleep(ms)]),
            Err(m) => Err((1, m)),
        }),
{
    lemma_verbs_differ();
    reveal_strlit("sleep ");
    reveal_strlit("sleep");
    assert("sleep "@ + d =~= "sleep"@ + seq![' '] + d);
    lemma_verb_line("sleep"@, d);
}

/// The `#`-free, single-line texts that the laws below take as arguments.
pub open spec fn plain_arg(a: Seq<char>) -> bool {
    &&& crate::text::lacks(a, '#')
    &&& crate::text::lacks(a, '\n')
    &&& crate::text::lacks(a, '\r')
    &&& trim(a).len() > 0
}

/// A `loop` header, body lines and an `end` make one `Loop` step whose
/// body is the steps between them, in order; a `loop` left open is refused
/// at its line.
#[verifier::rlimit(60)]
pub proof fn law_loop_block(h: Seq<char>, c: Seq<char>, d: Seq<char>, total: nat, every: nat)
    requires
        plain_arg(h),
        plain_arg(c),
        plain_arg(d),
        spec_loop_header(trim(h)) == Ok::<(nat, nat), Seq<char>>((total, every)),
    ensures
        spec_parse_steps(
            "loop "@ + h + "\n"@ + "send "@ + c + "\n"@ + "send "@ + d + "\n"@ + "end\n"@,
        ) == Ok::<Seq<StepView>, ErrView>(
            seq![
                StepView::Loop {
                    total,
                    every,
                    body: seq![StepView::Send(trim(c)), StepView::Send(trim(d))],
                },
            ],
        ),
        spec_parse_steps("loop "@ + h + "\n"@) == Err::<Seq<StepView>, ErrView>(
            (1, "`loop` missing matching `end`"@),
        ),
{
    lemma_verbs_differ();
    reveal_strlit("loop ");
    reveal_strlit("loop");
    reveal_strlit("send ");
    reveal_strlit("send");
    reveal_strlit("end\n");
    reveal_strlit("end");
    reveal_strlit("\n");
    let l1 = "loop"@ + seq![' '] + h;
    let l2 = "send"@ + seq![' '] + c;
    let l3 = "send"@ + seq![' '] + d;
    let l4 = "end"@;
    assert("loop "@ + h =~= l1);
    assert("send "@ + c =~= l2);
    assert("send "@ + d =~= l3);
    lemma_verb_line("loop"@, h);
    lemma_verb_line("send"@, c);
    lemma_verb_line("send"@, d);
    lemma_word_line("end"@);
    let e = Seq::<char>::empty();
    let src = "loop "@ + h + "\n"@ + "send "@ + c + "\n"@ + "send "@ + d + "\n"@ + "end\n"@;
    assert(src =~= l1 + seq!['\n'] + (l2 + seq!['\n'] + (l3 + seq!['\n'] + (l4 + seq!['\n']
        + e))));
    lemma_three_lines(l2, l3, l4);
    crate::text::lemma_lines_cons(l1, l2 + seq!['\n'] + (l3 + seq!['\n'] + (l4 + seq!['\n'] + e)));
    let ls = lines(src);
    assert(ls =~= seq![l1, l2, l3, l4]);
    let body1 = seq![StepView::Send(trim(c))];
    let body2 = seq![StepView::Send(trim(c)), StepView::Send(trim(d))];
    let st1 = ParseView {
        top: seq![],
        stack: seq![FrameView { total, every, body: seq![], line: 1 }],
    };
    assert(parse_prefix(ls, 0) == Ok::<ParseView, ErrView>(empty_parse()));
    assert(parse_prefix(ls, 1) == Ok::<ParseView, ErrView>(st1));
    let st2 = ParseView { top: seq![], stack: seq![FrameView { total, every, body: body1, line: 1 }] };
    assert(push_step_view(st1, StepView::Send(trim(c))).stack =~= st2.stack);
    assert(parse_prefix(ls, 2) == Ok::<ParseView, ErrView>(st2));
    let st3 = ParseView { top: seq![], stack: seq![FrameView { total, every, body: body2, line: 1 }] };
    assert(body1.push(StepView::Send(trim(d))) =~= body2);
    assert(push_step_view(st2, StepView::Send(trim(d))).stack =~= st3.stack);
    assert(parse_prefix(ls, 3) == Ok::<ParseView, ErrView>(st3));
    let lp = StepView::Loop { total, every, body: body2 };
    let st4 = ParseView { top: seq![lp], stack: seq![] };
    assert(st3.stack.drop_last() =~= Seq::<FrameView>::empty());
    assert(push_step_view(ParseView { top: seq![], stack: seq![] }, lp).top =~= st4.top);
    assert(parse_prefix(ls, 4) == Ok::<ParseView, ErrView>(st4));
}

/// Three lines, each ended by a line feed.
proof fn lemma_three_lines(l1: Seq<char>, l2: Seq<char>, l3: Seq<char>)
    requires
        crate::text::lacks(l1, '\n'),
        crate::text::lacks(l2, '\n'),
        crate::text::lacks(l3, '\n'),
        l1.len() == 0 || l1.last() != '\r',
        l2.len() == 0 || l2.last() != '\r',
        l3.len() == 0 || l3.last() != '\r',
    ensures
        lines(l1 + seq!['\n'] + (l2 + seq!['\n'] + (l3 + seq!['\n'] + Seq::<char>::empty())))
            == seq![l1, l2, l3],
{
    let e = Seq::<char>::empty();
    crate::text::lemma_lines_cons(l3, e);
    crate::text::lemma_lines_cons(l2, l3 + seq!['\n'] + e);
    crate::text::lemma_lines_cons(l1, l2 + seq!['\n'] + (l3 + seq!['\n'] + e));
    assert(lines(e) == Seq::<Seq<char>>::empty());
    assert(seq![l1] + (seq![l2] + (seq![l3] + Seq::<Seq<char>>::empty())) =~= seq![l1, l2, l3]);
}

/// The arguments `v a` of a line, after the verb: their trimmed text splits
/// into the word `v` and the trimmed rest `a`.
proof fn lemma_args_split(v: Seq<char>, a: Seq<char>)
    requires
        v.len() > 0,
        forall|j: int| 0 <= j < v.len() ==> !is_ws(#[trigger] v[j]),
        crate::text::lacks(v, '#'),
        crate::text::lacks(v, '\n'),
        plain_arg(a),
    ensures
        split_verb(trim(v + seq![' '] + a)) == (v, trim(a)),
        plain_arg(v + seq![' '] + a),
{
    lemma_verb_line(v, a);
    let x = v + seq![' '] + a;
    assert(crate::text::lacks(x, '#')) by {
        assert forall|j: int| 0 <= j < x.len() implies #[trigger] x[j] != '#' by {
            if j < v.len() {
                assert(x[j] == v[j]);
            } else if j > v.len() {
                assert(x[j] == a[j - v.len() - 1]);
            }
        }
    }
    assert(crate::text::lacks(x, '\r')) by {
        assert forall|j: int| 0 <= j < x.len() implies #[trigger] x[j] != '\r' by {
            if j < v.len() {
                assert(x[j] == v[j]);
                assert(!is_ws(v[j]));
            } else if j > v.len() {
                assert(x[j] == a[j - v.len() - 1]);
            }
        }
    }
    lemma_no_char(x, '#');
    assert(code_of(x) == trim(x));
}

/// A `wait` line: with a leading duration `Ns`, the step waits that long
/// for the rest of the line as its pattern; with a single word, it waits
/// the default 120 s for that word. An invalid pattern is refused.
pub proof fn law_wait_line(p: Seq<char>, n: u64)
    requires
        plain_arg(p),
    ensures
        spec_parse_steps("wait "@ + dec(n as nat) + "s "@ + p + "\n"@) == (match spec_compile(
            trim(p),
        ) {
            Ok(pv) => Ok::<Seq<StepView>, ErrView>(
                seq![StepView::Wait { timeout: n as nat * 1000, pattern: pv }],
            ),
            Err(m) => Err((1, m)),
        }),
        split_verb(trim(p)).1.len() == 0 ==> spec_parse_steps("wait "@ + p + "\n"@) == (match spec_compile(
            trim(p),
        ) {
            Ok(pv) => Ok::<Seq<StepView>, ErrView>(
                seq![StepView::Wait { timeout: 120000, pattern: pv }],
            ),
            Err(m) => Err((1, m)),
        }),
{
    lemma_verbs_differ();
    reveal_strlit("wait ");
    reveal_strlit("wait");
    reveal_strlit("s ");
    reveal_strlit("s");
    let d = dec(n as nat) + "s"@;
    lemma_unit_text(n, "s"@);
    lemma_duration_unit(n, "s"@);
    law_duration_units(n);
    lemma_dec_digits(n as nat);
    assert forall|j: int| 0 <= j < d.len() implies !is_ws(#[trigger] d[j]) by {
        if j < dec(n as nat).len() {
            assert(d[j] == dec(n as nat)[j]);
        } else {
            assert(d[j] == 's');
        }
    }
    let args = d + seq![' '] + p;
    lemma_args_split(d, p);
    assert("wait "@ + dec(n as nat) + "s "@ + p =~= "wait"@ + seq![' '] + args);
    lemma_verb_line("wait"@, args);
    assert("wait "@ + p =~= "wait"@ + seq![' '] + p);
    lemma_verb_line("wait"@, p);
    lemma_trim_split(p);
}

/// A `grab` line: the metric name, then the rest of the line as the
/// pattern, which must have a capture group; an invalid pattern is refused.
pub proof fn law_grab_line(name: Seq<char>, p: Seq<char>)
    requires
        is_ident(name),
        plain_arg(p),
    ensures
        spec_parse_steps("grab "@ + name + " "@ + p + "\n"@) == (match spec_compile(trim(p)) {
            Ok(pv) => if regex_group_count(pv.source) < 2 {
                Err::<Seq<StepView>, ErrView>(
                    (1, "`grab` pattern must include {} or a regex capture group"@),
                )
            } else {
                Ok(seq![StepView::Grab { name, pattern: pv }])
            },
            Err(m) => Err((1, m)),
        }),
{
    lemma_verbs_differ();
    reveal_strlit("grab ");
    reveal_strlit("grab");
    reveal_strlit(" ");
    assert forall|j: int| 0 <= j < name.len() implies !is_ws(#[trigger] name[j]) && name[j] != '#'
        && name[j] != '\n' by {
        if j > 0 {
            assert(is_ascii_alpha(name[j]) || is_digit(name[j]) || name[j] == '_');
        }
    }
    let args = name + seq![' '] + p;
    lemma_args_split(name, p);
    assert("grab "@ + name + " "@ + p =~= "grab"@ + seq![' '] + args);
    lemma_verb_line("grab"@, args);
}

// ---------------------------------------------------------------------------
// Scripts put one after the other.

proof fn lemma_lines_append(a: Seq<char>, b: Seq<char>)
    requires
        a.len() == 0 || a.last() == '\n',
    ensures
        lines(a + b) == lines(a) + lines(b),
    decreases a.len(),
{
    if a.len() == 0 {
        assert(a + b =~= b);
        assert(lines(a) =~= Seq::<Seq<char>>::empty());
        assert(lines(a) + lines(b) =~= lines(b));
    } else {
        crate::text::lemma_find_char_props(a, '\n');
        if find_char(a, '\n') is None {
            assert(a[a.len() - 1] == '\n');
        }
        let i = find_char(a, '\n')->0 as int;
        let s = a + b;
        assert forall|j: int| 0 <= j < i implies #[trigger] s[j] != '\n' by {
            assert(s[j] == a[j]);
        }
        assert(s[i] == a[i]);
        crate::text::lemma_find_char(s, '\n', i);
        assert(s.take(i) =~= a.take(i));
        let r = a.skip(i + 1);
        assert(s.skip(i + 1) =~= r + b);
        if r.len() > 0 {
            assert(r.last() == a.last());
        }
        lemma_lines_append(r, b);
        assert(lines(s) == seq![crate::text::strip_cr(a.take(i))] + lines(r + b));
        assert(lines(a) == seq![crate::text::strip_cr(a.take(i))] + lines(r));
        assert(lines(s) =~= lines(a) + lines(b));
    }
}

/// The parser's state after lines `1..=n` of `ls`, numbered from `base + 1`,
/// starting from `st`.
pub open spec fn parse_from(st: ParseView, ls: Seq<Seq<char>>, base: nat, n: nat) -> Result<
    ParseView,
    ErrView,
>
    decreases n,
{
    if n == 0 {
        Ok(st)
    } else {
        match parse_from(st, ls, base, (n - 1) as nat) {
            Ok(s2) => parse_line(s2, base + n, ls[n - 1]),
            Err(e) => Err(e),
        }
    }
}

proof fn lemma_prefix_is_from(ls: Seq<Seq<char>>, n: nat)
    ensures
        parse_prefix(ls, n) == parse_from(empty_parse(), ls, 0, n),
    decreases n,
{
    if n > 0 {
        lemma_prefix_is_from(ls, (n - 1) as nat);
    }
}

proof fn lemma_prefix_append(la: Seq<Seq<char>>, lb: Seq<Seq<char>>, k: nat)
    requires
        k <= lb.len(),
    ensures
        parse_prefix(la + lb, la.len() + k) == (match parse_prefix(la, la.len()) {
            Ok(st) => parse_from(st, lb, la.len(), k),
            Err(e) => Err(e),
        }),
    decreases k,
{
    if k == 0 {
        lemma_prefix_same(la, lb, la.len());
    } else {
        lemma_prefix_append(la, lb, (k - 1) as nat);
        assert((la + lb)[la.len() + k - 1] == lb[k - 1]);
    }
}

proof fn lemma_prefix_same(la: Seq<Seq<char>>, lb: Seq<Seq<char>>, j: nat)
    requires
        j <= la.len(),
    ensures
        parse_prefix(la + lb, j) == parse_prefix(la, j),
    decreases j,
{
    if j > 0 {
        lemma_prefix_same(la, lb, (j - 1) as nat);
        assert((la + lb)[j - 1] == la[j - 1]);
    }
}

/// The parser's state with `ta` before its top-level steps.
pub open spec fn after_steps(st: ParseView, ta: Seq<StepView>) -> ParseView {
    ParseView { top: ta + st.top, stack: st.stack }
}

pub open spec fn after_outcome(r: Result<ParseView, ErrView>, ta: Seq<StepView>) -> Result<
    ParseView,
    ErrView,
> {
    match r {
        Ok(st) => Ok(after_steps(st, ta)),
        Err(e) => Err(e),
    }
}

proof fn lemma_push_after(st: ParseView, ta: Seq<StepView>, step: StepView)
    ensures
        push_step_view(after_steps(st, ta), step) == after_steps(push_step_view(st, step), ta),
{
    if st.stack.len() == 0 {
        assert((ta + st.top).push(step) =~= ta + st.top.push(step));
    }
}

proof fn lemma_parse_code_after(st: ParseView, ln: nat, c: Seq<char>, ta: Seq<StepView>)
    ensures
        parse_code(after_steps(st, ta), ln, c) == after_outcome(parse_code(st, ln, c), ta),
{
    let a = after_steps(st, ta);
    assert forall|step: StepView|
        push_step_view(a, step) == #[trigger] after_steps(push_step_view(st, step), ta) by {
        lemma_push_after(st, ta, step);
    }
    if st.stack.len() > 0 {
        let f = st.stack.last();
        let p = ParseView { top: st.top, stack: st.stack.drop_last() };
        let step = StepView::Loop { total: f.total, every: f.every, body: f.body };
        lemma_push_after(p, ta, step);
        assert(ParseView { top: a.top, stack: a.stack.drop_last() } == after_steps(p, ta));
    }
}

proof fn lemma_from_after(st: ParseView, ls: Seq<Seq<char>>, base: nat, n: nat, ta: Seq<StepView>)
    requires
        n <= ls.len(),
    ensures
        parse_from(after_steps(st, ta), ls, base, n) == after_outcome(parse_from(st, ls, base, n), ta),
    decreases n,
{
    if n > 0 {
        lemma_from_after(st, ls, base, (n - 1) as nat, ta);
        match parse_from(st, ls, base, (n - 1) as nat) {
            Ok(s2) => lemma_parse_code_after(s2, base + n, code_of(ls[n - 1]), ta),
            Err(_) => {},
        }
    }
}

proof fn lemma_from_unlined(st: ParseView, ls: Seq<Seq<char>>, base: nat, n: nat)
    requires
        n <= ls.len(),
    ensures
        unlined_outcome(parse_from(st, ls, base, n)) == unlined_outcome(parse_from(st, ls, 0, n)),
    decreases n,
{
    if n > 0 {
        lemma_from_unlined(st, ls, base, (n - 1) as nat);
        match (parse_from(st, ls, base, (n - 1) as nat), parse_from(st, ls, 0, (n - 1) as nat)) {
            (Ok(x), Ok(y)) => {
                let c = code_of(ls[n - 1]);
                lemma_parse_code_unlined(x, base + n, c);
                lemma_parse_code_unlined(y, n, c);
                assert(unlined(x) == unlined(y));
            },
            _ => {},
        }
    }
}

/// Two scripts put one after the other (the first ending in a line feed)
/// parse to the steps of the first followed by those of the second; if the
/// first parses and the second fails, the whole fails with the second's
/// message.
pub proof fn law_scripts_concatenate(a: Seq<char>, b: Seq<char>)
    requires
        a.len() == 0 || a.last() == '\n',
        spec_parse_steps(a) is Ok,
    ensures
        spec_parse_steps(b) is Ok ==> spec_parse_steps(a + b) == Ok::<Seq<StepView>, ErrView>(
            spec_parse_steps(a)->Ok_0 + spec_parse_steps(b)->Ok_0,
        ),
        spec_parse_steps(b) is Err ==> spec_parse_steps(a + b) is Err
            && spec_parse_steps(a + b)->Err_0.1 == spec_parse_steps(b)->Err_0.1,
{
    let la = lines(a);
    let lb = lines(b);
    lemma_lines_append(a, b);
    lemma_prefix_append(la, lb, lb.len());
    let sta = parse_prefix(la, la.len())->Ok_0;
    assert(sta.stack.len() == 0);
    assert(sta == after_steps(empty_parse(), sta.top)) by {
        assert(sta.top + Seq::<StepView>::empty() =~= sta.top);
        assert(sta.stack =~= Seq::<FrameView>::empty());
    }
    assert(after_steps(empty_parse(), sta.top).top =~= sta.top);
    lemma_from_after(empty_parse(), lb, la.len(), lb.len(), sta.top);
    lemma_from_unlined(empty_parse(), lb, la.len(), lb.len());
    lemma_prefix_is_from(lb, lb.len());
    match (parse_from(empty_parse(), lb, la.len(), lb.len()), parse_prefix(lb, lb.len())) {
        (Ok(x), Ok(y)) => {
            assert(unlined(x) == unlined(y));
            assert(x.stack.len() == unlined(x).stack.len());
            assert(y.stack.len() == unlined(y).stack.len());
            assert(x.top == unlined(x).top);
        },
        _ => {},
    }
}

// ---------------------------------------------------------------------------
// Loops around whole scripts.

/// The parser's state `y` of a loop body, seen inside the open loop `f` at
/// line 1: the body's top-level steps go to the loop.
pub open spec fn inside_loop(y: ParseView, f: FrameView) -> ParseView {
    ParseView {
        top: seq![],
        stack: seq![FrameView { total: f.total, every: f.every, body: f.body + y.top, line: f.line }]
            + y.stack,
    }
}

proof fn lemma_push_inside(y: ParseView, f: FrameView, step: StepView)
    ensures
        push_step_view(inside_loop(y, f), step) == inside_loop(push_step_view(y, step), f),
{
    let a = push_step_view(inside_loop(y, f), step);
    let b = inside_loop(push_step_view(y, step), f);
    if y.stack.len() == 0 {
        assert((f.body + y.top).push(step) =~= f.body + y.top.push(step));
    } else {
        assert(inside_loop(y, f).stack.last() == y.stack.last());
    }
    assert(a.stack =~= b.stack);
}

proof fn lemma_parse_code_inside(y: ParseView, ln: nat, c: Seq<char>, f: FrameView)
    requires
        parse_code(y, ln, c) is Ok,
    ensures
        parse_code(inside_loop(y, f), ln, c) == Ok::<ParseView, ErrView>(
            inside_loop(parse_code(y, ln, c)->Ok_0, f),
        ),
{
    let u = inside_loop(y, f);
    assert forall|step: StepView|
        push_step_view(u, step) == #[trigger] inside_loop(push_step_view(y, step), f) by {
        lemma_push_inside(y, f, step);
    }
    if c.len() == 0 {
    } else if split_verb(c).0 == "end"@ {
        if split_verb(c).1.len() == 0 && y.stack.len() > 0 {
            let p = ParseView { top: y.top, stack: y.stack.drop_last() };
            let q = ParseView { top: u.top, stack: u.stack.drop_last() };
            assert(u.stack.last() == y.stack.last());
            assert(q.stack =~= inside_loop(p, f).stack);
            assert(q == inside_loop(p, f));
            let g = y.stack.last();
            lemma_push_inside(p, f, StepView::Loop { total: g.total, every: g.every, body: g.body });
        }
    } else {
        match spec_loop_header(split_verb(c).1) {
            Ok((total, every)) => {
                let fr = FrameView { total, every, body: seq![], line: ln };
                assert(u.stack.push(fr) =~= inside_loop(
                    ParseView { top: y.top, stack: y.stack.push(fr) },
                    f,
                ).stack);
            },
            Err(_) => {},
        }
    }
}

proof fn lemma_from_err_persists(st: ParseView, ls: Seq<Seq<char>>, base: nat, k: nat, n: nat)
    requires
        k <= n,
        parse_from(st, ls, base, k) is Err,
    ensures
        parse_from(st, ls, base, n) == parse_from(st, ls, base, k),
    decreases n - k,
{
    if k < n {
        lemma_from_err_persists(st, ls, base, k, (n - 1) as nat);
    }
}

proof fn lemma_from_inside(lb: Seq<Seq<char>>, f: FrameView, base: nat, k: nat)
    requires
        k <= lb.len(),
        parse_from(empty_parse(), lb, base, k) is Ok,
    ensures
        parse_from(inside_loop(empty_parse(), f), lb, base, k) == Ok::<ParseView, ErrView>(
            inside_loop(parse_from(empty_parse(), lb, base, k)->Ok_0, f),
        ),
    decreases k,
{
    if k > 0 {
        if parse_from(empty_parse(), lb, base, (k - 1) as nat) is Err {
            lemma_from_err_persists(empty_parse(), lb, base, (k - 1) as nat, k);
        }
        lemma_from_inside(lb, f, base, (k - 1) as nat);
        let y = parse_from(empty_parse(), lb, base, (k - 1) as nat)->Ok_0;
        lemma_parse_code_inside(y, base + k, code_of(lb[k - 1]), f);
    }
}

/// A `loop` header, any script that parses as its body, and an `end` make
/// one `Loop` step whose body is that script's steps, in order.
#[verifier::rlimit(40)]
pub proof fn law_loop_wraps_body(h: Seq<char>, body: Seq<char>, total: nat, every: nat)
    requires
        plain_arg(h),
        spec_loop_header(trim(h)) == Ok::<(nat, nat), Seq<char>>((total, every)),
        body.len() == 0 || body.last() == '\n',
        spec_parse_steps(body) is Ok,
    ensures
        spec_parse_steps("loop "@ + h + "\n"@ + body + "end\n"@) == Ok::<Seq<StepView>, ErrView>(
            seq![StepView::Loop { total, every, body: spec_parse_steps(body)->Ok_0 }],
        ),
{
    lemma_verbs_differ();
    reveal_strlit("loop ");
    reveal_strlit("loop");
    reveal_strlit("end\n");
    reveal_strlit("end");
    reveal_strlit("\n");
    let l1 = "loop"@ + seq![' '] + h;
    assert("loop "@ + h =~= l1);
    lemma_verb_line("loop"@, h);
    lemma_word_line("end"@);
    let e = Seq::<char>::empty();
    let tail = body + ("end"@ + seq!['\n'] + e);
    let src = "loop "@ + h + "\n"@ + body + "end\n"@;
    assert(src =~= l1 + seq!['\n'] + tail);
    crate::text::lemma_lines_cons(l1, tail);
    lemma_lines_append(body, "end"@ + seq!['\n'] + e);
    crate::text::lemma_lines_cons("end"@, e);
    assert(lines(e) == Seq::<Seq<char>>::empty());
    let lb = lines(body);
    let lend = lb + seq!["end"@];
    assert(lines(tail) =~= lend);
    let ls = lines(src);
    assert(ls =~= seq![l1] + lend);
    // The header opens the loop.
    let f = FrameView { total, every, body: seq![], line: 1 };
    let st1 = ParseView { top: seq![], stack: seq![f] };
    assert(parse_prefix(seq![l1], 0) == Ok::<ParseView, ErrView>(empty_parse()));
    assert(parse_prefix(seq![l1], 1) == Ok::<ParseView, ErrView>(st1));
    assert(inside_loop(empty_parse(), f).stack =~= st1.stack);
    assert(st1 == inside_loop(empty_parse(), f)) by {
        assert(f.body + empty_parse().top =~= f.body);
    }
    // The body is read inside it.
    lemma_from_unlined(empty_parse(), lb, 1, lb.len());
    lemma_prefix_is_from(lb, lb.len());
    let y = parse_from(empty_parse(), lb, 1, lb.len())->Ok_0;
    let z = parse_prefix(lb, lb.len())->Ok_0;
    assert(unlined(y) == unlined(z));
    assert(y.stack.len() == unlined(y).stack.len() && z.stack.len() == unlined(z).stack.len());
    assert(y.top == z.top);
    lemma_from_inside(lb, f, 1, lb.len());
    assert(lb.take(lb.len() as int) =~= lend.take(lb.len() as int));
    lemma_from_prefix(lb, lend, inside_loop(empty_parse(), f), 1, lb.len());
    assert(parse_from(st1, lend, 1, lb.len()) == Ok::<ParseView, ErrView>(inside_loop(y, f)));
    // Then `end` closes it.
    lemma_prefix_append(seq![l1], lend, lend.len());
    let w = inside_loop(y, f);
    assert(w.stack =~= seq![FrameView { total, every, body: y.top, line: 1 }]);
    assert(f.body + y.top =~= y.top);
    assert(lend[lb.len() as int] == "end"@);
    let lp = StepView::Loop { total, every, body: y.top };
    assert(w.stack.drop_last() =~= Seq::<FrameView>::empty());
    assert(push_step_view(ParseView { top: seq![], stack: seq![] }, lp).top =~= seq![lp]);
}

/// Reading more lines after a prefix that the two line lists share.
proof fn lemma_from_prefix(la: Seq<Seq<char>>, lb: Seq<Seq<char>>, st: ParseView, base: nat, k: nat)
    requires
        k <= la.len(),
        k <= lb.len(),
        la.take(k as int) == lb.take(k as int),
    ensures
        parse_from(st, la, base, k) == parse_from(st, lb, base, k),
    decreases k,
{
    if k > 0 {
        assert(la.take(k - 1) =~= la.take(k as int).take(k - 1));
        assert(lb.take(k - 1) =~= lb.take(k as int).take(k - 1));
        lemma_from_prefix(la, lb, st, base, (k - 1) as nat);
        assert(la[k - 1] == la.take(k as int)[k - 1]);
        assert(lb[k - 1] == lb.take(k as int)[k - 1]);
    }
}

} // verus!
