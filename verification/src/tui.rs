//! The decisions of the terminal interface: keys, line editing, the
//! configuration form, the setup wizard and what each key asks for.
use vstd::prelude::*;
use std::collections::VecDeque;
use crate::config::{Config, Lang};
use crate::fmt::push_str;
use crate::order::{sorted_distinct, sorted_distinct_of, sorted_of, sorted_toggle, toggle_sorted, views_of};
use crate::strings::{L10n, en_table, fill1, preset_table, presets, render_tpl1, render_tpl2, t, zh_table};
use crate::fmt::{dec, dec_string};
use crate::runner::{RunnerEvent, RunnerEventView};
use crate::text::{chars_of, is_whitespace, is_ws, str_is, string_of, trim, trim_chars};

verus! {

// ---------------------------------------------------------------------------
// Keys.

/// A key, as the interface reads it.
#[derive(Clone, Copy, PartialEq, Eq, Structural, Debug)]
pub enum KeyCode {
    Char(char),
    Enter,
    Esc,
    Tab,
    BackTab,
    Left,
    Right,
    Up,
    Down,
    Home,
    End,
    PageUp,
    PageDown,
    Backspace,
    Delete,
    Other,
}

/// A key press, with whether Control was held.
#[derive(Clone, Copy, PartialEq, Eq, Structural, Debug)]
pub struct Key {
    pub code: KeyCode,
    pub ctrl: bool,
}

// ---------------------------------------------------------------------------
// UTF-8 positions.

/// The number of bytes UTF-8 takes for `c`.
pub open spec fn utf8_len(c: char) -> nat {
    if (c as u32) < 0x80 {
        1
    } else if (c as u32) < 0x800 {
        2
    } else if (c as u32) < 0x10000 {
        3
    } else {
        4
    }
}

/// The number of bytes of `s` in UTF-8.
pub open spec fn byte_len(s: Seq<char>) -> nat
    decreases s.len(),
{
    if s.len() == 0 {
        0
    } else {
        byte_len(s.drop_last()) + utf8_len(s.last())
    }
}

/// Byte `b` of `s` starts character `k` (or is the end, `k == s.len()`).
pub open spec fn at_char(s: Seq<char>, b: nat, k: nat) -> bool {
    k <= s.len() && byte_len(s.take(k as int)) == b
}

/// Byte `b` is a character boundary of `s`.
pub open spec fn is_boundary(s: Seq<char>, b: nat) -> bool {
    exists|k: nat| at_char(s, b, k)
}

pub proof fn lemma_byte_len_take_step(s: Seq<char>, k: int)
    requires
        0 <= k < s.len(),
    ensures
        byte_len(s.take(k + 1)) == byte_len(s.take(k)) + utf8_len(s[k]),
{
    assert(s.take(k + 1).drop_last() =~= s.take(k));
}

/// Byte offsets grow with the character index.
pub proof fn lemma_byte_len_take_mono(s: Seq<char>, j: int, k: int)
    requires
        0 <= j < k <= s.len(),
    ensures
        byte_len(s.take(j)) < byte_len(s.take(k)),
    decreases k - j,
{
    lemma_byte_len_take_step(s, k - 1);
    if j < k - 1 {
        lemma_byte_len_take_mono(s, j, k - 1);
    }
}

/// A boundary belongs to one character index.
pub proof fn lemma_at_char_unique(s: Seq<char>, b: nat, j: nat, k: nat)
    requires
        at_char(s, b, j),
        at_char(s, b, k),
    ensures
        j == k,
{
    if j < k {
        lemma_byte_len_take_mono(s, j as int, k as int);
    } else if k < j {
        lemma_byte_len_take_mono(s, k as int, j as int);
    }
}

pub proof fn lemma_byte_len_full(s: Seq<char>)
    ensures
        byte_len(s.take(s.len() as int)) == byte_len(s),
{
    assert(s.take(s.len() as int) =~= s);
}

fn utf8_len_of(c: char) -> (n: usize)
    ensures
        n == utf8_len(c),
{
    let u = c as u32;
    if u < 0x80 {
        1
    } else if u < 0x800 {
        2
    } else if u < 0x10000 {
        3
    } else {
        4
    }
}

/// The character index of byte boundary `b`.
fn char_index(s: &Vec<char>, b: usize) -> (k: usize)
    requires
        is_boundary(s@, b as nat),
    ensures
        at_char(s@, b as nat, k as nat),
{
    let ghost kk = choose|k: nat| at_char(s@, b as nat, k);
    let mut i: usize = 0;
    let mut off: usize = 0;
    assert(s@.take(0) =~= Seq::<char>::empty());
    while off < b
        invariant
            i <= s.len(),
            off == byte_len(s@.take(i as int)),
            off <= b,
            at_char(s@, b as nat, kk),
            i <= kk,
        decreases b - off,
    {
        proof {
            if i == kk {
                assert(false);
            }
            lemma_byte_len_take_step(s@, i as int);
            if i + 1 < kk {
                lemma_byte_len_take_mono(s@, i + 1, kk as int);
            }
        }
        off = off + utf8_len_of(s[i]);
        i = i + 1;
    }
    proof {
        if i < kk {
            lemma_byte_len_take_mono(s@, i as int, kk as int);
        }
    }
    i
}

/// The byte length of the character before byte `idx` (none at the start).
pub fn prev_char_len(s: &str, idx: usize) -> (n: usize)
    requires
        is_boundary(s@, idx as nat),
    ensures
        forall|k: nat|
            at_char(s@, idx as nat, k) ==> n == (if k == 0 {
                0
            } else {
                utf8_len(s@[k - 1])
            }),
{
    let v = chars_of(s);
    let k = char_index(&v, idx);
    proof {
        assert forall|j: nat| at_char(s@, idx as nat, j) implies j == k by {
            lemma_at_char_unique(s@, idx as nat, j, k as nat);
        }
    }
    if k == 0 {
        0
    } else {
        utf8_len_of(v[k - 1])
    }
}

/// The byte length of the character at byte `idx` (none at the end).
pub fn next_char_len(s: &str, idx: usize) -> (n: usize)
    requires
        is_boundary(s@, idx as nat),
    ensures
        forall|k: nat|
            at_char(s@, idx as nat, k) ==> n == (if k == s@.len() {
                0
            } else {
                utf8_len(s@[k as int])
            }),
{
    let v = chars_of(s);
    let k = char_index(&v, idx);
    proof {
        assert forall|j: nat| at_char(s@, idx as nat, j) implies j == k by {
            lemma_at_char_unique(s@, idx as nat, j, k as nat);
        }
    }
    if k == v.len() {
        0
    } else {
        utf8_len_of(v[k])
    }
}

// ---------------------------------------------------------------------------
// Single-line editing.

/// What an editing key does to a line `s` with the cursor before character
/// `k`: the new line and the new cursor (as a character index).
pub open spec fn edit_line(s: Seq<char>, k: nat, code: KeyCode) -> (Seq<char>, nat) {
    match code {
        KeyCode::Left => if k > 0 {
            (s, (k - 1) as nat)
        } else {
            (s, k)
        },
        KeyCode::Right => if k < s.len() {
            (s, k + 1)
        } else {
            (s, k)
        },
        KeyCode::Home => (s, 0),
        KeyCode::End => (s, s.len()),
        KeyCode::Backspace => if k > 0 {
            (s.remove(k - 1), (k - 1) as nat)
        } else {
            (s, k)
        },
        KeyCode::Delete => if k < s.len() {
            (s.remove(k as int), k)
        } else {
            (s, k)
        },
        KeyCode::Char(c) => (s.insert(k as int, c), k + 1),
        _ => (s, k),
    }
}

fn edit_chars(v: &mut Vec<char>, k: usize, code: KeyCode) -> (nk: usize)
    requires
        k <= old(v)@.len() < usize::MAX,
    ensures
        (final(v)@, nk as nat) == edit_line(old(v)@, k as nat, code),
{
    match code {
        KeyCode::Left => if k > 0 {
            k - 1
        } else {
            k
        },
        KeyCode::Right => if k < v.len() {
            k + 1
        } else {
            k
        },
        KeyCode::Home => 0,
        KeyCode::End => v.len(),
        KeyCode::Backspace => if k > 0 {
            v.remove(k - 1);
            k - 1
        } else {
            k
        },
        KeyCode::Delete => if k < v.len() {
            v.remove(k);
            k
        } else {
            k
        },
        KeyCode::Char(c) => {
            v.insert(k, c);
            k + 1
        },
        _ => k,
    }
}

/// The byte offset of character `k`.
fn byte_offset(v: &Vec<char>, k: usize) -> (b: usize)
    requires
        k <= v.len(),
        byte_len(v@) <= usize::MAX,
    ensures
        b == byte_len(v@.take(k as int)),
{
    let mut i: usize = 0;
    let mut off: usize = 0;
    assert(v@.take(0) =~= Seq::<char>::empty());
    while i < k
        invariant
            i <= k <= v.len(),
            off == byte_len(v@.take(i as int)),
            byte_len(v@) <= usize::MAX,
        decreases k - i,
    {
        proof {
            lemma_byte_len_take_step(v@, i as int);
            lemma_byte_len_full(v@);
            if i + 1 < v.len() {
                lemma_byte_len_take_mono(v@, i + 1, v.len() as int);
            }
        }
        off = off + utf8_len_of(v[i]);
        i = i + 1;
    }
    off
}

pub proof fn lemma_byte_len_concat(a: Seq<char>, b: Seq<char>)
    ensures
        byte_len(a + b) == byte_len(a) + byte_len(b),
    decreases b.len(),
{
    if b.len() > 0 {
        lemma_byte_len_concat(a, b.drop_last());
        assert((a + b).drop_last() =~= a + b.drop_last());
    } else {
        assert(a + b =~= a);
    }
}

pub proof fn lemma_len_le_byte_len(s: Seq<char>)
    ensures
        s.len() <= byte_len(s),
    decreases s.len(),
{
    if s.len() > 0 {
        lemma_len_le_byte_len(s.drop_last());
    }
}

/// Inserting or removing one character changes the byte length by at most
/// four.
pub proof fn lemma_edit_byte_len(s: Seq<char>, k: nat, code: KeyCode)
    requires
        k <= s.len(),
    ensures
        byte_len(edit_line(s, k, code).0) <= byte_len(s) + 4,
{
    let (s2, _) = edit_line(s, k, code);
    match code {
        KeyCode::Char(c) => {
            assert(s2 =~= s.take(k as int) + seq![c] + s.skip(k as int));
            assert(s =~= s.take(k as int) + s.skip(k as int));
            lemma_byte_len_concat(s.take(k as int) + seq![c], s.skip(k as int));
            lemma_byte_len_concat(s.take(k as int), seq![c]);
            lemma_byte_len_concat(s.take(k as int), s.skip(k as int));
            assert(seq![c].drop_last() =~= Seq::<char>::empty());
            assert(byte_len(Seq::<char>::empty()) == 0);
            assert(byte_len(seq![c]) == utf8_len(c));
        },
        KeyCode::Backspace => if k > 0 {
            let j = (k - 1) as int;
            assert(s2 =~= s.take(j) + s.skip(j + 1));
            assert(s =~= s.take(j) + seq![s[j]] + s.skip(j + 1));
            lemma_byte_len_concat(s.take(j), s.skip(j + 1));
            lemma_byte_len_concat(s.take(j) + seq![s[j]], s.skip(j + 1));
            lemma_byte_len_concat(s.take(j), seq![s[j]]);
        },
        KeyCode::Delete => if k < s.len() {
            let j = k as int;
            assert(s2 =~= s.take(j) + s.skip(j + 1));
            assert(s =~= s.take(j) + seq![s[j]] + s.skip(j + 1));
            lemma_byte_len_concat(s.take(j), s.skip(j + 1));
            lemma_byte_len_concat(s.take(j) + seq![s[j]], s.skip(j + 1));
            lemma_byte_len_concat(s.take(j), seq![s[j]]);
        },
        _ => {},
    }
}

/// `str::len`. Its documentation: the length in bytes; a `str` is UTF-8, so
/// that is the sum of `char::len_utf8` (1 to 4 bytes by code point, as
/// `utf8_len` states) over its characters. No Rust allocation, hence no
/// string, is larger than `isize::MAX` bytes.
#[verifier::external_body]
fn str_len(s: &str) -> (n: usize)
    ensures
        n == byte_len(s@),
        n <= isize::MAX,
{
    s.len()
}

/// An editing key on line `s` with the cursor at byte `b`: the new line
/// and the new byte cursor.
pub open spec fn edit_at(s: Seq<char>, b: nat, code: KeyCode) -> (Seq<char>, nat) {
    let k = choose|k: nat| at_char(s, b, k);
    let (s2, k2) = edit_line(s, k, code);
    (s2, byte_len(s2.take(k2 as int)))
}

/// The result of `edit_at` keeps the cursor on a character boundary.
pub proof fn lemma_edit_at_boundary(s: Seq<char>, b: nat, code: KeyCode)
    requires
        is_boundary(s, b),
    ensures
        is_boundary(edit_at(s, b, code).0, edit_at(s, b, code).1),
{
    let k = choose|k: nat| at_char(s, b, k);
    let (s2, k2) = edit_line(s, k, code);
    assert(at_char(s2, byte_len(s2.take(k2 as int)), k2));
}

/// What each editing key does, with the cursor before character `k` (at
/// byte `byte_len(s.take(k))`): Right and Left move the cursor over one
/// whole character (nothing at the end or start), Home and End go to the
/// ends, a typed character goes in before the cursor and the cursor after
/// it, Backspace removes the character before the cursor and Delete the
/// one after it; only typing and deleting change the text.
pub proof fn law_editing_keys(s: Seq<char>, k: nat, c: char)
    requires
        k <= s.len(),
    ensures
        ({
            let b = byte_len(s.take(k as int));
            &&& edit_at(s, b, KeyCode::Right) == (s, if k < s.len() {
                byte_len(s.take(k as int + 1))
            } else {
                b
            })
            &&& k < s.len() ==> edit_at(s, b, KeyCode::Right).1 == b + utf8_len(s[k as int])
            &&& edit_at(s, b, KeyCode::Left) == (s, if k > 0 {
                byte_len(s.take(k - 1))
            } else {
                b
            })
            &&& k > 0 ==> edit_at(s, b, KeyCode::Left).1 + utf8_len(s[k - 1]) == b
            &&& edit_at(s, b, KeyCode::Home) == (s, 0nat)
            &&& edit_at(s, b, KeyCode::End) == (s, byte_len(s))
            &&& edit_at(s, b, KeyCode::Char(c)) == (
                s.take(k as int) + seq![c] + s.skip(k as int),
                b + utf8_len(c),
            )
            &&& k > 0 ==> edit_at(s, b, KeyCode::Backspace) == (
                s.take(k - 1) + s.skip(k as int),
                byte_len(s.take(k - 1)),
            )
            &&& k == 0 ==> edit_at(s, b, KeyCode::Backspace) == (s, b)
            &&& k < s.len() ==> edit_at(s, b, KeyCode::Delete) == (
                s.take(k as int) + s.skip(k as int + 1),
                b,
            )
            &&& k == s.len() ==> edit_at(s, b, KeyCode::Delete) == (s, b)
        }),
{
    let b = byte_len(s.take(k as int));
    assert(at_char(s, b, k));
    assert forall|j: nat| at_char(s, b, j) implies j == k by {
        lemma_at_char_unique(s, b, j, k);
    }
    let kk = choose|j: nat| at_char(s, b, j);
    assert(kk == k);
    assert(s.take(0) =~= Seq::<char>::empty());
    lemma_byte_len_full(s);
    if k < s.len() {
        lemma_byte_len_take_step(s, k as int);
        let s2 = s.remove(k as int);
        assert(s2 =~= s.take(k as int) + s.skip(k as int + 1));
        assert(s2.take(k as int) =~= s.take(k as int));
    }
    if k > 0 {
        lemma_byte_len_take_step(s, k - 1);
        let s2 = s.remove(k - 1);
        assert(s2 =~= s.take(k - 1) + s.skip(k as int));
        assert(s2.take(k - 1) =~= s.take(k - 1));
    }
    let s3 = s.insert(k as int, c);
    assert(s3 =~= s.take(k as int) + seq![c] + s.skip(k as int));
    assert(s3.take(k as int + 1) =~= s.take(k as int) + seq![c]);
    lemma_byte_len_concat(s.take(k as int), seq![c]);
    assert(seq![c].drop_last() =~= Seq::<char>::empty());
    assert(byte_len(Seq::<char>::empty()) == 0);
}

/// Left then Right brings the cursor back where it was, and so does Right
/// then Left, when there is a character to move over.
pub proof fn law_left_right_undo(s: Seq<char>, k: nat)
    requires
        k <= s.len(),
    ensures
        ({
            let b = byte_len(s.take(k as int));
            &&& k > 0 ==> edit_at(s, edit_at(s, b, KeyCode::Left).1, KeyCode::Right) == (s, b)
            &&& k < s.len() ==> edit_at(s, edit_at(s, b, KeyCode::Right).1, KeyCode::Left) == (
                s,
                b,
            )
        }),
{
    law_editing_keys(s, k, ' ');
    if k > 0 {
        law_editing_keys(s, (k - 1) as nat, ' ');
    }
    if k < s.len() {
        law_editing_keys(s, k + 1, ' ');
    }
}

/// One editing key on a line whose cursor is the byte offset `cur`: the
/// cursor moves by whole characters, Backspace and Delete remove the
/// character before or after it, and a typed character goes in at it.
pub fn edit_single(buf: &mut String, cur: &mut usize, code: KeyCode)
    requires
        is_boundary(old(buf)@, *old(cur) as nat),
    ensures
        (final(buf)@, *final(cur) as nat) == edit_at(old(buf)@, *old(cur) as nat, code),
        is_boundary(final(buf)@, *final(cur) as nat),
{
    let n = str_len(buf.as_str());
    let mut v = chars_of(buf.as_str());
    let k = char_index(&v, *cur);
    let ghost k0 = k;
    let ghost s0 = v@;
    proof {
        lemma_len_le_byte_len(v@);
        lemma_edit_byte_len(v@, k as nat, code);
        let kc = choose|j: nat| at_char(s0, *old(cur) as nat, j);
        lemma_at_char_unique(s0, *old(cur) as nat, kc, k0 as nat);
    }
    let nk = edit_chars(&mut v, k, code);
    let b = byte_offset(&v, nk);
    *buf = string_of(&v);
    *cur = b;
    proof {
        lemma_edit_at_boundary(s0, *old(cur) as nat, code);
    }
}

// ---------------------------------------------------------------------------
// Splitting a command line into words.

/// The state of the word splitter: words so far, the word being built,
/// whether inside single or double quotes, and whether the last character
/// was an escaping backslash.
pub struct SplitState {
    pub words: Seq<Seq<char>>,
    pub cur: Seq<char>,
    pub single: bool,
    pub double: bool,
    pub escape: bool,
}

pub open spec fn split_start() -> SplitState {
    SplitState { words: seq![], cur: seq![], single: false, double: false, escape: false }
}

/// One character through the splitter: a backslash outside single quotes
/// takes the next character as it is; quotes toggle quoting (a quote of the
/// other kind is kept inside); whitespace outside quotes ends a word.
pub open spec fn split_step(st: SplitState, c: char) -> SplitState {
    if st.escape {
        SplitState { cur: st.cur.push(c), escape: false, ..st }
    } else if c == '\\' && !st.single {
        SplitState { escape: true, ..st }
    } else if c == '\'' && !st.double {
        SplitState { single: !st.single, ..st }
    } else if c == '"' && !st.single {
        SplitState { double: !st.double, ..st }
    } else if is_ws(c) && !st.single && !st.double {
        if st.cur.len() > 0 {
            SplitState { words: st.words.push(st.cur), cur: seq![], ..st }
        } else {
            st
        }
    } else {
        SplitState { cur: st.cur.push(c), ..st }
    }
}

pub open spec fn split_prefix(s: Seq<char>) -> SplitState
    decreases s.len(),
{
    if s.len() == 0 {
        split_start()
    } else {
        split_step(split_prefix(s.drop_last()), s.last())
    }
}

/// The words of a command line, quoted and escaped as a shell would.
pub open spec fn shell_words(s: Seq<char>) -> Seq<Seq<char>> {
    let st = split_prefix(s);
    if st.cur.len() > 0 {
        st.words.push(st.cur)
    } else {
        st.words
    }
}

pub open spec fn strings_of(v: Seq<String>) -> Seq<Seq<char>> {
    Seq::new(v.len(), |i: int| v[i]@)
}

/// Splits a command line into words.
pub fn shell_split(s: &str) -> (r: Vec<String>)
    ensures
        strings_of(r@) == shell_words(s@),
{
    let v = chars_of(s);
    let mut out: Vec<String> = Vec::new();
    let mut cur: Vec<char> = Vec::new();
    let mut single = false;
    let mut double = false;
    let mut escape = false;
    let mut i: usize = 0;
    assert(v@.take(0) =~= Seq::<char>::empty());
    assert(strings_of(out@) =~= Seq::<Seq<char>>::empty());
    while i < v.len()
        invariant
            i <= v.len(),
            split_prefix(v@.take(i as int)) == (SplitState {
                words: strings_of(out@),
                cur: cur@,
                single,
                double,
                escape,
            }),
        decreases v.len() - i,
    {
        let c = v[i];
        let ghost before = out@;
        assert(v@.take(i + 1).drop_last() =~= v@.take(i as int));
        if escape {
            cur.push(c);
            escape = false;
        } else if c == '\\' && !single {
            escape = true;
        } else if c == '\'' && !double {
            single = !single;
        } else if c == '"' && !single {
            double = !double;
        } else if is_whitespace(c) && !single && !double {
            if cur.len() > 0 {
                let w = string_of(&cur);
                out.push(w);
                cur = Vec::new();
                assert(strings_of(out@) =~= strings_of(before).push(w@));
            }
        } else {
            cur.push(c);
        }
        i = i + 1;
    }
    assert(v@.take(v.len() as int) =~= v@);
    if cur.len() > 0 {
        let ghost before = out@;
        let w = string_of(&cur);
        out.push(w);
        assert(strings_of(out@) =~= strings_of(before).push(w@));
    }
    out
}

// ---------------------------------------------------------------------------
// Settings in spec terms.

pub open spec fn opt_chars(o: Option<String>) -> Option<Seq<char>> {
    match o {
        Some(s) => Some(s@),
        None => None,
    }
}

/// `Config` in spec terms.
pub struct ConfigView {
    pub server_dir: Option<Seq<char>>,
    pub server_cmd: Seq<Seq<char>>,
    pub lang: Lang,
    pub scenarios_dir: Seq<char>,
    pub selected: Seq<Seq<char>>,
    pub results_dir: Seq<char>,
}

pub open spec fn config_view(c: Config) -> ConfigView {
    ConfigView {
        server_dir: opt_chars(c.server_dir),
        server_cmd: views_of(c.server_cmd@),
        lang: c.lang,
        scenarios_dir: c.scenarios_dir@,
        selected: views_of(c.selected_scenarios@),
        results_dir: c.results_dir@,
    }
}

/// Words joined with single spaces.
pub open spec fn join_space(ws: Seq<Seq<char>>) -> Seq<char>
    decreases ws.len(),
{
    if ws.len() == 0 {
        seq![]
    } else if ws.len() == 1 {
        ws[0]
    } else {
        join_space(ws.drop_last()) + " "@ + ws.last()
    }
}

/// `slice.join(" ")`.
pub fn join_words(ws: &Vec<String>) -> (r: String)
    ensures
        r@ == join_space(views_of(ws@)),
{
    let mut r = String::new();
    let mut i: usize = 0;
    while i < ws.len()
        invariant
            i <= ws.len(),
            r@ == join_space(views_of(ws@).take(i as int)),
        decreases ws.len() - i,
    {
        let ghost t = views_of(ws@).take(i + 1);
        assert(t.drop_last() =~= views_of(ws@).take(i as int));
        if i > 0 {
            push_str(&mut r, " ");
        } else {
            assert(t.len() == 1);
            assert(views_of(ws@).take(0) =~= Seq::<Seq<char>>::empty());
        }
        push_str(&mut r, ws[i].as_str());
        i = i + 1;
    }
    assert(views_of(ws@).take(ws.len() as int) =~= views_of(ws@));
    r
}

/// The strings of the interface language.
pub open spec fn table(lang: Lang) -> L10n {
    match lang {
        Lang::En => en_table(),
        Lang::Zh => zh_table(),
    }
}

// ---------------------------------------------------------------------------
// The configuration form.

/// The form that edits the server directory, server command, scenarios
/// directory and results directory; `field` is the focused one and `cur`
/// holds each field's cursor (a byte offset).
#[derive(Debug)]
pub struct ConfigForm {
    pub field: usize,
    pub server_dir: String,
    pub server_cmd: String,
    pub scenarios_dir: String,
    pub results_dir: String,
    pub cur: [usize; 4],
}

pub struct FormView {
    pub field: nat,
    pub bufs: Seq<Seq<char>>,
    pub cur: Seq<usize>,
}

impl View for ConfigForm {
    type V = FormView;

    open spec fn view(&self) -> FormView {
        FormView {
            field: self.field as nat,
            bufs: seq![self.server_dir@, self.server_cmd@, self.scenarios_dir@, self.results_dir@],
            cur: self.cur@,
        }
    }
}

/// Fields: focus in range, every cursor on a character boundary.
pub open spec fn form_wf(f: FormView) -> bool {
    &&& f.field < 4
    &&& f.bufs.len() == 4
    &&& f.cur.len() == 4
    &&& forall|i: int| 0 <= i < 4 ==> is_boundary(#[trigger] f.bufs[i], f.cur[i] as nat)
}

/// The form for the settings, every cursor at the end of its field.
pub open spec fn form_of(c: ConfigView) -> FormView {
    let dir = match c.server_dir {
        Some(d) => d,
        None => seq![],
    };
    let cmd = join_space(c.server_cmd);
    FormView {
        field: 0,
        bufs: seq![dir, cmd, c.scenarios_dir, c.results_dir],
        cur: seq![
            byte_len(dir) as usize,
            byte_len(cmd) as usize,
            byte_len(c.scenarios_dir) as usize,
            byte_len(c.results_dir) as usize,
        ],
    }
}

/// What saving the form does to the settings: an empty command is refused;
/// a blank server directory means none; blank directories fall back to
/// their defaults.
pub open spec fn form_apply(f: FormView, c: ConfigView) -> Result<ConfigView, Seq<char>> {
    let words = shell_words(f.bufs[1]);
    if words.len() == 0 {
        Err(table(c.lang).err_server_cmd_empty@)
    } else {
        Ok(
            ConfigView {
                server_dir: if trim(f.bufs[0]).len() == 0 {
                    None
                } else {
                    Some(f.bufs[0])
                },
                server_cmd: words,
                scenarios_dir: if trim(f.bufs[2]).len() == 0 {
                    "./scenarios"@
                } else {
                    f.bufs[2]
                },
                results_dir: if trim(f.bufs[3]).len() == 0 {
                    "./results"@
                } else {
                    f.bufs[3]
                },
                ..c
            },
        )
    }
}

/// An editing key on the focused field.
pub open spec fn form_edit(f: FormView, code: KeyCode) -> FormView {
    let i = f.field as int;
    let (s2, c2) = edit_at(f.bufs[i], f.cur[i] as nat, code);
    FormView { bufs: f.bufs.update(i, s2), cur: f.cur.update(i, c2 as usize), ..f }
}

fn is_blank(s: &str) -> (r: bool)
    ensures
        r == (trim(s@).len() == 0),
{
    let v = chars_of(s);
    let t = trim_chars(&v);
    t.len() == 0
}

impl ConfigForm {
    /// The form for the settings.
    pub fn new(cfg: &Config) -> (f: ConfigForm)
        ensures
            f@ == form_of(config_view(*cfg)),
            form_wf(f@),
    {
        let dir = match &cfg.server_dir {
            Some(d) => d.clone(),
            None => String::new(),
        };
        let cmd = join_words(&cfg.server_cmd);
        let sdir = cfg.scenarios_dir.clone();
        let rdir = cfg.results_dir.clone();
        let cur = [str_len(dir.as_str()), str_len(cmd.as_str()), str_len(sdir.as_str()), str_len(rdir.as_str())];
        let f = ConfigForm { field: 0, server_dir: dir, server_cmd: cmd, scenarios_dir: sdir, results_dir: rdir, cur };
        proof {
            assert(f@.bufs =~= form_of(config_view(*cfg)).bufs);
            assert(f@.cur =~= form_of(config_view(*cfg)).cur);
            assert forall|i: int| 0 <= i < 4 implies is_boundary(#[trigger] f@.bufs[i], f@.cur[i] as nat) by {
                let b = f@.bufs[i];
                lemma_byte_len_full(b);
                assert(at_char(b, f@.cur[i] as nat, b.len()));
            }
        }
        f
    }

    /// Saves the form into the settings, or says why not (the settings are
    /// then left as they were).
    pub fn apply(&self, cfg: &mut Config) -> (r: Result<(), String>)
        ensures
            match form_apply(self@, config_view(*old(cfg))) {
                Ok(c) => r is Ok && config_view(*final(cfg)) == c,
                Err(m) => r matches Err(e) && e@ == m && *final(cfg) == *old(cfg),
            },
    {
        let parts = shell_split(self.server_cmd.as_str());
        if parts.len() == 0 {
            let l = t(cfg.lang);
            return Err(l.err_server_cmd_empty.to_owned());
        }
        cfg.server_dir = if is_blank(self.server_dir.as_str()) {
            None
        } else {
            Some(self.server_dir.clone())
        };
        cfg.server_cmd = parts;
        cfg.scenarios_dir = if is_blank(self.scenarios_dir.as_str()) {
            "./scenarios".to_owned()
        } else {
            self.scenarios_dir.clone()
        };
        cfg.results_dir = if is_blank(self.results_dir.as_str()) {
            "./results".to_owned()
        } else {
            self.results_dir.clone()
        };
        proof {
            assert(views_of(cfg.server_cmd@) =~= shell_words(self@.bufs[1]));
        }
        Ok(())
    }

    /// An editing key on the focused field.
    pub fn edit_field(&mut self, code: KeyCode)
        requires
            form_wf(old(self)@),
        ensures
            final(self)@ == form_edit(old(self)@, code),
            form_wf(final(self)@),
    {
        let i = self.field;
        let ghost f0 = self@;
        assert(is_boundary(f0.bufs[i as int], f0.cur[i as int] as nat));
        let mut c = self.cur[i];
        if i == 0 {
            edit_single(&mut self.server_dir, &mut c, code);
        } else if i == 1 {
            edit_single(&mut self.server_cmd, &mut c, code);
        } else if i == 2 {
            edit_single(&mut self.scenarios_dir, &mut c, code);
        } else {
            edit_single(&mut self.results_dir, &mut c, code);
        }
        self.cur.set(i, c);
        proof {
            let g = form_edit(f0, code);
            assert(self@.bufs =~= g.bufs);
            assert(self@.cur =~= g.cur);
            assert forall|j: int| 0 <= j < 4 implies is_boundary(#[trigger] self@.bufs[j], self@.cur[j] as nat) by {
                if j != i {
                    assert(self@.bufs[j] == f0.bufs[j] && self@.cur[j] == f0.cur[j]);
                }
            }
        }
    }

    /// Focus the next field (Tab), wrapping around.
    pub fn next_field(&mut self)
        requires
            form_wf(old(self)@),
        ensures
            final(self)@ == (FormView { field: (old(self)@.field + 1) % 4, ..old(self)@ }),
            form_wf(final(self)@),
    {
        self.field = (self.field + 1) % 4;
    }

    /// Focus the previous field (Shift-Tab), wrapping around.
    pub fn prev_field(&mut self)
        requires
            form_wf(old(self)@),
        ensures
            final(self)@ == (FormView { field: (old(self)@.field + 3) % 4, ..old(self)@ }),
            form_wf(final(self)@),
    {
        self.field = (self.field + 3) % 4;
    }
}

// ---------------------------------------------------------------------------
// The setup wizard.

/// The first-run wizard: a welcome page, then the server directory, the
/// server command (from presets or typed) and the scenarios to run.
/// `scenario_selected` is kept sorted and without repeats.
#[derive(Debug)]
pub struct Wizard {
    pub page: usize,
    pub dir_buf: String,
    pub dir_cur: usize,
    pub preset_idx: usize,
    pub cmd_buf: String,
    pub cmd_cur: usize,
    pub cmd_edit_focus: bool,
    pub scenario_sel: usize,
    pub scenario_selected: Vec<String>,
}

pub struct WizardView {
    pub page: nat,
    pub dir: Seq<char>,
    pub dir_cur: nat,
    pub preset_idx: nat,
    pub cmd: Seq<char>,
    pub cmd_cur: nat,
    pub cmd_edit_focus: bool,
    pub scenario_sel: nat,
    pub selected: Seq<Seq<char>>,
}

impl View for Wizard {
    type V = WizardView;

    open spec fn view(&self) -> WizardView {
        WizardView {
            page: self.page as nat,
            dir: self.dir_buf@,
            dir_cur: self.dir_cur as nat,
            preset_idx: self.preset_idx as nat,
            cmd: self.cmd_buf@,
            cmd_cur: self.cmd_cur as nat,
            cmd_edit_focus: self.cmd_edit_focus,
            scenario_sel: self.scenario_sel as nat,
            selected: views_of(self.scenario_selected@),
        }
    }
}

pub open spec fn wizard_wf(w: WizardView) -> bool {
    &&& is_boundary(w.dir, w.dir_cur)
    &&& is_boundary(w.cmd, w.cmd_cur)
    &&& sorted_distinct(w.selected)
    &&& w.preset_idx < preset_table().len()
}

/// The wizard for the settings and the scenarios selected so far.
pub open spec fn wizard_of(c: ConfigView, selected: Seq<Seq<char>>) -> WizardView {
    let dir = match c.server_dir {
        Some(d) => d,
        None => seq![],
    };
    let cmd = join_space(c.server_cmd);
    WizardView {
        page: 0,
        dir,
        dir_cur: byte_len(dir),
        preset_idx: 0,
        cmd,
        cmd_cur: byte_len(cmd),
        cmd_edit_focus: false,
        scenario_sel: 0,
        selected: sorted_of(selected),
    }
}

/// What a wizard key leads to besides the wizard's own change.
#[derive(Debug)]
pub enum WizardStep {
    Stay,
    /// Whether this server directory exists has to be found out.
    CheckDir(String),
    /// The server command is empty.
    CmdEmpty,
    Finish,
}

pub enum WizardStepView {
    Stay,
    CheckDir(Seq<char>),
    CmdEmpty,
    Finish,
}

impl View for WizardStep {
    type V = WizardStepView;

    open spec fn view(&self) -> WizardStepView {
        match self {
            WizardStep::Stay => WizardStepView::Stay,
            WizardStep::CheckDir(d) => WizardStepView::CheckDir(d@),
            WizardStep::CmdEmpty => WizardStepView::CmdEmpty,
            WizardStep::Finish => WizardStepView::Finish,
        }
    }
}

/// A preset command chosen with the arrow keys.
pub open spec fn with_preset(w: WizardView, i: nat) -> WizardView {
    let c = preset_table()[i as int].1;
    WizardView { preset_idx: i, cmd: c, cmd_cur: byte_len(c), ..w }
}

/// A key on the wizard page the wizard shows; `names` are the scenarios
/// loaded.
pub open spec fn wizard_key(w: WizardView, code: KeyCode, names: Seq<Seq<char>>) -> (
    WizardView,
    WizardStepView,
) {
    if w.page == 0 {
        if code == KeyCode::Enter {
            (WizardView { page: 1, ..w }, WizardStepView::Stay)
        } else {
            (w, WizardStepView::Stay)
        }
    } else if w.page == 1 {
        if code == KeyCode::Enter {
            let d = trim(w.dir);
            if d.len() == 0 {
                (WizardView { page: 2, ..w }, WizardStepView::Stay)
            } else {
                (w, WizardStepView::CheckDir(d))
            }
        } else {
            let (s2, c2) = edit_at(w.dir, w.dir_cur, code);
            (WizardView { dir: s2, dir_cur: c2, ..w }, WizardStepView::Stay)
        }
    } else if w.page == 2 {
        if code == KeyCode::Enter {
            if shell_words(w.cmd).len() == 0 {
                (w, WizardStepView::CmdEmpty)
            } else {
                (WizardView { page: 3, ..w }, WizardStepView::Stay)
            }
        } else if code == KeyCode::Tab {
            (WizardView { cmd_edit_focus: !w.cmd_edit_focus, ..w }, WizardStepView::Stay)
        } else if !w.cmd_edit_focus {
            match code {
                KeyCode::Up => if w.preset_idx > 0 {
                    (with_preset(w, (w.preset_idx - 1) as nat), WizardStepView::Stay)
                } else {
                    (w, WizardStepView::Stay)
                },
                KeyCode::Down => if w.preset_idx + 1 < preset_table().len() {
                    (with_preset(w, w.preset_idx + 1), WizardStepView::Stay)
                } else {
                    (w, WizardStepView::Stay)
                },
                KeyCode::Char(_) => {
                    let (s2, c2) = edit_at(w.cmd, w.cmd_cur, code);
                    (
                        WizardView { cmd_edit_focus: true, cmd: s2, cmd_cur: c2, ..w },
                        WizardStepView::Stay,
                    )
                },
                _ => (w, WizardStepView::Stay),
            }
        } else {
            let (s2, c2) = edit_at(w.cmd, w.cmd_cur, code);
            (WizardView { cmd: s2, cmd_cur: c2, ..w }, WizardStepView::Stay)
        }
    } else if w.page == 3 {
        match code {
            KeyCode::Up => if w.scenario_sel > 0 {
                (WizardView { scenario_sel: (w.scenario_sel - 1) as nat, ..w }, WizardStepView::Stay)
            } else {
                (w, WizardStepView::Stay)
            },
            KeyCode::Down => if w.scenario_sel + 1 < names.len() {
                (WizardView { scenario_sel: w.scenario_sel + 1, ..w }, WizardStepView::Stay)
            } else {
                (w, WizardStepView::Stay)
            },
            KeyCode::Char(' ') => if w.scenario_sel < names.len() {
                (
                    WizardView {
                        selected: sorted_toggle(w.selected, names[w.scenario_sel as int]),
                        ..w
                    },
                    WizardStepView::Stay,
                )
            } else {
                (w, WizardStepView::Stay)
            },
            KeyCode::Enter => (w, WizardStepView::Finish),
            _ => (w, WizardStepView::Stay),
        }
    } else {
        (w, WizardStepView::Stay)
    }
}

/// The settings the finished wizard leaves: a blank directory means none,
/// the command is split into words, the selection is sorted.
pub open spec fn wizard_config(c: ConfigView, w: WizardView) -> ConfigView {
    ConfigView {
        server_dir: if trim(w.dir).len() == 0 {
            None
        } else {
            Some(trim(w.dir))
        },
        server_cmd: shell_words(w.cmd),
        selected: w.selected,
        ..c
    }
}

impl Wizard {
    /// The wizard for the settings, with the scenarios already selected.
    pub fn new(cfg: &Config, selected: &Vec<String>) -> (w: Wizard)
        ensures
            w@ == wizard_of(config_view(*cfg), views_of(selected@)),
            wizard_wf(w@),
    {
        let dir = match &cfg.server_dir {
            Some(d) => d.clone(),
            None => String::new(),
        };
        let cmd = join_words(&cfg.server_cmd);
        let dir_cur = str_len(dir.as_str());
        let cmd_cur = str_len(cmd.as_str());
        let sel = sorted_distinct_of(selected);
        proof {
            lemma_byte_len_full(dir@);
            lemma_byte_len_full(cmd@);
            assert(at_char(dir@, dir_cur as nat, dir@.len()));
            assert(at_char(cmd@, cmd_cur as nat, cmd@.len()));
        }
        Wizard {
            page: 0,
            dir_buf: dir,
            dir_cur,
            preset_idx: 0,
            cmd_buf: cmd,
            cmd_cur,
            cmd_edit_focus: false,
            scenario_sel: 0,
            scenario_selected: sel,
        }
    }

    fn use_preset(&mut self, i: usize)
        requires
            i < preset_table().len(),
            wizard_wf(old(self)@),
        ensures
            final(self)@ == with_preset(old(self)@, i as nat),
            wizard_wf(final(self)@),
    {
        let ps = presets();
        let c = ps[i].cmd.to_owned();
        let n = str_len(c.as_str());
        proof {
            lemma_byte_len_full(c@);
            assert(at_char(c@, n as nat, c@.len()));
        }
        self.preset_idx = i;
        self.cmd_buf = c;
        self.cmd_cur = n;
    }

    /// A key on the page shown.
    pub fn key(&mut self, code: KeyCode, names: &Vec<String>) -> (st: WizardStep)
        requires
            wizard_wf(old(self)@),
        ensures
            (final(self)@, st@) == wizard_key(old(self)@, code, views_of(names@)),
            wizard_wf(final(self)@),
    {
        if self.page == 0 {
            if code == KeyCode::Enter {
                self.page = 1;
            }
            WizardStep::Stay
        } else if self.page == 1 {
            if code == KeyCode::Enter {
                let v = chars_of(self.dir_buf.as_str());
                let d = trim_chars(&v);
                if d.len() == 0 {
                    self.page = 2;
                    WizardStep::Stay
                } else {
                    WizardStep::CheckDir(string_of(&d))
                }
            } else {
                edit_single(&mut self.dir_buf, &mut self.dir_cur, code);
                WizardStep::Stay
            }
        } else if self.page == 2 {
            if code == KeyCode::Enter {
                let words = shell_split(self.cmd_buf.as_str());
                if words.len() == 0 {
                    WizardStep::CmdEmpty
                } else {
                    self.page = 3;
                    WizardStep::Stay
                }
            } else if code == KeyCode::Tab {
                self.cmd_edit_focus = !self.cmd_edit_focus;
                WizardStep::Stay
            } else if !self.cmd_edit_focus {
                match code {
                    KeyCode::Up => {
                        if self.preset_idx > 0 {
                            self.use_preset(self.preset_idx - 1);
                        }
                    },
                    KeyCode::Down => {
                        if self.preset_idx + 1 < 4 {
                            self.use_preset(self.preset_idx + 1);
                        }
                    },
                    KeyCode::Char(_) => {
                        self.cmd_edit_focus = true;
                        edit_single(&mut self.cmd_buf, &mut self.cmd_cur, code);
                    },
                    _ => {},
                }
                WizardStep::Stay
            } else {
                edit_single(&mut self.cmd_buf, &mut self.cmd_cur, code);
                WizardStep::Stay
            }
        } else if self.page == 3 {
            match code {
                KeyCode::Up => {
                    if self.scenario_sel > 0 {
                        self.scenario_sel = self.scenario_sel - 1;
                    }
                    WizardStep::Stay
                },
                KeyCode::Down => {
                    if self.scenario_sel < names.len() && self.scenario_sel + 1 < names.len() {
                        self.scenario_sel = self.scenario_sel + 1;
                    }
                    WizardStep::Stay
                },
                KeyCode::Char(' ') => {
                    if self.scenario_sel < names.len() {
                        let n = names[self.scenario_sel].clone();
                        toggle_sorted(&mut self.scenario_selected, n);
                    }
                    WizardStep::Stay
                },
                KeyCode::Enter => WizardStep::Finish,
                _ => WizardStep::Stay,
            }
        } else {
            WizardStep::Stay
        }
    }
}

// ---------------------------------------------------------------------------
// The interface state and its keys.

/// Which pane takes the keys.
#[derive(Clone, Copy, PartialEq, Eq, Structural, Debug)]
pub enum Focus {
    Input,
    Scenarios,
    Log,
}

/// A dialog over the main screen.
#[derive(Debug)]
pub enum Modal {
    ConfigForm(ConfigForm),
    Error(String),
    Help,
}

pub enum ModalView {
    ConfigForm(FormView),
    Error(Seq<char>),
    Help,
}

impl View for Modal {
    type V = ModalView;

    open spec fn view(&self) -> ModalView {
        match self {
            Modal::ConfigForm(f) => ModalView::ConfigForm(f@),
            Modal::Error(e) => ModalView::Error(e@),
            Modal::Help => ModalView::Help,
        }
    }
}

/// What the interface shows and edits, apart from the log and the running
/// server: the settings, the focused pane, the console input line and its
/// cursor (a byte offset), the selected scenario row, how far the log is
/// scrolled back, the dialog and the wizard, if any, and whether to quit.
#[derive(Debug)]
pub struct Ui {
    pub config: Config,
    pub focus: Focus,
    pub input: String,
    pub input_cur: usize,
    pub scenario_sel: usize,
    pub log_scroll: usize,
    pub modal: Option<Modal>,
    pub wizard: Option<Wizard>,
    pub should_quit: bool,
}

pub struct UiView {
    pub config: ConfigView,
    pub focus: Focus,
    pub input: Seq<char>,
    pub input_cur: nat,
    pub scenario_sel: nat,
    pub log_scroll: nat,
    pub modal: Option<ModalView>,
    pub wizard: Option<WizardView>,
    pub should_quit: bool,
}

impl View for Ui {
    type V = UiView;

    open spec fn view(&self) -> UiView {
        UiView {
            config: config_view(self.config),
            focus: self.focus,
            input: self.input@,
            input_cur: self.input_cur as nat,
            scenario_sel: self.scenario_sel as nat,
            log_scroll: self.log_scroll as nat,
            modal: match self.modal {
                Some(m) => Some(m@),
                None => None,
            },
            wizard: match self.wizard {
                Some(w) => Some(w@),
                None => None,
            },
            should_quit: self.should_quit,
        }
    }
}

/// Cursors on character boundaries, a well-formed form and wizard.
pub open spec fn ui_wf(u: UiView) -> bool {
    &&& is_boundary(u.input, u.input_cur)
    &&& (u.modal matches Some(ModalView::ConfigForm(f)) ==> form_wf(f))
    &&& (u.wizard matches Some(w) ==> wizard_wf(w))
}

/// What the caller has to do after a key.
#[derive(Debug)]
pub enum UiAction {
    Nothing,
    /// Handle a line typed at the console input.
    SendInput(String),
    StartServer,
    StopServer,
    StartRun,
    Export,
    /// Save the settings (the scenario selection or the language changed).
    SaveConfig,
    /// The form was saved into the settings: say so, save the settings and,
    /// if the scenarios directory changed, reload the scenarios.
    ConfigApplied { reload: bool },
    /// Find out whether the wizard's server directory exists, and answer
    /// with `dir_checked`.
    CheckDir(String),
    /// The wizard was left with Esc.
    WizardSkipped,
    /// The wizard finished and set the settings: save them.
    WizardFinished,
}

pub enum UiActionView {
    Nothing,
    SendInput(Seq<char>),
    StartServer,
    StopServer,
    StartRun,
    Export,
    SaveConfig,
    ConfigApplied { reload: bool },
    CheckDir(Seq<char>),
    WizardSkipped,
    WizardFinished,
}

impl View for UiAction {
    type V = UiActionView;

    open spec fn view(&self) -> UiActionView {
        match self {
            UiAction::Nothing => UiActionView::Nothing,
            UiAction::SendInput(l) => UiActionView::SendInput(l@),
            UiAction::StartServer => UiActionView::StartServer,
            UiAction::StopServer => UiActionView::StopServer,
            UiAction::StartRun => UiActionView::StartRun,
            UiAction::Export => UiActionView::Export,
            UiAction::SaveConfig => UiActionView::SaveConfig,
            UiAction::ConfigApplied { reload } => UiActionView::ConfigApplied { reload: *reload },
            UiAction::CheckDir(d) => UiActionView::CheckDir(d@),
            UiAction::WizardSkipped => UiActionView::WizardSkipped,
            UiAction::WizardFinished => UiActionView::WizardFinished,
        }
    }
}

/// Index of the first `x` in `l`.
pub open spec fn first_index(l: Seq<Seq<char>>, x: Seq<char>) -> Option<nat>
    decreases l.len(),
{
    if l.len() == 0 {
        None
    } else if l[0] == x {
        Some(0)
    } else {
        match first_index(l.drop_first(), x) {
            Some(i) => Some(i + 1),
            None => None,
        }
    }
}

/// The selection with `x` taken out (its first occurrence) or added at the
/// end.
pub open spec fn toggle_list(l: Seq<Seq<char>>, x: Seq<char>) -> Seq<Seq<char>> {
    match first_index(l, x) {
        Some(i) => l.remove(i as int),
        None => l.push(x),
    }
}

pub open spec fn other_lang(l: Lang) -> Lang {
    match l {
        Lang::En => Lang::Zh,
        Lang::Zh => Lang::En,
    }
}

pub open spec fn sat_add(a: nat, b: nat) -> nat {
    if a + b > usize::MAX {
        usize::MAX as nat
    } else {
        a + b
    }
}

pub open spec fn sat_sub(a: nat, b: nat) -> nat {
    if a >= b {
        (a - b) as nat
    } else {
        0
    }
}

/// A key while the wizard is shown.
pub open spec fn ui_wizard_key(u: UiView, w: WizardView, k: Key, names: Seq<Seq<char>>) -> (
    UiView,
    UiActionView,
) {
    if k.ctrl && k.code == KeyCode::Char('c') {
        (UiView { should_quit: true, ..u }, UiActionView::Nothing)
    } else if k.code == KeyCode::Esc {
        (UiView { wizard: None, ..u }, UiActionView::WizardSkipped)
    } else {
        let (w2, st) = wizard_key(w, k.code, names);
        match st {
            WizardStepView::Stay => (UiView { wizard: Some(w2), ..u }, UiActionView::Nothing),
            WizardStepView::CheckDir(d) => (
                UiView { wizard: Some(w2), ..u },
                UiActionView::CheckDir(d),
            ),
            WizardStepView::CmdEmpty => (
                UiView {
                    wizard: Some(w2),
                    modal: Some(ModalView::Error(table(u.config.lang).err_server_cmd_empty@)),
                    ..u
                },
                UiActionView::Nothing,
            ),
            WizardStepView::Finish => (
                UiView { config: wizard_config(u.config, w2), wizard: None, ..u },
                UiActionView::WizardFinished,
            ),
        }
    }
}

/// A key while a dialog is shown.
pub open spec fn ui_modal_key(u: UiView, m: ModalView, k: Key) -> (UiView, UiActionView) {
    match m {
        ModalView::ConfigForm(f) => if k.code == KeyCode::Esc {
            (UiView { modal: None, ..u }, UiActionView::Nothing)
        } else if k.ctrl && k.code == KeyCode::Char('s') {
            match form_apply(f, u.config) {
                Ok(c2) => (
                    UiView { config: c2, modal: None, ..u },
                    UiActionView::ConfigApplied { reload: c2.scenarios_dir != u.config.scenarios_dir },
                ),
                Err(e) => (UiView { modal: Some(ModalView::Error(e)), ..u }, UiActionView::Nothing),
            }
        } else if k.code == KeyCode::Tab {
            (
                UiView {
                    modal: Some(ModalView::ConfigForm(FormView { field: (f.field + 1) % 4, ..f })),
                    ..u
                },
                UiActionView::Nothing,
            )
        } else if k.code == KeyCode::BackTab {
            (
                UiView {
                    modal: Some(ModalView::ConfigForm(FormView { field: (f.field + 3) % 4, ..f })),
                    ..u
                },
                UiActionView::Nothing,
            )
        } else {
            (
                UiView { modal: Some(ModalView::ConfigForm(form_edit(f, k.code))), ..u },
                UiActionView::Nothing,
            )
        },
        _ => if k.code == KeyCode::Esc || k.code == KeyCode::Enter || k.code == KeyCode::Char('q') {
            (UiView { modal: None, ..u }, UiActionView::Nothing)
        } else {
            (u, UiActionView::Nothing)
        },
    }
}

/// A key at the console input line.
pub open spec fn ui_input_key(u: UiView, code: KeyCode) -> (UiView, UiActionView) {
    match code {
        KeyCode::Esc => (UiView { focus: Focus::Log, ..u }, UiActionView::Nothing),
        KeyCode::Enter => (
            UiView { input: seq![], input_cur: 0, ..u },
            if u.input.len() == 0 {
                UiActionView::Nothing
            } else {
                UiActionView::SendInput(u.input)
            },
        ),
        KeyCode::Tab => (UiView { focus: Focus::Scenarios, ..u }, UiActionView::Nothing),
        KeyCode::Left | KeyCode::Right | KeyCode::Home | KeyCode::End | KeyCode::Backspace
        | KeyCode::Delete | KeyCode::Char(_) => {
            let (s2, c2) = edit_at(u.input, u.input_cur, code);
            (UiView { input: s2, input_cur: c2, ..u }, UiActionView::Nothing)
        },
        _ => (u, UiActionView::Nothing),
    }
}

/// Up in the focused list: the previous scenario, or the log further back.
pub open spec fn ui_nav_up(u: UiView) -> UiView {
    match u.focus {
        Focus::Scenarios => if u.scenario_sel > 0 {
            UiView { scenario_sel: (u.scenario_sel - 1) as nat, ..u }
        } else {
            u
        },
        Focus::Log => UiView { log_scroll: sat_add(u.log_scroll, 1), ..u },
        Focus::Input => u,
    }
}

/// Down in the focused list: the next scenario, or the log forward.
pub open spec fn ui_nav_down(u: UiView, n: nat) -> UiView {
    match u.focus {
        Focus::Scenarios => if u.scenario_sel + 1 < n {
            UiView { scenario_sel: u.scenario_sel + 1, ..u }
        } else {
            u
        },
        Focus::Log => UiView { log_scroll: sat_sub(u.log_scroll, 1), ..u },
        Focus::Input => u,
    }
}

/// A key on the main screen, away from the input line.
pub open spec fn ui_main_key(u: UiView, code: KeyCode, names: Seq<Seq<char>>) -> (UiView, UiActionView) {
    let nothing = UiActionView::Nothing;
    match code {
        KeyCode::Tab => (
            UiView {
                focus: match u.focus {
                    Focus::Input => Focus::Scenarios,
                    Focus::Scenarios => Focus::Log,
                    Focus::Log => Focus::Input,
                },
                ..u
            },
            nothing,
        ),
        KeyCode::Char(c) => if c == 'i' || c == '/' {
            (UiView { focus: Focus::Input, ..u }, nothing)
        } else if c == 'q' {
            (UiView { should_quit: true, ..u }, nothing)
        } else if c == 's' {
            (u, UiActionView::StartServer)
        } else if c == 'S' {
            (u, UiActionView::StopServer)
        } else if c == 'r' {
            (u, UiActionView::StartRun)
        } else if c == 'x' {
            (u, UiActionView::Export)
        } else if c == ' ' {
            if u.focus == Focus::Scenarios && u.scenario_sel < names.len() {
                (
                    UiView {
                        config: ConfigView {
                            selected: toggle_list(u.config.selected, names[u.scenario_sel as int]),
                            ..u.config
                        },
                        ..u
                    },
                    UiActionView::SaveConfig,
                )
            } else {
                (u, nothing)
            }
        } else if c == 'j' {
            (ui_nav_down(u, names.len()), nothing)
        } else if c == 'k' {
            (ui_nav_up(u), nothing)
        } else if c == 'c' {
            (UiView { modal: Some(ModalView::ConfigForm(form_of(u.config))), ..u }, nothing)
        } else if c == 'L' {
            (
                UiView { config: ConfigView { lang: other_lang(u.config.lang), ..u.config }, ..u },
                UiActionView::SaveConfig,
            )
        } else if c == '?' {
            (UiView { modal: Some(ModalView::Help), ..u }, nothing)
        } else {
            (u, nothing)
        },
        KeyCode::Up => (ui_nav_up(u), nothing),
        KeyCode::Down => (ui_nav_down(u, names.len()), nothing),
        KeyCode::PageUp => if u.focus == Focus::Log {
            (UiView { log_scroll: sat_add(u.log_scroll, 10), ..u }, nothing)
        } else {
            (u, nothing)
        },
        KeyCode::PageDown => if u.focus == Focus::Log {
            (UiView { log_scroll: sat_sub(u.log_scroll, 10), ..u }, nothing)
        } else {
            (u, nothing)
        },
        KeyCode::Home => if u.focus == Focus::Log {
            (UiView { log_scroll: (usize::MAX / 2) as nat, ..u }, nothing)
        } else {
            (u, nothing)
        },
        KeyCode::End => if u.focus == Focus::Log {
            (UiView { log_scroll: 0, ..u }, nothing)
        } else {
            (u, nothing)
        },
        _ => (u, nothing),
    }
}

/// What a key does: to the wizard if it is shown, else to the dialog if
/// one is shown; Ctrl-C quits; then to the input line if it has the focus,
/// else to the main screen. `names` are the scenarios loaded.
pub open spec fn ui_key(u: UiView, k: Key, names: Seq<Seq<char>>) -> (UiView, UiActionView) {
    match u.wizard {
        Some(w) => ui_wizard_key(u, w, k, names),
        None => match u.modal {
            Some(m) => ui_modal_key(u, m, k),
            None => if k.ctrl && k.code == KeyCode::Char('c') {
                (UiView { should_quit: true, ..u }, UiActionView::Nothing)
            } else if u.focus == Focus::Input {
                ui_input_key(u, k.code)
            } else {
                ui_main_key(u, k.code, names)
            },
        },
    }
}

/// The answer to `UiAction::CheckDir`: on to the command page, or an error
/// dialog.
pub open spec fn ui_dir_checked(u: UiView, exists: bool) -> UiView {
    match u.wizard {
        Some(w) => if w.page == 1 {
            if exists {
                UiView { wizard: Some(WizardView { page: 2, ..w }), ..u }
            } else {
                UiView {
                    modal: Some(ModalView::Error(table(u.config.lang).err_server_dir_missing@)),
                    ..u
                }
            }
        } else {
            u
        },
        None => u,
    }
}

/// Whether the first-run wizard is needed: no settings file was found, or
/// the server directory or command is missing.
pub open spec fn needs_wizard(existed: bool, c: ConfigView) -> bool {
    !existed || (match c.server_dir {
        Some(d) => d.len() == 0,
        None => true,
    }) || c.server_cmd.len() == 0
}

fn toggle_in_list(l: &mut Vec<String>, x: String)
    ensures
        views_of(final(l)@) == toggle_list(views_of(old(l)@), x@),
{
    let ghost v0 = views_of(l@);
    let mut i: usize = 0;
    assert(v0.skip(0) =~= v0);
    while i < l.len()
        invariant
            i <= l.len(),
            views_of(l@) == v0,
            v0 == views_of(old(l)@),
            first_index(v0, x@) == (match first_index(v0.skip(i as int), x@) {
                Some(j) => Some((j + i) as nat),
                None => None::<nat>,
            }),
        decreases l.len() - i,
    {
        assert(v0.skip(i as int).drop_first() =~= v0.skip(i + 1));
        if str_is(l[i].as_str(), x.as_str()) {
            assert(v0.skip(i as int)[0] == x@);
            assert(first_index(v0.skip(i as int), x@) == Some(0nat));
            assert(first_index(v0, x@) == Some(i as nat));
            l.remove(i);
            assert(views_of(l@) =~= v0.remove(i as int));
            return;
        }
        i = i + 1;
    }
    assert(v0.skip(i as int).len() == 0);
    l.push(x);
    assert(views_of(l@) =~= v0.push(x@));
}

impl Ui {
    /// The interface for the settings loaded (`existed`: a settings file was
    /// found), with the wizard if it is needed.
    pub fn new(config: Config, existed: bool) -> (u: Ui)
        ensures
            u@.config == config_view(config),
            u@.focus == Focus::Input,
            u@.input.len() == 0,
            u@.input_cur == 0,
            u@.scenario_sel == 0,
            u@.log_scroll == 0,
            u@.modal is None,
            !u@.should_quit,
            u@.wizard == (if needs_wizard(existed, config_view(config)) {
                Some(wizard_of(config_view(config), config_view(config).selected))
            } else {
                None::<WizardView>
            }),
            ui_wf(u@),
    {
        let dir_missing = match &config.server_dir {
            Some(d) => str_len(d.as_str()) == 0,
            None => true,
        };
        proof {
            if config.server_dir is Some {
                lemma_len_le_byte_len(config.server_dir.unwrap()@);
                if config.server_dir.unwrap()@.len() > 0 {
                    assert(byte_len(config.server_dir.unwrap()@) > 0) by {
                        lemma_byte_len_take_mono(config.server_dir.unwrap()@, 0, config.server_dir.unwrap()@.len() as int);
                        lemma_byte_len_full(config.server_dir.unwrap()@);
                        assert(config.server_dir.unwrap()@.take(0) =~= Seq::<char>::empty());
                    }
                }
            }
        }
        let wizard = if !existed || dir_missing || config.server_cmd.len() == 0 {
            Some(Wizard::new(&config, &config.selected_scenarios))
        } else {
            None
        };
        let input = String::new();
        proof {
            assert(input@.take(0) =~= Seq::<char>::empty());
            assert(at_char(input@, 0, 0));
        }
        Ui {
            config,
            focus: Focus::Input,
            input,
            input_cur: 0,
            scenario_sel: 0,
            log_scroll: 0,
            modal: None,
            wizard,
            should_quit: false,
        }
    }

    fn wizard_key(&mut self, k: Key, names: &Vec<String>) -> (a: UiAction)
        requires
            ui_wf(old(self)@),
            old(self)@.wizard is Some,
        ensures
            (final(self)@, a@) == ui_wizard_key(old(self)@, old(self)@.wizard->0, k, views_of(names@)),
            ui_wf(final(self)@),
    {
        if k.ctrl && k.code == KeyCode::Char('c') {
            self.should_quit = true;
            return UiAction::Nothing;
        }
        if k.code == KeyCode::Esc {
            self.wizard = None;
            return UiAction::WizardSkipped;
        }
        let mut w = self.wizard.take().unwrap();
        let st = w.key(k.code, names);
        match st {
            WizardStep::Stay => {
                self.wizard = Some(w);
                UiAction::Nothing
            },
            WizardStep::CheckDir(d) => {
                self.wizard = Some(w);
                UiAction::CheckDir(d)
            },
            WizardStep::CmdEmpty => {
                self.wizard = Some(w);
                let l = t(self.config.lang);
                self.modal = Some(Modal::Error(l.err_server_cmd_empty.to_owned()));
                UiAction::Nothing
            },
            WizardStep::Finish => {
                let dv = chars_of(w.dir_buf.as_str());
                let d = trim_chars(&dv);
                self.config.server_dir = if d.len() == 0 {
                    None
                } else {
                    Some(string_of(&d))
                };
                self.config.server_cmd = shell_split(w.cmd_buf.as_str());
                self.config.selected_scenarios = w.scenario_selected;
                UiAction::WizardFinished
            },
        }
    }

    fn modal_key(&mut self, k: Key) -> (a: UiAction)
        requires
            ui_wf(old(self)@),
            old(self)@.wizard is None,
            old(self)@.modal is Some,
        ensures
            (final(self)@, a@) == ui_modal_key(old(self)@, old(self)@.modal->0, k),
            ui_wf(final(self)@),
    {
        let m = self.modal.take().unwrap();
        match m {
            Modal::ConfigForm(mut f) => {
                if k.code == KeyCode::Esc {
                    return UiAction::Nothing;
                }
                if k.ctrl && k.code == KeyCode::Char('s') {
                    let old_dir = self.config.scenarios_dir.clone();
                    match f.apply(&mut self.config) {
                        Ok(()) => {
                            let same = str_is(self.config.scenarios_dir.as_str(), old_dir.as_str());
                            return UiAction::ConfigApplied { reload: !same };
                        },
                        Err(e) => {
                            self.modal = Some(Modal::Error(e));
                            return UiAction::Nothing;
                        },
                    }
                }
                if k.code == KeyCode::Tab {
                    f.next_field();
                } else if k.code == KeyCode::BackTab {
                    f.prev_field();
                } else {
                    f.edit_field(k.code);
                }
                self.modal = Some(Modal::ConfigForm(f));
                UiAction::Nothing
            },
            Modal::Error(e) => {
                if !(k.code == KeyCode::Esc || k.code == KeyCode::Enter || k.code == KeyCode::Char('q')) {
                    self.modal = Some(Modal::Error(e));
                }
                UiAction::Nothing
            },
            Modal::Help => {
                if !(k.code == KeyCode::Esc || k.code == KeyCode::Enter || k.code == KeyCode::Char('q')) {
                    self.modal = Some(Modal::Help);
                }
                UiAction::Nothing
            },
        }
    }
}

impl Ui {
    fn input_key(&mut self, code: KeyCode) -> (a: UiAction)
        requires
            ui_wf(old(self)@),
        ensures
            (final(self)@, a@) == ui_input_key(old(self)@, code),
            ui_wf(final(self)@),
    {
        match code {
            KeyCode::Esc => {
                self.focus = Focus::Log;
                UiAction::Nothing
            },
            KeyCode::Enter => {
                let mut line = String::new();
                std::mem::swap(&mut line, &mut self.input);
                self.input_cur = 0;
                proof {
                    assert(self.input@.take(0) =~= Seq::<char>::empty());
                    assert(at_char(self.input@, 0, 0));
                }
                if str_len(line.as_str()) == 0 {
                    proof {
                        if line@.len() > 0 {
                            lemma_byte_len_take_mono(line@, 0, line@.len() as int);
                            lemma_byte_len_full(line@);
                            assert(line@.take(0) =~= Seq::<char>::empty());
                        }
                    }
                    UiAction::Nothing
                } else {
                    proof {
                        if line@.len() == 0 {
                            assert(byte_len(line@) == 0);
                        }
                    }
                    UiAction::SendInput(line)
                }
            },
            KeyCode::Tab => {
                self.focus = Focus::Scenarios;
                UiAction::Nothing
            },
            KeyCode::Left | KeyCode::Right | KeyCode::Home | KeyCode::End | KeyCode::Backspace
            | KeyCode::Delete | KeyCode::Char(_) => {
                edit_single(&mut self.input, &mut self.input_cur, code);
                UiAction::Nothing
            },
            _ => UiAction::Nothing,
        }
    }

    fn nav_up(&mut self)
        ensures
            final(self)@ == ui_nav_up(old(self)@),
    {
        match self.focus {
            Focus::Scenarios => {
                if self.scenario_sel > 0 {
                    self.scenario_sel = self.scenario_sel - 1;
                }
            },
            Focus::Log => {
                self.log_scroll = self.log_scroll.saturating_add(1);
            },
            Focus::Input => {},
        }
    }

    fn nav_down(&mut self, n: usize)
        ensures
            final(self)@ == ui_nav_down(old(self)@, n as nat),
    {
        match self.focus {
            Focus::Scenarios => {
                if self.scenario_sel < n && self.scenario_sel + 1 < n {
                    self.scenario_sel = self.scenario_sel + 1;
                }
            },
            Focus::Log => {
                self.log_scroll = self.log_scroll.saturating_sub(1);
            },
            Focus::Input => {},
        }
    }

    fn main_key(&mut self, code: KeyCode, names: &Vec<String>) -> (a: UiAction)
        requires
            ui_wf(old(self)@),
            old(self)@.wizard is None,
            old(self)@.modal is None,
        ensures
            (final(self)@, a@) == ui_main_key(old(self)@, code, views_of(names@)),
            ui_wf(final(self)@),
    {
        match code {
            KeyCode::Tab => {
                self.focus = match self.focus {
                    Focus::Input => Focus::Scenarios,
                    Focus::Scenarios => Focus::Log,
                    Focus::Log => Focus::Input,
                };
                UiAction::Nothing
            },
            KeyCode::Char(c) => {
                if c == 'i' || c == '/' {
                    self.focus = Focus::Input;
                    UiAction::Nothing
                } else if c == 'q' {
                    self.should_quit = true;
                    UiAction::Nothing
                } else if c == 's' {
                    UiAction::StartServer
                } else if c == 'S' {
                    UiAction::StopServer
                } else if c == 'r' {
                    UiAction::StartRun
                } else if c == 'x' {
                    UiAction::Export
                } else if c == ' ' {
                    if self.focus == Focus::Scenarios && self.scenario_sel < names.len() {
                        let n = names[self.scenario_sel].clone();
                        toggle_in_list(&mut self.config.selected_scenarios, n);
                        UiAction::SaveConfig
                    } else {
                        UiAction::Nothing
                    }
                } else if c == 'j' {
                    self.nav_down(names.len());
                    UiAction::Nothing
                } else if c == 'k' {
                    self.nav_up();
                    UiAction::Nothing
                } else if c == 'c' {
                    let f = ConfigForm::new(&self.config);
                    self.modal = Some(Modal::ConfigForm(f));
                    UiAction::Nothing
                } else if c == 'L' {
                    self.config.lang = match self.config.lang {
                        Lang::En => Lang::Zh,
                        Lang::Zh => Lang::En,
                    };
                    UiAction::SaveConfig
                } else if c == '?' {
                    self.modal = Some(Modal::Help);
                    UiAction::Nothing
                } else {
                    UiAction::Nothing
                }
            },
            KeyCode::Up => {
                self.nav_up();
                UiAction::Nothing
            },
            KeyCode::Down => {
                self.nav_down(names.len());
                UiAction::Nothing
            },
            KeyCode::PageUp => {
                if self.focus == Focus::Log {
                    self.log_scroll = self.log_scroll.saturating_add(10);
                }
                UiAction::Nothing
            },
            KeyCode::PageDown => {
                if self.focus == Focus::Log {
                    self.log_scroll = self.log_scroll.saturating_sub(10);
                }
                UiAction::Nothing
            },
            KeyCode::Home => {
                if self.focus == Focus::Log {
                    self.log_scroll = usize::MAX / 2;
                }
                UiAction::Nothing
            },
            KeyCode::End => {
                if self.focus == Focus::Log {
                    self.log_scroll = 0;
                }
                UiAction::Nothing
            },
            _ => UiAction::Nothing,
        }
    }

    /// A key press: see `ui_key`.
    pub fn handle_key(&mut self, k: Key, names: &Vec<String>) -> (a: UiAction)
        requires
            ui_wf(old(self)@),
        ensures
            (final(self)@, a@) == ui_key(old(self)@, k, views_of(names@)),
            ui_wf(final(self)@),
    {
        if self.wizard.is_some() {
            return self.wizard_key(k, names);
        }
        if self.modal.is_some() {
            return self.modal_key(k);
        }
        if k.ctrl && k.code == KeyCode::Char('c') {
            self.should_quit = true;
            return UiAction::Nothing;
        }
        if self.focus == Focus::Input {
            self.input_key(k.code)
        } else {
            self.main_key(k.code, names)
        }
    }

    /// The answer to `UiAction::CheckDir`.
    pub fn dir_checked(&mut self, exists: bool)
        requires
            ui_wf(old(self)@),
        ensures
            final(self)@ == ui_dir_checked(old(self)@, exists),
            ui_wf(final(self)@),
    {
        match &mut self.wizard {
            Some(w) => {
                if w.page == 1 {
                    if exists {
                        w.page = 2;
                    } else {
                        let l = t(self.config.lang);
                        self.modal = Some(Modal::Error(l.err_server_dir_missing.to_owned()));
                    }
                }
            },
            None => {},
        }
    }
}

// ---------------------------------------------------------------------------
// The log pane.

/// The kind of a log line, which sets its tag and colour.
#[derive(Clone, Copy, PartialEq, Eq, Structural, Debug)]
pub enum LogKind {
    Stdout,
    Stderr,
    Info,
    Error,
    Step,
    Sample,
    Runner,
}

pub open spec fn tag_of(k: LogKind) -> Seq<char> {
    match k {
        LogKind::Stdout => "[OUT] "@,
        LogKind::Stderr => "[ERR] "@,
        LogKind::Info => "[observer] "@,
        LogKind::Error => "[observer ERR] "@,
        LogKind::Step => "[STEP] "@,
        LogKind::Sample => "[SAMPLE] "@,
        LogKind::Runner => "[RUN] "@,
    }
}

/// How many lines the log keeps.
pub open spec fn log_cap() -> nat {
    5000
}

/// A line of the log pane.
#[derive(Debug)]
pub struct LogLine {
    pub kind: LogKind,
    pub text: String,
}

/// Adds a line to the log, dropping the oldest when the log is full.
pub fn push_log_line(log: &mut VecDeque<LogLine>, line: LogLine)
    ensures
        final(log)@ == (if old(log)@.len() >= log_cap() {
            old(log)@.drop_first()
        } else {
            old(log)@
        }).push(line),
{
    if log.len() >= 5000 {
        let _ = log.pop_front();
    }
    log.push_back(line);
}

/// The tag in front of a log line.
pub fn log_tag(k: LogKind) -> (t: &'static str)
    ensures
        t@ == tag_of(k),
{
    match k {
        LogKind::Stdout => "[OUT] ",
        LogKind::Stderr => "[ERR] ",
        LogKind::Info => "[observer] ",
        LogKind::Error => "[observer ERR] ",
        LogKind::Step => "[STEP] ",
        LogKind::Sample => "[SAMPLE] ",
        LogKind::Runner => "[RUN] ",
    }
}

/// `t` in pieces of `w` characters, the last one possibly shorter.
pub open spec fn chunks(t: Seq<char>, w: nat) -> Seq<Seq<char>>
    decreases t.len(),
{
    if t.len() == 0 || w == 0 {
        seq![]
    } else if t.len() <= w {
        seq![t]
    } else {
        seq![t.take(w as int)] + chunks(t.skip(w as int), w)
    }
}

/// The rows of a log line `text` in a pane `width` characters wide whose
/// tag takes `tag_w`: all of it on one row if the pane is too narrow for
/// the tag and one character, otherwise pieces of `width - tag_w`
/// characters (the first after the tag, the others indented as far); an
/// empty line is one empty row.
pub open spec fn wrap_rows(text: Seq<char>, tag_w: nat, width: nat) -> Seq<Seq<char>> {
    if width <= tag_w + 1 {
        seq![text]
    } else if text.len() == 0 {
        seq![seq![]]
    } else {
        chunks(text, (width - tag_w) as nat)
    }
}

/// Splits a log line into its rows.
pub fn wrap_chunks(text: &str, tag_w: usize, width: usize) -> (r: Vec<String>)
    ensures
        views_of(r@) == wrap_rows(text@, tag_w as nat, width as nat),
{
    let chars = chars_of(text);
    let mut out: Vec<String> = Vec::new();
    if width <= tag_w || width - tag_w <= 1 {
        out.push(text.to_owned());
        assert(views_of(out@) =~= wrap_rows(text@, tag_w as nat, width as nat));
        return out;
    }
    if chars.len() == 0 {
        out.push(String::new());
        assert(views_of(out@) =~= wrap_rows(text@, tag_w as nat, width as nat));
        return out;
    }
    let w = width - tag_w;
    let mut i: usize = 0;
    assert(chars@.skip(0) =~= chars@);
    assert(views_of(out@) =~= Seq::<Seq<char>>::empty());
    while i < chars.len()
        invariant
            w >= 2,
            i <= chars.len(),
            views_of(out@) + chunks(chars@.skip(i as int), w as nat) == chunks(chars@, w as nat),
        decreases chars.len() - i,
    {
        let ghost rest = chars@.skip(i as int);
        let ghost before = out@;
        let j = if chars.len() - i > w {
            i + w
        } else {
            chars.len()
        };
        let piece = crate::text::slice_of(&chars, i, j);
        out.push(string_of(&piece));
        proof {
            assert(views_of(out@) =~= views_of(before).push(piece@));
            if j < chars.len() {
                assert(piece@ =~= rest.take(w as int));
                assert(rest.skip(w as int) =~= chars@.skip(j as int));
                assert(chunks(rest, w as nat) == seq![rest.take(w as int)] + chunks(rest.skip(w as int), w as nat));
                assert(views_of(out@) + chunks(chars@.skip(j as int), w as nat) =~= views_of(before) + chunks(rest, w as nat));
            } else {
                assert(piece@ =~= rest);
                assert(chars@.skip(j as int).len() == 0);
                assert(chunks(chars@.skip(j as int), w as nat) =~= Seq::<Seq<char>>::empty());
                assert(chunks(rest, w as nat) == seq![rest]);
                assert(views_of(out@) + chunks(chars@.skip(j as int), w as nat) =~= views_of(before) + chunks(rest, w as nat));
            }
        }
        i = j;
    }
    proof {
        assert(chars@.skip(i as int).len() == 0);
        assert(chunks(chars@.skip(i as int), w as nat) =~= Seq::<Seq<char>>::empty());
        assert(views_of(out@) =~= views_of(out@) + chunks(chars@.skip(i as int), w as nat));
    }
    out
}

/// Which rows of the log are shown: `total` rows, a pane `inner_h` rows
/// high, scrolled back `log_scroll` rows (no further than the first row):
/// the scroll used and the rows `start..end`.
pub open spec fn spec_log_window(total: nat, log_scroll: nat, inner_h: nat) -> (nat, nat, nat) {
    let scroll = if log_scroll < sat_sub(total, inner_h) {
        log_scroll
    } else {
        sat_sub(total, inner_h)
    };
    let end = sat_sub(total, scroll);
    (scroll, sat_sub(end, inner_h), end)
}

pub fn log_window(total: usize, log_scroll: usize, inner_h: usize) -> (r: (usize, usize, usize))
    ensures
        (r.0 as nat, r.1 as nat, r.2 as nat) == spec_log_window(total as nat, log_scroll as nat, inner_h as nat),
{
    let most = total.saturating_sub(inner_h);
    let scroll = if log_scroll < most {
        log_scroll
    } else {
        most
    };
    let end = total.saturating_sub(scroll);
    (scroll, end.saturating_sub(inner_h), end)
}

/// What a line typed at the console input asks for.
#[derive(Clone, Copy, PartialEq, Eq, Structural, Debug)]
pub enum InputAction {
    /// Nothing (an empty line, or `:quit` with no server running).
    Nothing,
    /// `:quit` with a server running: close its console.
    CloseStdin,
    /// No server to send to.
    NoServer,
    /// Send the line to the server.
    Send,
}

pub open spec fn spec_input_action(line: Seq<char>, running: bool) -> InputAction {
    if line.len() == 0 {
        InputAction::Nothing
    } else if line == ":quit"@ {
        if running {
            InputAction::CloseStdin
        } else {
            InputAction::Nothing
        }
    } else if !running {
        InputAction::NoServer
    } else {
        InputAction::Send
    }
}

pub fn input_action(line: &str, running: bool) -> (a: InputAction)
    ensures
        a == spec_input_action(line@, running),
{
    let v = chars_of(line);
    if v.len() == 0 {
        InputAction::Nothing
    } else if str_is(line, ":quit") {
        if running {
            InputAction::CloseStdin
        } else {
            InputAction::Nothing
        }
    } else if !running {
        InputAction::NoServer
    } else {
        InputAction::Send
    }
}

/// The indices of the scenarios whose names are selected, in order.
pub open spec fn spec_run_picks(names: Seq<Seq<char>>, selected: Seq<Seq<char>>) -> Seq<nat>
    decreases names.len(),
{
    if names.len() == 0 {
        seq![]
    } else {
        let rest = spec_run_picks(names.drop_last(), selected);
        if selected.contains(names.last()) {
            rest.push((names.len() - 1) as nat)
        } else {
            rest
        }
    }
}

fn is_listed(l: &Vec<String>, x: &str) -> (b: bool)
    ensures
        b == views_of(l@).contains(x@),
{
    let mut i: usize = 0;
    while i < l.len()
        invariant
            i <= l.len(),
            forall|j: int| 0 <= j < i ==> views_of(l@)[j] != x@,
        decreases l.len() - i,
    {
        if str_is(l[i].as_str(), x) {
            assert(views_of(l@)[i as int] == x@);
            return true;
        }
        i = i + 1;
    }
    false
}

/// The scenarios a run takes: those selected, in the order loaded.
pub fn run_picks(names: &Vec<String>, selected: &Vec<String>) -> (r: Vec<usize>)
    ensures
        r@.len() == spec_run_picks(views_of(names@), views_of(selected@)).len(),
        forall|i: int|
            0 <= i < r@.len() ==> r@[i] as nat == spec_run_picks(
                views_of(names@),
                views_of(selected@),
            )[i],
{
    let mut r: Vec<usize> = Vec::new();
    let mut i: usize = 0;
    while i < names.len()
        invariant
            i <= names.len(),
            r@.len() == spec_run_picks(views_of(names@).take(i as int), views_of(selected@)).len(),
            forall|k: int|
                0 <= k < r@.len() ==> r@[k] as nat == spec_run_picks(
                    views_of(names@).take(i as int),
                    views_of(selected@),
                )[k],
        decreases names.len() - i,
    {
        assert(views_of(names@).take(i + 1).drop_last() =~= views_of(names@).take(i as int));
        if is_listed(selected, names[i].as_str()) {
            r.push(i);
        }
        i = i + 1;
    }
    assert(views_of(names@).take(names.len() as int) =~= views_of(names@));
    r
}

/// The selected row after the list was reloaded with `len` rows.
pub fn clamp_selection(sel: usize, len: usize) -> (r: usize)
    ensures
        r == (if sel >= len {
            sat_sub(len as nat, 1)
        } else {
            sel as nat
        }),
{
    if sel >= len {
        len.saturating_sub(1)
    } else {
        sel
    }
}

/// How the interface logs a runner event (a sample is logged with its
/// values by the caller).
pub open spec fn spec_runner_log(lang: Lang, ev: RunnerEventView) -> Option<(LogKind, Seq<char>)> {
    let l = table(lang);
    match ev {
        RunnerEventView::ScenarioStart(n) => Some((LogKind::Step, fill1(l.tpl_scenario_start@, n))),
        RunnerEventView::ScenarioDone { name, samples } => Some(
            (LogKind::Step, fill1(fill1(l.tpl_scenario_done@, name), dec(samples))),
        ),
        RunnerEventView::StepStart(d) => Some((LogKind::Step, fill1(l.tpl_step_start@, d))),
        RunnerEventView::StepDone(d) => Some((LogKind::Step, fill1(l.tpl_step_done@, d))),
        RunnerEventView::RunnerInfo(m) => Some((LogKind::Runner, fill1(l.tpl_runner_info@, m))),
        RunnerEventView::RunnerError(m) => Some((LogKind::Runner, fill1(l.tpl_runner_error@, m))),
        RunnerEventView::Sample { .. } => None,
    }
}

pub fn runner_log(lang: Lang, ev: &RunnerEvent) -> (r: Option<(LogKind, String)>)
    ensures
        match r {
            Some((k, t)) => spec_runner_log(lang, ev@) == Some((k, t@)),
            None => spec_runner_log(lang, ev@) is None,
        },
{
    let l = t(lang);
    match ev {
        RunnerEvent::ScenarioStart(n) => Some((LogKind::Step, render_tpl1(l.tpl_scenario_start, n.as_str()))),
        RunnerEvent::ScenarioDone { name, samples } => {
            let c = dec_string(*samples as u128);
            Some((LogKind::Step, render_tpl2(l.tpl_scenario_done, name.as_str(), c.as_str())))
        },
        RunnerEvent::StepStart(d) => Some((LogKind::Step, render_tpl1(l.tpl_step_start, d.as_str()))),
        RunnerEvent::StepDone(d) => Some((LogKind::Step, render_tpl1(l.tpl_step_done, d.as_str()))),
        RunnerEvent::RunnerInfo(m) => Some((LogKind::Runner, render_tpl1(l.tpl_runner_info, m.as_str()))),
        RunnerEvent::RunnerError(m) => Some((LogKind::Runner, render_tpl1(l.tpl_runner_error, m.as_str()))),
        RunnerEvent::Sample { .. } => None,
    }
}

/// The message after the server started: its command and directory (`.`
/// when none is set).
pub open spec fn spec_started_message(lang: Lang, c: ConfigView) -> Seq<char> {
    fill1(
        fill1(table(lang).tpl_started_at@, join_space(c.server_cmd)),
        match c.server_dir {
            Some(d) => d,
            None => "."@,
        },
    )
}

pub fn started_message(cfg: &Config) -> (r: String)
    ensures
        r@ == spec_started_message(cfg.lang, config_view(*cfg)),
{
    let l = t(cfg.lang);
    let cmd = join_words(&cfg.server_cmd);
    let dir = match &cfg.server_dir {
        Some(d) => d.clone(),
        None => ".".to_owned(),
    };
    render_tpl2(l.tpl_started_at, cmd.as_str(), dir.as_str())
}

// ---------------------------------------------------------------------------
// Laws of the interface.

/// A run takes exactly the loaded scenarios whose names are selected, each
/// once, in the order loaded.
pub proof fn law_run_picks(names: Seq<Seq<char>>, selected: Seq<Seq<char>>)
    ensures
        forall|i: int, j: int|
            0 <= i < j < spec_run_picks(names, selected).len() ==> spec_run_picks(names, selected)[i]
                < spec_run_picks(names, selected)[j],
        forall|i: int|
            0 <= i < spec_run_picks(names, selected).len() ==> spec_run_picks(names, selected)[i]
                < names.len() && selected.contains(names[spec_run_picks(names, selected)[i] as int]),
        forall|k: int|
            0 <= k < names.len() && selected.contains(names[k]) ==> spec_run_picks(
                names,
                selected,
            ).contains(k as nat),
    decreases names.len(),
{
    if names.len() > 0 {
        let n0 = names.drop_last();
        law_run_picks(n0, selected);
        let r0 = spec_run_picks(n0, selected);
        let r = spec_run_picks(names, selected);
        assert forall|i: int| 0 <= i < r0.len() implies r0[i] < n0.len() && names[r0[i] as int] == n0[r0[i] as int] by {}
        assert forall|k: int|
            0 <= k < names.len() && selected.contains(names[k]) implies r.contains(k as nat) by {
            if k < n0.len() {
                assert(n0[k] == names[k]);
                assert(r0.contains(k as nat));
                let m = choose|m: int| 0 <= m < r0.len() && r0[m] == k as nat;
                assert(r[m] == k as nat);
            } else {
                assert(r[r.len() - 1] == k as nat);
            }
        }
    }
}

/// The log pane shows at most its height in rows, ending `scroll` rows
/// before the last, where `scroll` never goes back past the first row; at
/// scroll 0 it shows the last rows.
pub proof fn law_log_window(total: nat, log_scroll: nat, inner_h: nat)
    ensures
        ({
            let (scroll, start, end) = spec_log_window(total, log_scroll, inner_h);
            &&& start <= end <= total
            &&& end - start <= inner_h
            &&& end == total - scroll
            &&& scroll <= log_scroll
            &&& (total >= inner_h ==> scroll <= total - inner_h && end - start == inner_h)
            &&& (total < inner_h ==> start == 0 && end == total)
        }),
{
}

/// The setup wizard goes forward one page at a time, and only on Enter:
/// the welcome page leads to the directory page; a blank directory leads to
/// the command page, another one is checked first; an empty command is
/// refused, another leads to the scenario page, where Enter finishes. Other
/// keys edit the directory or the command on their pages, and Space twice on
/// a scenario leaves the selection as it was.
pub proof fn law_wizard_pages(w: WizardView, code: KeyCode, names: Seq<Seq<char>>)
    requires
        wizard_wf(w),
    ensures
        ({
            let (w2, st) = wizard_key(w, code, names);
            &&& w2.page == w.page || (w2.page == w.page + 1 && code == KeyCode::Enter)
            &&& (st is Finish <==> (w.page == 3 && code == KeyCode::Enter))
            &&& (w.page == 0 && code == KeyCode::Enter ==> w2.page == 1)
            &&& (w.page == 1 && code == KeyCode::Enter ==> if trim(w.dir).len() == 0 {
                w2.page == 2 && st is Stay
            } else {
                w2 == w && st == WizardStepView::CheckDir(trim(w.dir))
            })
            &&& (w.page == 1 && code != KeyCode::Enter ==> (w2.dir, w2.dir_cur) == edit_at(
                w.dir,
                w.dir_cur,
                code,
            ) && w2.page == 1)
            &&& (w.page == 2 && code == KeyCode::Enter ==> if shell_words(w.cmd).len() == 0 {
                w2 == w && st is CmdEmpty
            } else {
                w2.page == 3 && st is Stay
            })
            &&& (w.page == 3 && code == KeyCode::Char(' ') ==> wizard_key(w2, code, names).0.selected
                == w.selected)
        }),
{
    if w.page == 3 && w.scenario_sel < names.len() {
        crate::order::law_toggle_twice(w.selected, names[w.scenario_sel as int]);
    }
}

/// The main screen's keys, with no wizard or dialog shown: Ctrl-C quits;
/// Tab cycles the focus through the three panes; `L` switches the language
/// and back; `j` then `k` (or Down then Up) on the scenario list returns to
/// the same scenario; Space on a scenario adds it to the selection or takes
/// it out; at the input line, Enter sends the typed line and clears it and
/// Esc leaves the line.
pub proof fn law_main_screen_keys(u: UiView, names: Seq<Seq<char>>)
    requires
        u.wizard is None,
        u.modal is None,
    ensures
        ui_key(u, Key { code: KeyCode::Char('c'), ctrl: true }, names).0.should_quit,
        u.focus != Focus::Input ==> {
            let tab = Key { code: KeyCode::Tab, ctrl: false };
            let u1 = ui_key(u, tab, names).0;
            let u2 = ui_key(u1, tab, names).0;
            let u3 = ui_key(u2, tab, names).0;
            &&& u1.focus != u.focus
            &&& u2.focus != u.focus && u2.focus != u1.focus
            &&& u3 == u
        },
        u.focus != Focus::Input ==> {
            let l = Key { code: KeyCode::Char('L'), ctrl: false };
            let (u1, a1) = ui_key(u, l, names);
            &&& u1.config.lang != u.config.lang
            &&& a1 == UiActionView::SaveConfig
            &&& ui_key(u1, l, names).0 == u
        },
        u.focus == Focus::Scenarios && u.scenario_sel + 1 < names.len() ==> {
            let j = Key { code: KeyCode::Char('j'), ctrl: false };
            let k = Key { code: KeyCode::Char('k'), ctrl: false };
            let u1 = ui_key(u, j, names).0;
            &&& u1.scenario_sel == u.scenario_sel + 1
            &&& ui_key(u1, k, names).0 == u
        },
        u.focus == Focus::Scenarios && u.scenario_sel < names.len() ==> {
            let sp = Key { code: KeyCode::Char(' '), ctrl: false };
            let (u1, a1) = ui_key(u, sp, names);
            let x = names[u.scenario_sel as int];
            &&& a1 == UiActionView::SaveConfig
            &&& (!u.config.selected.contains(x) ==> u1.config.selected == u.config.selected.push(x))
            &&& (u.config.selected.contains(x) ==> u1.config.selected.len() + 1
                == u.config.selected.len())
        },
        u.focus == Focus::Input ==> {
            let (u1, a1) = ui_key(u, Key { code: KeyCode::Enter, ctrl: false }, names);
            &&& u1.input.len() == 0 && u1.input_cur == 0
            &&& a1 == (if u.input.len() == 0 {
                UiActionView::Nothing
            } else {
                UiActionView::SendInput(u.input)
            })
            &&& ui_key(u, Key { code: KeyCode::Esc, ctrl: false }, names).0.focus != Focus::Input
        },
{
    let x = if u.scenario_sel < names.len() {
        names[u.scenario_sel as int]
    } else {
        seq![]
    };
    lemma_first_index(u.config.selected, x);
}

proof fn lemma_first_index(l: Seq<Seq<char>>, x: Seq<char>)
    ensures
        first_index(l, x) is None <==> !l.contains(x),
        first_index(l, x) matches Some(i) ==> i < l.len(),
    decreases l.len(),
{
    if l.len() > 0 {
        lemma_first_index(l.drop_first(), x);
        if l[0] != x {
            if l.contains(x) {
                let j = choose|j: int| 0 <= j < l.len() && l[j] == x;
                assert(l.drop_first()[j - 1] == x);
            }
            if l.drop_first().contains(x) {
                let j = choose|j: int| 0 <= j < l.drop_first().len() && l.drop_first()[j] == x;
                assert(l[j + 1] == x);
            }
        } else {
            assert(l[0] == x);
        }
    }
}

/// Typing a character and then Backspace gives the line and the cursor
/// back.
pub proof fn law_backspace_undoes_typing(s: Seq<char>, b: nat, c: char)
    requires
        is_boundary(s, b),
    ensures
        ({
            let (s1, b1) = edit_at(s, b, KeyCode::Char(c));
            edit_at(s1, b1, KeyCode::Backspace)
        }) == (s, b),
{
    let k = choose|k: nat| at_char(s, b, k);
    let s1 = s.insert(k as int, c);
    let b1 = byte_len(s1.take(k + 1 as int));
    assert(edit_at(s, b, KeyCode::Char(c)) == (s1, b1));
    assert(at_char(s1, b1, k + 1));
    let k1 = choose|j: nat| at_char(s1, b1, j);
    lemma_at_char_unique(s1, b1, k1, k + 1);
    assert(s1.remove(k as int) =~= s);
    assert(s1.take(k as int) =~= s.take(k as int));
}

/// A word that the splitter keeps as it is: no whitespace, quote or
/// backslash, and not empty.
pub open spec fn plain_word(w: Seq<char>) -> bool {
    &&& w.len() > 0
    &&& forall|i: int| 0 <= i < w.len() ==> !is_ws(#[trigger] w[i]) && w[i] != '\'' && w[i] != '"'
        && w[i] != '\\'
}

/// The splitter run on `q` from state `st`.
pub open spec fn split_from(st: SplitState, q: Seq<char>) -> SplitState
    decreases q.len(),
{
    if q.len() == 0 {
        st
    } else {
        split_step(split_from(st, q.drop_last()), q.last())
    }
}

pub proof fn lemma_split_concat(p: Seq<char>, q: Seq<char>)
    ensures
        split_prefix(p + q) == split_from(split_prefix(p), q),
    decreases q.len(),
{
    if q.len() == 0 {
        assert(p + q =~= p);
    } else {
        lemma_split_concat(p, q.drop_last());
        assert((p + q).drop_last() =~= p + q.drop_last());
        assert((p + q).last() == q.last());
    }
}

pub proof fn lemma_split_plain(st: SplitState, w: Seq<char>)
    requires
        !st.single,
        !st.double,
        !st.escape,
        forall|i: int| 0 <= i < w.len() ==> !is_ws(#[trigger] w[i]) && w[i] != '\'' && w[i] != '"'
            && w[i] != '\\',
    ensures
        split_from(st, w) == (SplitState { cur: st.cur + w, ..st }),
    decreases w.len(),
{
    if w.len() == 0 {
        assert(st.cur + w =~= st.cur);
    } else {
        lemma_split_plain(st, w.drop_last());
        assert(st.cur + w.drop_last() + seq![w.last()] =~= st.cur + w);
        assert((st.cur + w.drop_last()).push(w.last()) =~= st.cur + w);
    }
}

pub proof fn lemma_split_joined(ws: Seq<Seq<char>>)
    requires
        ws.len() > 0,
        forall|i: int| 0 <= i < ws.len() ==> plain_word(#[trigger] ws[i]),
    ensures
        split_prefix(join_space(ws)) == (SplitState {
            words: ws.drop_last(),
            cur: ws.last(),
            single: false,
            double: false,
            escape: false,
        }),
    decreases ws.len(),
{
    let w = ws.last();
    assert(plain_word(ws[ws.len() - 1]));
    if ws.len() == 1 {
        lemma_split_concat(seq![], w);
        assert(Seq::<char>::empty() + w =~= w);
        lemma_split_plain(split_start(), w);
        assert(Seq::<char>::empty() + w =~= w);
        assert(ws.drop_last() =~= Seq::<Seq<char>>::empty());
    } else {
        let init = ws.drop_last();
        assert forall|i: int| 0 <= i < init.len() implies plain_word(#[trigger] init[i]) by {
            assert(init[i] == ws[i]);
        }
        lemma_split_joined(init);
        let j = join_space(init);
        assert(plain_word(init[init.len() - 1]));
        lemma_split_concat(j, " "@);
        reveal_strlit(" ");
        assert(" "@.len() == 1 && " "@[0] == ' ');
        assert(" "@.drop_last() =~= Seq::<char>::empty());
        assert(is_ws(' '));
        let st = split_prefix(j + " "@);
        assert(split_from(split_prefix(j), " "@.drop_last()) == split_prefix(j));
        assert(split_from(split_prefix(j), " "@) == split_step(split_prefix(j), ' '));
        assert(init.last().len() > 0);
        assert(st == (SplitState { words: init, cur: seq![], single: false, double: false, escape: false })) by {
            assert(init.drop_last().push(init.last()) =~= init);
        }
        lemma_split_concat(j + " "@, w);
        lemma_split_plain(st, w);
        assert(Seq::<char>::empty() + w =~= w);
        assert(join_space(ws) == j + " "@ + w);
    }
}

/// Splitting plain words joined with single spaces gives the words back.
pub proof fn law_split_undoes_join(ws: Seq<Seq<char>>)
    requires
        forall|i: int| 0 <= i < ws.len() ==> plain_word(#[trigger] ws[i]),
    ensures
        shell_words(join_space(ws)) == ws,
{
    if ws.len() == 0 {
        assert(join_space(ws) =~= Seq::<char>::empty());
    } else {
        lemma_split_joined(ws);
        assert(plain_word(ws[ws.len() - 1]));
        assert(ws.drop_last().push(ws.last()) =~= ws);
    }
}

/// Opening the settings form and saving it untouched leaves the settings
/// as they were, when the server command is plain words and no directory
/// is blank.
pub proof fn law_form_round_trip(c: ConfigView)
    requires
        c.server_cmd.len() > 0,
        forall|i: int| 0 <= i < c.server_cmd.len() ==> plain_word(#[trigger] c.server_cmd[i]),
        c.server_dir matches Some(d) ==> trim(d).len() > 0,
        trim(c.scenarios_dir).len() > 0,
        trim(c.results_dir).len() > 0,
    ensures
        form_apply(form_of(c), c) == Ok::<ConfigView, Seq<char>>(c),
{
    law_split_undoes_join(c.server_cmd);
    let f = form_of(c);
    assert(f.bufs[1] == join_space(c.server_cmd));
    if c.server_dir is None {
        assert(trim(Seq::<char>::empty()).len() == 0) by {
            crate::text::lemma_trim_props(Seq::<char>::empty());
        }
    }
}


/// The rows joined back together.
pub open spec fn joined_rows(rows: Seq<Seq<char>>) -> Seq<char>
    decreases rows.len(),
{
    if rows.len() == 0 {
        seq![]
    } else {
        rows[0] + joined_rows(rows.drop_first())
    }
}

pub proof fn lemma_joined_one(t: Seq<char>)
    ensures
        joined_rows(seq![t]) == t,
{
    let one = seq![t];
    assert(one.drop_first() =~= Seq::<Seq<char>>::empty());
    assert(joined_rows(one.drop_first()) == Seq::<char>::empty());
    assert(t + Seq::<char>::empty() =~= t);
}

pub proof fn lemma_chunks_join(t: Seq<char>, w: nat)
    requires
        w > 0,
    ensures
        joined_rows(chunks(t, w)) == t,
        forall|i: int| 0 <= i < chunks(t, w).len() ==> (#[trigger] chunks(t, w)[i]).len() <= w,
    decreases t.len(),
{
    if t.len() == 0 {
        assert(joined_rows(chunks(t, w)) =~= t);
    } else if t.len() <= w {
        assert(chunks(t, w) == seq![t]);
        lemma_joined_one(t);
    } else {
        lemma_chunks_join(t.skip(w as int), w);
        let c = chunks(t, w);
        assert(c.drop_first() =~= chunks(t.skip(w as int), w));
        assert(t.take(w as int) + t.skip(w as int) =~= t);
    }
}

/// Wrapping a log line loses and adds nothing: its rows, put back together,
/// are the line; no row is wider than the pane leaves beside the tag.
pub proof fn law_wrap_keeps_text(text: Seq<char>, tag_w: nat, width: nat)
    ensures
        joined_rows(wrap_rows(text, tag_w, width)) == text,
        width > tag_w + 1 ==> forall|i: int|
            0 <= i < wrap_rows(text, tag_w, width).len() ==> (#[trigger] wrap_rows(
                text,
                tag_w,
                width,
            )[i]).len() <= width - tag_w,
{
    if width <= tag_w + 1 {
        lemma_joined_one(text);
    } else if text.len() == 0 {
        lemma_joined_one(text);
        assert(text =~= Seq::<char>::empty());
    } else {
        lemma_chunks_join(text, (width - tag_w) as nat);
    }
}

} // verus!
