//! The scenario formatter: normalized indentation and spacing.
use vstd::prelude::*;
use crate::fmt::{dec, push_str};
use crate::scenario::{
    parse, parse_line, parse_prefix, spec_parse_steps, split_verb, strip_comment, ErrView,
    ParseView, StepView,
};
use crate::text::{
    all_ws, chars_eq_str, chars_of, find_char, find_char_in, find_ws, is_ws, lacks,
    lead_ws, lemma_find_char, lemma_find_char_concat, lemma_find_char_props,
    lemma_find_ws, lemma_find_ws_concat, lemma_find_ws_props, lemma_lead_ws_props,
    lemma_lines_cons, lemma_lines_no_newline, lemma_trail_ws_props, lemma_trim_end_noop,
    lemma_trim_end_ws_suffix, lemma_trim_props, lemma_trim_start_noop,
    lemma_trim_start_ws_prefix, lines, lines_of, no_ws_end, no_ws_start, push_char,
    slice_of, string_of, trail_ws, trim, trim_chars, trim_end, trim_end_chars, trim_start, views,
};

verus! {

/// A line split at its first `#`: the code before it and the comment from it.
pub open spec fn split_comment(s: Seq<char>) -> (Seq<char>, Option<Seq<char>>) {
    match find_char(s, '#') {
        Some(i) => (s.take(i as int), Some(s.skip(i as int))),
        None => (s, None),
    }
}

/// Four spaces per level.
pub open spec fn indent(d: nat) -> Seq<char>
    decreases d,
{
    if d == 0 {
        seq![]
    } else {
        indent((d - 1) as nat) + seq![' ', ' ', ' ', ' ']
    }
}

/// `usize::saturating_sub(d, 1)`.
pub open spec fn dec_depth(d: nat) -> nat {
    if d == 0 {
        0
    } else {
        (d - 1) as nat
    }
}

/// One line as the formatter writes it at loop depth `d` (without its
/// line ending): the verb at the line's depth (`end` one level out), one
/// space, the trimmed arguments, and any comment two spaces after.
/// Comment-only lines keep the comment at the current depth.
pub open spec fn fmt_line(raw: Seq<char>, d: nat) -> Seq<char> {
    let (code0, comment) = split_comment(raw);
    let code = trim(code0);
    if code.len() == 0 {
        match comment {
            Some(c) => indent(d) + trim_end(c),
            None => seq![],
        }
    } else {
        let (verb, rest0) = split_verb(code);
        let rest = trim(rest0);
        let ed = if verb == "end"@ {
            dec_depth(d)
        } else {
            d
        };
        indent(ed) + verb + (if rest.len() > 0 {
            seq![' '] + rest
        } else {
            seq![]
        }) + (match comment {
            Some(c) => "  "@ + trim_end(c),
            None => seq![],
        })
    }
}

/// The loop depth after a line.
pub open spec fn next_depth(raw: Seq<char>, d: nat) -> nat {
    let code = trim(split_comment(raw).0);
    if code.len() == 0 {
        d
    } else {
        let verb = split_verb(code).0;
        if verb == "loop"@ {
            d + 1
        } else if verb == "end"@ {
            dec_depth(d)
        } else {
            d
        }
    }
}

/// The formatted lines, each followed by a line feed.
pub open spec fn fmt_lines(ls: Seq<Seq<char>>, d: nat) -> Seq<char>
    decreases ls.len(),
{
    if ls.len() == 0 {
        seq![]
    } else {
        fmt_line(ls[0], d) + seq!['\n'] + fmt_lines(ls.drop_first(), next_depth(ls[0], d))
    }
}

/// `format_text` in spec terms: the formatted script, or the parse error as
/// `line N: message`.
pub open spec fn spec_format(src: Seq<char>) -> Result<Seq<char>, Seq<char>> {
    match spec_parse_steps(src) {
        Err(e) => Err("line "@ + dec(e.0) + ": "@ + e.1),
        Ok(_) => Ok(fmt_lines(lines(src), 0)),
    }
}

/// Appends `4 * d` spaces.
fn push_indent(out: &mut Vec<char>, d: usize)
    ensures
        final(out)@ == old(out)@ + indent(d as nat),
{
    let mut i: usize = 0;
    while i < d
        invariant
            i <= d,
            out@ == old(out)@ + indent(i as nat),
        decreases d - i,
    {
        out.push(' ');
        out.push(' ');
        out.push(' ');
        out.push(' ');
        i = i + 1;
        assert(out@ =~= old(out)@ + indent(i as nat));
    }
}

/// Appends the characters of `v`.
fn push_all(out: &mut Vec<char>, v: &Vec<char>)
    ensures
        final(out)@ == old(out)@ + v@,
{
    let mut i: usize = 0;
    while i < v.len()
        invariant
            i <= v.len(),
            out@ == old(out)@ + v@.take(i as int),
        decreases v.len() - i,
    {
        out.push(v[i]);
        i = i + 1;
        assert(out@ =~= old(out)@ + v@.take(i as int));
    }
    assert(v@.take(i as int) =~= v@);
}

/// A line split at its first `#`.
fn split_comment_chars(s: &Vec<char>) -> (r: (Vec<char>, Option<Vec<char>>))
    ensures
        r.0@ == split_comment(s@).0,
        match r.1 {
            Some(c) => split_comment(s@).1 == Some(c@),
            None => split_comment(s@).1 is None,
        },
{
    match find_char_in(s, '#') {
        Some(i) => {
            proof {
                crate::text::lemma_find_char_props(s@, '#');
            }
            (slice_of(s, 0, i), Some(slice_of(s, i, s.len())))
        },
        None => (s.clone(), None),
    }
}

/// The first word of `s` and the rest.
fn split_verb_of(s: &Vec<char>) -> (r: (Vec<char>, Vec<char>))
    ensures
        (r.0@, r.1@) == split_verb(s@),
{
    let t = crate::text::trim_start_chars(s);
    match crate::text::find_ws_in(&t) {
        Some(i) => {
            proof {
                crate::text::lemma_find_ws_props(t@);
            }
            let w = slice_of(&t, 0, i);
            let rest = slice_of(&t, i, t.len());
            assert(rest@ == t@.skip(i as int));
            let r = crate::text::trim_start_chars(&rest);
            (w, r)
        },
        None => (t, Vec::new()),
    }
}

/// Appends one formatted line, with its line feed, written at depth
/// `depth`; returns the depth after it.
fn format_line(out: &mut Vec<char>, raw: &Vec<char>, depth: usize) -> (nd: usize)
    requires
        depth < usize::MAX,
    ensures
        final(out)@ == old(out)@ + fmt_line(raw@, depth as nat) + seq!['\n'],
        nd == next_depth(raw@, depth as nat),
{
    let ghost before = out@;
    let (code0, comment) = split_comment_chars(raw);
    let code = trim_chars(&code0);
    if code.len() == 0 {
        match comment {
            Some(c) => {
                push_indent(out, depth);
                let ct = trim_end_chars(&c);
                push_all(out, &ct);
            },
            None => {},
        }
        out.push('\n');
        assert(out@ =~= before + fmt_line(raw@, depth as nat) + seq!['\n']);
        depth
    } else {
        let (verb, rest0) = split_verb_of(&code);
        let is_end = chars_eq_str(&verb, "end");
        let emit_depth = if is_end && depth > 0 {
            depth - 1
        } else if is_end {
            0
        } else {
            depth
        };
        push_indent(out, emit_depth);
        push_all(out, &verb);
        let rest = trim_chars(&rest0);
        if rest.len() > 0 {
            out.push(' ');
            push_all(out, &rest);
        }
        match comment {
            Some(c) => {
                out.push(' ');
                out.push(' ');
                let ct = trim_end_chars(&c);
                push_all(out, &ct);
            },
            None => {},
        }
        out.push('\n');
        proof {
            reveal_strlit("  ");
        }
        assert(out@ =~= before + fmt_line(raw@, depth as nat) + seq!['\n']);
        if chars_eq_str(&verb, "loop") {
            depth + 1
        } else if is_end {
            emit_depth
        } else {
            depth
        }
    }
}

/// Normalizes indentation and whitespace in a scenario script. The script
/// is parsed first and rejected, with the parse error, if it is invalid.
/// Then each line is rewritten: four spaces per `loop` depth, one space
/// between the verb and its arguments, blank lines kept, comment-only lines
/// indented at the current depth, inline comments two spaces after the code.
pub fn format_text(src: &str, path: &str) -> (r: Result<String, String>)
    ensures
        match r {
            Ok(s) => spec_format(src@) == Ok::<Seq<char>, Seq<char>>(s@),
            Err(m) => spec_format(src@) == Err::<Seq<char>, Seq<char>>(m@),
        },
{
    match parse(src, path) {
        Err(e) => {
            return Err(e.to_text());
        },
        Ok(_) => {},
    }
    let text = chars_of(src);
    let ls = lines_of(&text);
    let ghost lsv = views(ls@);
    assert(lsv == lines(src@));
    let mut out: Vec<char> = Vec::new();
    let mut depth: usize = 0;
    let mut idx: usize = 0;
    assert(lsv.skip(0) =~= lsv);
    while idx < ls.len()
        invariant
            idx <= ls.len(),
            lsv == views(ls@),
            depth <= idx,
            fmt_lines(lsv, 0) == out@ + fmt_lines(lsv.skip(idx as int), depth as nat),
        decreases ls.len() - idx,
    {
        let raw = &ls[idx];
        assert(raw@ == lsv[idx as int]);
        assert(lsv.skip(idx as int).drop_first() =~= lsv.skip(idx + 1));
        assert(lsv.skip(idx as int)[0] == lsv[idx as int]);
        let ghost d0 = depth as nat;
        depth = format_line(&mut out, raw, depth);
        assert(depth as nat == next_depth(raw@, d0));
        idx = idx + 1;
    }
    assert(lsv.skip(idx as int) =~= Seq::<Seq<char>>::empty());
    let mut s = String::new();
    let mut i: usize = 0;
    while i < out.len()
        invariant
            i <= out.len(),
            s@ == out@.take(i as int),
        decreases out.len() - i,
    {
        push_char(&mut s, out[i]);
        i = i + 1;
        assert(s@ =~= out@.take(i as int));
    }
    assert(out@.take(i as int) =~= out@);
    Ok(s)
}

// ---------------------------------------------------------------------------
// Laws of the formatter.

/// What the parser reads of a line: nothing for a blank line, else its verb
/// and arguments.
pub open spec fn parse_key(raw: Seq<char>) -> Option<(Seq<char>, Seq<char>)> {
    let line = trim(strip_comment(raw));
    if line.len() == 0 {
        None
    } else {
        Some(split_verb(line))
    }
}

/// Lines that the parser reads alike have the same effect.
pub proof fn lemma_parse_key(st: ParseView, ln: nat, a: Seq<char>, b: Seq<char>)
    requires
        parse_key(a) == parse_key(b),
    ensures
        parse_line(st, ln, a) == parse_line(st, ln, b),
{
}

proof fn lemma_indent(d: nat)
    ensures
        indent(d).len() == 4 * d,
        forall|j: int| 0 <= j < indent(d).len() ==> #[trigger] indent(d)[j] == ' ',
    decreases d,
{
    if d > 0 {
        lemma_indent((d - 1) as nat);
        let p = indent((d - 1) as nat);
        assert forall|j: int| 0 <= j < indent(d).len() implies #[trigger] indent(d)[j] == ' ' by {
            if j < p.len() {
                assert(indent(d)[j] == p[j]);
            }
        }
    }
}

proof fn lemma_indent_ws(d: nat)
    ensures
        all_ws(indent(d)),
        lacks(indent(d), '#'),
        lacks(indent(d), '\n'),
{
    lemma_indent(d);
}

/// The comment of a line: it starts with `#`, and trimming its end keeps
/// that `#`.
proof fn lemma_comment(r: Seq<char>)
    ensures
        lacks(split_comment(r).0, '#'),
        split_comment(r).0 == strip_comment(r),
        split_comment(r).1 matches Some(c) ==> {
            &&& trim_end(c).len() > 0
            &&& trim_end(c)[0] == '#'
            &&& no_ws_end(trim_end(c))
            &&& (lacks(r, '\n') ==> lacks(trim_end(c), '\n'))
        },
        lacks(r, '\n') ==> lacks(split_comment(r).0, '\n'),
{
    lemma_find_char_props(r, '#');
    match find_char(r, '#') {
        Some(i) => {
            let c = r.skip(i as int);
            assert(c[0] == '#');
            lemma_trail_ws_props(c);
            lemma_trim_props(c);
            if trail_ws(c) == c.len() {
                assert(is_ws(c[0]));
            }
            assert(trim_end(c)[0] == c[0]);
            assert forall|j: int| 0 <= j < trim_end(c).len() implies trim_end(c)[j] == r[i + j] by {}
        },
        None => {},
    }
}

/// How the formatter splits non-blank code into verb and arguments.
proof fn lemma_code(code: Seq<char>)
    requires
        code.len() > 0,
        no_ws_start(code),
        no_ws_end(code),
    ensures
        ({
            let (verb, rest0) = split_verb(code);
            &&& verb.len() > 0
            &&& forall|j: int| 0 <= j < verb.len() ==> !is_ws(#[trigger] verb[j])
            &&& trim(rest0) == rest0
            &&& no_ws_start(rest0)
            &&& no_ws_end(rest0)
            &&& (lacks(code, '#') ==> lacks(verb, '#') && lacks(rest0, '#'))
            &&& (lacks(code, '\n') ==> lacks(verb, '\n') && lacks(rest0, '\n'))
            &&& (rest0.len() == 0 ==> verb == code)
        }),
{
    lemma_trim_start_noop(code);
    lemma_find_ws_props(code);
    match find_ws(code) {
        Some(i) => {
            let tail = code.skip(i as int);
            assert(tail.last() == code.last());
            lemma_trim_props(tail);
            lemma_lead_ws_props(tail);
            let rest0 = trim_start(tail);
            if lead_ws(tail) == tail.len() {
                assert(is_ws(tail[tail.len() - 1]));
            }
            lemma_trim_start_noop(rest0);
            lemma_trim_end_noop(rest0);
            assert forall|j: int| 0 <= j < rest0.len() implies rest0[j] == code[i + lead_ws(tail)
                + j] by {}
        },
        None => {
            let e: Seq<char> = seq![];
            lemma_trim_start_noop(e);
            lemma_trim_end_noop(e);
        },
    }
}

/// The verb, one space and the arguments, as the formatter joins them.
pub open spec fn joined(verb: Seq<char>, rest: Seq<char>) -> Seq<char> {
    verb + (if rest.len() > 0 {
        seq![' '] + rest
    } else {
        seq![]
    })
}

/// Read back, the joined verb and arguments split into the same parts.
proof fn lemma_joined(verb: Seq<char>, rest: Seq<char>)
    requires
        verb.len() > 0,
        forall|j: int| 0 <= j < verb.len() ==> !is_ws(#[trigger] verb[j]),
        no_ws_start(rest),
        no_ws_end(rest),
    ensures
        split_verb(joined(verb, rest)) == (verb, rest),
        no_ws_start(joined(verb, rest)),
        no_ws_end(joined(verb, rest)),
        joined(verb, rest).len() > 0,
{
    let core = joined(verb, rest);
    assert(core[0] == verb[0]);
    lemma_trim_start_noop(core);
    if rest.len() > 0 {
        let sp = seq![' '] + rest;
        assert(core =~= verb + sp);
        lemma_find_ws(sp, 0);
        lemma_find_ws_concat(verb, sp);
        assert(core.take(verb.len() as int) =~= verb);
        assert(core.skip(verb.len() as int) =~= sp);
        assert(all_ws(seq![' ']));
        lemma_trim_start_ws_prefix(seq![' '], rest);
        lemma_trim_start_noop(rest);
        assert(core.last() == rest.last());
    } else {
        assert(core =~= verb);
        lemma_find_ws(verb, verb.len() as int);
    }
}

/// Reading back `ind + core (+ "  " + tc)`: the comment is found again and
/// the code trims to `core`.
proof fn lemma_read_back(ind: Seq<char>, core: Seq<char>, comment: Option<Seq<char>>)
    requires
        all_ws(ind),
        lacks(ind, '#'),
        lacks(core, '#'),
        core.len() > 0,
        no_ws_start(core),
        no_ws_end(core),
        comment matches Some(tc) ==> tc.len() > 0 && tc[0] == '#',
    ensures
        ({
            let l = ind + core + (match comment {
                Some(tc) => "  "@ + tc,
                None => seq![],
            });
            &&& split_comment(l).1 == comment
            &&& trim(split_comment(l).0) == core
        }),
{
    reveal_strlit("  ");
    match comment {
        Some(tc) => {
            let l = ind + core + ("  "@ + tc);
            let pre = ind + core + "  "@;
            assert(l =~= pre + tc);
            assert(lacks(pre, '#'));
            lemma_find_char(tc, '#', 0);
            lemma_find_char_concat(pre, tc, '#');
            assert(l.take(pre.len() as int) =~= pre);
            assert(l.skip(pre.len() as int) =~= tc);
            lemma_trim_start_ws_prefix(ind, core + "  "@);
            assert(ind + (core + "  "@) =~= pre);
            assert((core + "  "@)[0] == core[0]);
            lemma_trim_start_noop(core + "  "@);
            assert(all_ws("  "@));
            lemma_trim_end_ws_suffix(core, "  "@);
            lemma_trim_end_noop(core);
        },
        None => {
            let l = ind + core + seq![];
            assert(l =~= ind + core);
            assert(lacks(l, '#'));
            lemma_find_char(l, '#', l.len() as int);
            lemma_trim_start_ws_prefix(ind, core);
            lemma_trim_start_noop(core);
            lemma_trim_end_noop(core);
        },
    }
}

/// The blank-code case of `lemma_fmt_line`.
proof fn lemma_fmt_blank(r: Seq<char>, d: nat)
    requires
        trim(split_comment(r).0).len() == 0,
    ensures
        fmt_line(fmt_line(r, d), d) == fmt_line(r, d),
        next_depth(fmt_line(r, d), d) == next_depth(r, d),
        parse_key(fmt_line(r, d)) == parse_key(r),
        lacks(r, '\n') ==> lacks(fmt_line(r, d), '\n'),
        no_ws_end(fmt_line(r, d)),
{
    lemma_comment(r);
    let l = fmt_line(r, d);
    match split_comment(r).1 {
        Some(c) => {
            let tc = trim_end(c);
            let ind = indent(d);
            lemma_indent_ws(d);
            assert(l == ind + tc);
            lemma_find_char(tc, '#', 0);
            lemma_find_char_concat(ind, tc, '#');
            assert(l.take(ind.len() as int) =~= ind);
            assert(l.skip(ind.len() as int) =~= tc);
            assert(split_comment(l) == (ind, Some(tc)));
            let e: Seq<char> = seq![];
            assert(ind + e =~= ind);
            lemma_trim_start_ws_prefix(ind, e);
            lemma_trim_start_noop(e);
            lemma_trim_end_noop(e);
            lemma_trim_end_noop(tc);
            assert(trim(ind).len() == 0);
            assert(l.last() == tc.last());
        },
        None => {
            assert(l.len() == 0);
            assert(find_char(l, '#') is None);
        },
    }
}

/// The non-blank case of `lemma_fmt_line`.
proof fn lemma_fmt_code(r: Seq<char>, d: nat)
    requires
        trim(split_comment(r).0).len() > 0,
    ensures
        fmt_line(fmt_line(r, d), d) == fmt_line(r, d),
        next_depth(fmt_line(r, d), d) == next_depth(r, d),
        parse_key(fmt_line(r, d)) == parse_key(r),
        lacks(r, '\n') ==> lacks(fmt_line(r, d), '\n'),
        no_ws_end(fmt_line(r, d)),
{
    reveal_strlit("  ");
    let (code0, comment) = split_comment(r);
    lemma_comment(r);
    let code = trim(code0);
    lemma_trim_props(code0);
    assert forall|j: int| 0 <= j < code.len() implies code[j] == code0[lead_ws(code0) + j] by {}
    let (verb, rest0) = split_verb(code);
    lemma_code(code);
    let rest = trim(rest0);
    let core = joined(verb, rest);
    lemma_joined(verb, rest);
    let ed = if verb == "end"@ {
        dec_depth(d)
    } else {
        d
    };
    let ind = indent(ed);
    lemma_indent_ws(ed);
    assert(lacks(core, '#'));
    let tcomment = match comment {
        Some(c) => Some(trim_end(c)),
        None => None,
    };
    lemma_read_back(ind, core, tcomment);
    let l = fmt_line(r, d);
    assert(l =~= ind + core + (match tcomment {
        Some(tc) => "  "@ + tc,
        None => seq![],
    }));
    match comment {
        Some(c) => {
            lemma_trim_end_noop(trim_end(c));
            assert(l.last() == trim_end(c).last());
        },
        None => {
            assert(l.last() == core.last());
        },
    }
}

/// A formatted line: formatting it again at the same depth changes
/// nothing, it leaves the depth as the unformatted line does, and the
/// parser reads it as it reads the unformatted line.
pub proof fn lemma_fmt_line(r: Seq<char>, d: nat)
    ensures
        fmt_line(fmt_line(r, d), d) == fmt_line(r, d),
        next_depth(fmt_line(r, d), d) == next_depth(r, d),
        parse_key(fmt_line(r, d)) == parse_key(r),
        lacks(r, '\n') ==> lacks(fmt_line(r, d), '\n'),
        no_ws_end(fmt_line(r, d)),
{
    if trim(split_comment(r).0).len() == 0 {
        lemma_fmt_blank(r, d);
    } else {
        lemma_fmt_code(r, d);
    }
}

/// The formatted lines, without their line feeds.
pub open spec fn fmt_seq(ls: Seq<Seq<char>>, d: nat) -> Seq<Seq<char>>
    decreases ls.len(),
{
    if ls.len() == 0 {
        seq![]
    } else {
        seq![fmt_line(ls[0], d)] + fmt_seq(ls.drop_first(), next_depth(ls[0], d))
    }
}

proof fn lemma_fmt_lines_lines(ls: Seq<Seq<char>>, d: nat)
    requires
        forall|k: int| 0 <= k < ls.len() ==> lacks(#[trigger] ls[k], '\n'),
    ensures
        lines(fmt_lines(ls, d)) == fmt_seq(ls, d),
    decreases ls.len(),
{
    if ls.len() > 0 {
        let l0 = fmt_line(ls[0], d);
        lemma_fmt_line(ls[0], d);
        let rest = ls.drop_first();
        assert forall|k: int| 0 <= k < rest.len() implies lacks(#[trigger] rest[k], '\n') by {
            assert(rest[k] == ls[k + 1]);
        }
        lemma_fmt_lines_lines(rest, next_depth(ls[0], d));
        if l0.len() > 0 {
            assert(l0.last() != '\r');
        }
        lemma_lines_cons(l0, fmt_lines(rest, next_depth(ls[0], d)));
        assert(fmt_lines(ls, d) =~= l0 + seq!['\n'] + fmt_lines(rest, next_depth(ls[0], d)));
    }
}

proof fn lemma_fmt_seq_key(ls: Seq<Seq<char>>, d: nat, i: int)
    requires
        0 <= i < ls.len(),
    ensures
        fmt_seq(ls, d).len() == ls.len(),
        parse_key(fmt_seq(ls, d)[i]) == parse_key(ls[i]),
    decreases i,
{
    lemma_fmt_seq_len(ls, d);
    if i == 0 {
        lemma_fmt_line(ls[0], d);
    } else {
        lemma_fmt_seq_key(ls.drop_first(), next_depth(ls[0], d), i - 1);
    }
}

proof fn lemma_fmt_seq_len(ls: Seq<Seq<char>>, d: nat)
    ensures
        fmt_seq(ls, d).len() == ls.len(),
    decreases ls.len(),
{
    if ls.len() > 0 {
        lemma_fmt_seq_len(ls.drop_first(), next_depth(ls[0], d));
    }
}

/// Line sequences that the parser reads alike parse alike.
proof fn lemma_parse_prefix_keys(a: Seq<Seq<char>>, b: Seq<Seq<char>>, n: nat)
    requires
        a.len() == b.len(),
        n <= a.len(),
        forall|i: int| 0 <= i < a.len() ==> parse_key(#[trigger] a[i]) == parse_key(b[i]),
    ensures
        parse_prefix(a, n) == parse_prefix(b, n),
    decreases n,
{
    if n > 0 {
        lemma_parse_prefix_keys(a, b, (n - 1) as nat);
        assert(parse_key(a[n - 1]) == parse_key(b[n - 1]));
        match parse_prefix(a, (n - 1) as nat) {
            Ok(st) => lemma_parse_key(st, n, a[n - 1], b[n - 1]),
            Err(_) => {},
        }
    }
}

proof fn lemma_fmt_fixpoint(ls: Seq<Seq<char>>, d: nat)
    ensures
        fmt_lines(fmt_seq(ls, d), d) == fmt_lines(ls, d),
    decreases ls.len(),
{
    if ls.len() > 0 {
        let f = fmt_seq(ls, d);
        let nd = next_depth(ls[0], d);
        lemma_fmt_line(ls[0], d);
        lemma_fmt_fixpoint(ls.drop_first(), nd);
        assert(f[0] == fmt_line(ls[0], d));
        assert(f.drop_first() =~= fmt_seq(ls.drop_first(), nd));
    }
}

proof fn lemma_format_lines(src: Seq<char>)
    ensures
        lines(fmt_lines(lines(src), 0)) == fmt_seq(lines(src), 0),
        spec_parse_steps(fmt_lines(lines(src), 0)) == spec_parse_steps(src),
{
    let ls = lines(src);
    lemma_lines_no_newline(src);
    lemma_fmt_lines_lines(ls, 0);
    let f = fmt_seq(ls, 0);
    lemma_fmt_seq_len(ls, 0);
    assert forall|i: int| 0 <= i < f.len() implies parse_key(#[trigger] f[i]) == parse_key(
        ls[i],
    ) by {
        lemma_fmt_seq_key(ls, 0, i);
    }
    lemma_parse_prefix_keys(f, ls, ls.len());
}

/// Formatting rejects exactly the scripts that do not parse.
pub proof fn law_format_rejects_exactly_invalid(src: Seq<char>)
    ensures
        spec_format(src) is Err <==> spec_parse_steps(src) is Err,
{
}

/// Formatting keeps the meaning of a script: the formatted text parses to
/// the same steps as the script it came from.
pub proof fn law_format_preserves_steps(src: Seq<char>)
    requires
        spec_format(src) is Ok,
    ensures
        spec_parse_steps(spec_format(src)->Ok_0) == spec_parse_steps(src),
{
    lemma_format_lines(src);
}

/// Formatting is idempotent: a formatted script formats to itself.
pub proof fn law_format_idempotent(src: Seq<char>)
    requires
        spec_format(src) is Ok,
    ensures
        spec_format(spec_format(src)->Ok_0) == spec_format(src),
{
    let out = spec_format(src)->Ok_0;
    lemma_format_lines(src);
    lemma_fmt_fixpoint(lines(src), 0);
}


/// The loop depth before line `i` of `ls`, the first line being at depth
/// `d`: each `loop` opens a level and each `end` closes one.
pub open spec fn depth_before(ls: Seq<Seq<char>>, d: nat, i: int) -> nat
    decreases i,
{
    if i <= 0 || ls.len() == 0 {
        d
    } else {
        depth_before(ls.drop_first(), next_depth(ls[0], d), i - 1)
    }
}

/// The depth at which line `r` is written at loop depth `d`: an `end` line
/// one level out, any other line at `d`.
pub open spec fn line_depth(r: Seq<char>, d: nat) -> nat {
    let code = trim(split_comment(r).0);
    if code.len() > 0 && split_verb(code).0 == "end"@ {
        dec_depth(d)
    } else {
        d
    }
}

/// A formatted line is blank, or four spaces per level of its depth and
/// then a character that is no whitespace.
pub open spec fn indented_at(l: Seq<char>, depth: nat) -> bool {
    l.len() == 0 || (l.len() > 4 * depth && l.take(4 * depth as int) == indent(depth) && !is_ws(
        l[4 * depth as int],
    ))
}

proof fn lemma_fmt_line_indented(r: Seq<char>, d: nat)
    ensures
        indented_at(fmt_line(r, d), line_depth(r, d)),
{
    let (code0, comment) = split_comment(r);
    lemma_comment(r);
    let code = trim(code0);
    let l = fmt_line(r, d);
    if code.len() == 0 {
        if let Some(c) = comment {
            let tc = trim_end(c);
            lemma_indent(d);
            assert(l == indent(d) + tc);
            assert(l.take(4 * d as int) =~= indent(d));
            assert(l[4 * d as int] == tc[0]);
        }
    } else {
        lemma_trim_props(code0);
        let (verb, rest0) = split_verb(code);
        lemma_code(code);
        let rest = trim(rest0);
        let core = joined(verb, rest);
        lemma_joined(verb, rest);
        let ed = line_depth(r, d);
        lemma_indent(ed);
        let tail = match comment {
            Some(c) => "  "@ + trim_end(c),
            None => seq![],
        };
        assert(l =~= indent(ed) + core + tail);
        assert(l.take(4 * ed as int) =~= indent(ed));
        assert(l[4 * ed as int] == core[0]);
    }
}

proof fn lemma_fmt_seq_at(ls: Seq<Seq<char>>, d: nat, i: int)
    requires
        0 <= i < ls.len(),
    ensures
        fmt_seq(ls, d)[i] == fmt_line(ls[i], depth_before(ls, d, i)),
    decreases i,
{
    lemma_fmt_seq_len(ls, d);
    if i > 0 {
        lemma_fmt_seq_at(ls.drop_first(), next_depth(ls[0], d), i - 1);
    }
}

/// Formatting keeps the lines of a script: the formatted text has as many
/// lines, each line formatted at the loop depth before it, blank lines stay
/// blank, and every other line begins with exactly four spaces per
/// enclosing loop (an `end` at its loop's own level).
pub proof fn law_format_layout(src: Seq<char>)
    requires
        spec_format(src) is Ok,
    ensures
        ({
            let ls = lines(src);
            let out = lines(spec_format(src)->Ok_0);
            &&& out.len() == ls.len()
            &&& forall|i: int|
                0 <= i < ls.len() ==> #[trigger] out[i] == fmt_line(ls[i], depth_before(ls, 0, i))
            &&& forall|i: int|
                0 <= i < ls.len() ==> indented_at(
                    #[trigger] out[i],
                    line_depth(ls[i], depth_before(ls, 0, i)),
                )
            &&& forall|i: int| 0 <= i < ls.len() && all_ws(#[trigger] ls[i]) ==> out[i].len() == 0
        }),
{
    let ls = lines(src);
    lemma_format_lines(src);
    lemma_fmt_seq_len(ls, 0);
    let out = lines(spec_format(src)->Ok_0);
    assert forall|i: int| 0 <= i < ls.len() implies #[trigger] out[i] == fmt_line(
        ls[i],
        depth_before(ls, 0, i),
    ) && indented_at(out[i], line_depth(ls[i], depth_before(ls, 0, i))) && (all_ws(ls[i])
        ==> out[i].len() == 0) by {
        lemma_fmt_seq_at(ls, 0, i);
        lemma_fmt_line_indented(ls[i], depth_before(ls, 0, i));
        if all_ws(ls[i]) {
            lemma_blank_line(ls[i], depth_before(ls, 0, i));
        }
    }
}

proof fn lemma_blank_line(r: Seq<char>, d: nat)
    requires
        all_ws(r),
    ensures
        fmt_line(r, d).len() == 0,
{
    lemma_find_char_props(r, '#');
    if let Some(i) = find_char(r, '#') {
        assert(is_ws(r[i as int]));
    }
    assert(split_comment(r).0 == r);
    lemma_trim_props(r);
    lemma_lead_ws_props(r);
    if lead_ws(r) < r.len() {
        assert(is_ws(r[lead_ws(r) as int]));
    }
}

// ---------------------------------------------------------------------------
// Script files.

/// The script that `s init` writes: a commented example that starts the
/// server, waits for it, samples MSPT in a loop and stops it.
pub open spec fn init_script() -> Seq<char> {
    "# Scenario: launch server, wait for ready, sample MSPT, stop.
# Pattern syntax:
#   literal text (e.g. `Done (`)
#   `{}`           — placeholder that grabs a decimal number
#   `re:<regex>`   — full regex with capture group

start
wait Done (
send /tick rate 20
sleep 2s

loop 30s every 1s
    send /tick query rate
    grab mspt Average tick time: {} ms
end

stop
"@
}

/// The script that `s init` writes.
pub fn init_template() -> (t: &'static str)
    ensures
        t@ == init_script(),
{
    "# Scenario: launch server, wait for ready, sample MSPT, stop.
# Pattern syntax:
#   literal text (e.g. `Done (`)
#   `{}`           — placeholder that grabs a decimal number
#   `re:<regex>`   — full regex with capture group

start
wait Done (
send /tick rate 20
sleep 2s

loop 30s every 1s
    send /tick query rate
    grab mspt Average tick time: {} ms
end

stop
"
}

/// `str::trim_end_matches(".mcb")`: every trailing `.mcb` removed.
pub open spec fn strip_mcb(s: Seq<char>) -> Seq<char>
    decreases s.len(),
{
    if s.len() >= 4 && s.skip(s.len() - 4) == ".mcb"@ {
        strip_mcb(s.take(s.len() - 4))
    } else {
        s
    }
}

/// `Path::join` of a relative or absolute path on a directory (Unix): an
/// absolute path replaces the directory; otherwise one `/` separates them.
pub open spec fn path_join(dir: Seq<char>, p: Seq<char>) -> Seq<char> {
    if p.len() > 0 && p[0] == '/' {
        p
    } else if dir.len() == 0 {
        p
    } else if dir.last() == '/' {
        dir + p
    } else {
        dir + "/"@ + p
    }
}

/// The script file of a scenario name (or file name) in a directory.
pub open spec fn script_file(dir: Seq<char>, target: Seq<char>) -> Seq<char> {
    path_join(dir, strip_mcb(target) + ".mcb"@)
}

fn strip_mcb_chars(v: &Vec<char>) -> (r: Vec<char>)
    ensures
        r@ == strip_mcb(v@),
{
    let mut n: usize = v.len();
    let suffix = chars_of(".mcb");
    proof {
        reveal_strlit(".mcb");
    }
    assert(v@.take(n as int) =~= v@);
    while n >= 4
        invariant
            n <= v.len(),
            suffix@ == ".mcb"@,
            strip_mcb(v@) == strip_mcb(v@.take(n as int)),
        ensures
            n <= v.len(),
            strip_mcb(v@) == v@.take(n as int),
        decreases n,
    {
        let tail = slice_of(v, n - 4, n);
        let ghost t = v@.take(n as int);
        assert(tail@ =~= t.skip(t.len() - 4));
        if !chars_eq_str(&tail, ".mcb") {
            assert(strip_mcb(t) == t);
            break;
        }
        assert(t.take(t.len() - 4) =~= v@.take(n - 4));
        n = n - 4;
    }
    slice_of(v, 0, n)
}

/// The script file for `target` in `dir`.
pub fn script_file_path(dir: &str, target: &str) -> (r: String)
    ensures
        r@ == script_file(dir@, target@),
{
    let tv = chars_of(target);
    let stem = strip_mcb_chars(&tv);
    let mut name = string_of(&stem);
    push_str(&mut name, ".mcb");
    let dv = chars_of(dir);
    let nv = chars_of(name.as_str());
    if nv.len() > 0 && nv[0] == '/' {
        name
    } else if dv.len() == 0 {
        name
    } else if dv[dv.len() - 1] == '/' {
        let mut r = dir.to_owned();
        push_str(&mut r, name.as_str());
        r
    } else {
        let mut r = dir.to_owned();
        push_str(&mut r, "/");
        push_str(&mut r, name.as_str());
        r
    }
}

/// Why `s init` refuses a name: it is empty, or it holds a path separator.
pub open spec fn spec_init_name_error(name: Seq<char>) -> Option<Seq<char>> {
    if name.len() == 0 {
        Some("s init: missing <name>"@)
    } else if !lacks(name, '/') || !lacks(name, '\\') {
        Some("s init: <name> must not contain path separators"@)
    } else {
        None
    }
}

pub fn init_name_error(name: &str) -> (r: Option<String>)
    ensures
        match r {
            Some(m) => spec_init_name_error(name@) == Some(m@),
            None => spec_init_name_error(name@) is None,
        },
{
    let v = chars_of(name);
    if v.len() == 0 {
        return Some("s init: missing <name>".to_owned());
    }
    let slash = find_char_in(&v, '/');
    let back = find_char_in(&v, '\\');
    proof {
        lemma_find_char_props(v@, '/');
        lemma_find_char_props(v@, '\\');
    }
    if slash.is_some() || back.is_some() {
        Some("s init: <name> must not contain path separators".to_owned())
    } else {
        None
    }
}

/// The file name `n.mcb` after a directory part `pre` (empty, or ending in
/// `/`) names the scenario `n`.
proof fn lemma_name_after(pre: Seq<char>, n: Seq<char>)
    requires
        n.len() > 0,
        crate::text::lacks(n, '/'),
        crate::text::lacks(n, '.'),
        pre.len() == 0 || pre.last() == '/',
    ensures
        crate::scenario::scenario_name(pre + n + ".mcb"@) == n,
{
    reveal_strlit(".mcb");
    reveal_strlit(".");
    reveal_strlit("..");
    let seg = n + ".mcb"@;
    let p = pre + seg;
    assert(pre + n + ".mcb"@ =~= p);
    assert forall|j: int| p.len() - seg.len() <= j < p.len() implies #[trigger] p[j] != '/' by {
        assert(p[j] == seg[j - pre.len()]);
        if j - pre.len() < n.len() {
            assert(seg[j - pre.len()] == n[j - pre.len()]);
        }
    }
    crate::scenario::lemma_rfind_char(p, '/', seg.len() as int);
    assert(p.skip(pre.len() as int) =~= seg);
    assert(seg != "."@ && seg != ".."@) by {
        assert(seg.len() > 2);
    }
    assert forall|j: int| seg.len() - 3 <= j < seg.len() implies #[trigger] seg[j] != '.' by {}
    assert(seg[seg.len() - 3 - 1] == '.');
    crate::scenario::lemma_rfind_char(seg, '.', 3);
    assert(seg.take(n.len() as int) =~= n);
    assert(crate::scenario::rfind_char(seg, '.') == Some(n.len()));
    assert(crate::scenario::file_name(seg) == Some(seg)) by {
        assert(crate::scenario::last_component(seg) == Some(seg)) by {
            assert forall|j: int| seg.len() - seg.len() <= j < seg.len() implies #[trigger] seg[j] != '/' by {
                if j < n.len() {
                    assert(seg[j] == n[j]);
                }
            }
            crate::scenario::lemma_rfind_char(seg, '/', seg.len() as int);
        }
    }
    if pre.len() == 0 {
        assert(p =~= seg);
    } else {
        assert(p[p.len() - seg.len() - 1] == pre.last());
        assert(crate::scenario::rfind_char(p, '/') == Some((pre.len() - 1) as nat));
        assert(p.skip(pre.len() - 1 + 1) =~= seg);
        assert(crate::scenario::last_component(p) == Some(seg));
        assert(crate::scenario::file_name(p) == Some(seg));
    }
}

/// A scenario name `n` (no `/`, no `.`) and the same name with `.mcb` give
/// the same script file; in a directory `d` it is `d/n.mcb`, and the
/// scenario read from that file is named `n` again.
pub proof fn law_script_file_names(dir: Seq<char>, n: Seq<char>)
    requires
        n.len() > 0,
        crate::text::lacks(n, '/'),
        crate::text::lacks(n, '.'),
    ensures
        script_file(dir, n + ".mcb"@) == script_file(dir, n),
        dir.len() > 0 && dir.last() != '/' ==> script_file(dir, n) == dir + "/"@ + n + ".mcb"@,
        crate::scenario::scenario_name(script_file(dir, n)) == n,
{
    reveal_strlit(".mcb");
    reveal_strlit("/");
    if n.len() >= 4 {
        assert(n.skip(n.len() - 4)[0] == n[n.len() - 4]);
    }
    assert(strip_mcb(n) == n);
    let m = n + ".mcb"@;
    assert(m.skip(m.len() - 4) =~= ".mcb"@);
    assert(m.take(m.len() - 4) =~= n);
    assert(strip_mcb(m) == strip_mcb(n));
    let f = n + ".mcb"@;
    assert(f[0] == n[0]);
    if dir.len() == 0 {
        lemma_name_after(dir, n);
        assert(dir + f =~= f);
    } else if dir.last() == '/' {
        lemma_name_after(dir, n);
        assert(dir + n + ".mcb"@ =~= dir + f);
    } else {
        let pre = dir + "/"@;
        assert(pre.last() == '/');
        lemma_name_after(pre, n);
        assert(pre + n + ".mcb"@ =~= dir + "/"@ + f);
    }
}

/// A line `v a` without a comment is written as the verb, one space and the
/// trimmed arguments, indented four spaces per loop around it (an `end` is
/// written one level out).
pub proof fn law_format_code_line(v: Seq<char>, a: Seq<char>, d: nat)
    requires
        v.len() > 0,
        forall|j: int| 0 <= j < v.len() ==> !is_ws(#[trigger] v[j]),
        lacks(v, '#'),
        lacks(a, '#'),
        trim(a).len() > 0,
    ensures
        fmt_line(v + seq![' '] + a, d) == indent(if v == "end"@ {
            dec_depth(d)
        } else {
            d
        }) + v + seq![' '] + trim(a),
{
    let x = v + seq![' '] + a;
    crate::scenario::lemma_line_code(v, a);
    lemma_comment(x);
    assert(lacks(x, '#')) by {
        assert forall|j: int| 0 <= j < x.len() implies #[trigger] x[j] != '#' by {
            if j < v.len() {
                assert(x[j] == v[j]);
            } else if j > v.len() {
                assert(x[j] == a[j - v.len() - 1]);
            }
        }
    }
    lemma_find_char(x, '#', x.len() as int);
    let code = trim(split_comment(x).0);
    assert(split_verb(code) == (v, trim(a)));
    assert(code.len() > 0) by {
        if code.len() == 0 {
            lemma_find_ws(code, 0);
            assert(trim_start(code) =~= code);
        }
    }
    lemma_trim_props(a);
    lemma_trim_start_noop(trim(a));
    lemma_trim_end_noop(trim(a));
}

} // verus!
