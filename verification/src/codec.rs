//! The text form of the persisted registry.
//!
//! A registry is stored as a small TOML-style document: an optional
//! `default_device = "..."` line, a blank line, a `[devices]` section header,
//! and one `"name" = "address"` line per device, in registry order.  String
//! contents are quoted, with `"`, `\`, newline, carriage return and tab
//! escaped.  `spec_emit` and `spec_parse` state the format mathematically;
//! `emit_config` and `parse_config` implement them, and
//! `lemma_emit_parse_round_trip` proves that parsing an emitted registry
//! gives the registry back.

use vstd::prelude::*;
use vstd::string::{StrSliceExecFns, StringExecFns};

use crate::registry::{Config, Device, RegView};
use crate::text::{push_char, str_chars, str_eq};

verus! {

// ---------------------------------------------------------------------------
// The format, as spec functions.
// ---------------------------------------------------------------------------
/// How one character is written inside a quoted string.
pub open spec fn esc_char(c: char) -> Seq<char> {
    if c == '"' {
        seq!['\\', '"']
    } else if c == '\\' {
        seq!['\\', '\\']
    } else if c == '\n' {
        seq!['\\', 'n']
    } else if c == '\r' {
        seq!['\\', 'r']
    } else if c == '\t' {
        seq!['\\', 't']
    } else {
        seq![c]
    }
}

/// How a whole string is written inside quotes.
pub open spec fn esc(s: Seq<char>) -> Seq<char>
    decreases s.len(),
{
    if s.len() == 0 {
        Seq::empty()
    } else {
        esc_char(s[0]) + esc(s.drop_first())
    }
}

/// The character an escape sequence `\x` stands for, if `x` is a valid
/// escape.
pub open spec fn unesc_char(c: char) -> Option<char> {
    if c == '"' {
        Some('"')
    } else if c == '\\' {
        Some('\\')
    } else if c == 'n' {
        Some('\n')
    } else if c == 'r' {
        Some('\r')
    } else if c == 't' {
        Some('\t')
    } else {
        None
    }
}

/// Reads a quoted string's body up to and including its closing quote;
/// returns the unescaped contents and the remaining input.
pub open spec fn parse_q(t: Seq<char>) -> Option<(Seq<char>, Seq<char>)>
    decreases t.len(),
{
    if t.len() == 0 {
        None
    } else if t[0] == '"' {
        Some((Seq::empty(), t.drop_first()))
    } else if t[0] == '\\' {
        if t.len() >= 2 {
            match unesc_char(t[1]) {
                Some(c) => match parse_q(t.skip(2)) {
                    Some(p) => Some((seq![c] + p.0, p.1)),
                    None => None,
                },
                None => None,
            }
        } else {
            None
        }
    } else {
        match parse_q(t.drop_first()) {
            Some(p) => Some((seq![t[0]] + p.0, p.1)),
            None => None,
        }
    }
}

/// The position of the first newline in `s`, or `s.len()` when there is
/// none.
pub open spec fn find_nl(s: Seq<char>) -> nat
    decreases s.len(),
{
    if s.len() == 0 {
        0
    } else if s[0] == '\n' {
        0
    } else {
        1 + find_nl(s.drop_first())
    }
}

/// Splits newline-terminated text into its lines; text whose last line is
/// unterminated does not split.
pub open spec fn split_lines(s: Seq<char>) -> Option<Seq<Seq<char>>>
    decreases s.len(),
{
    if s.len() == 0 {
        Some(Seq::empty())
    } else {
        let k = find_nl(s);
        if k < s.len() {
            match split_lines(s.skip(k as int + 1)) {
                Some(ls) => Some(seq![s.subrange(0, k as int)] + ls),
                None => None,
            }
        } else {
            None
        }
    }
}

/// The text that introduces the default-device line.
pub open spec fn dpre() -> Seq<char> {
    "default_device = \""@
}

/// The section-header line above the device entries.
pub open spec fn hdr_line() -> Seq<char> {
    "[devices]"@
}

/// The text between a device line's quoted name and quoted address.
pub open spec fn sep() -> Seq<char> {
    " = \""@
}

/// One device line: `"name" = "address"`.
pub open spec fn line_of(p: (Seq<char>, Seq<char>)) -> Seq<char> {
    seq!['"'] + esc(p.0) + seq!['"'] + sep() + esc(p.1) + seq!['"']
}

/// The newline-terminated device lines, in registry order.
pub open spec fn text_of(pairs: Seq<(Seq<char>, Seq<char>)>) -> Seq<char>
    decreases pairs.len(),
{
    if pairs.len() == 0 {
        Seq::empty()
    } else {
        line_of(pairs[0]) + seq!['\n'] + text_of(pairs.drop_first())
    }
}

/// The default-device part of the document: absent, or the default line
/// followed by a blank line.
pub open spec fn dpart(d: Option<Seq<char>>) -> Seq<char> {
    match d {
        Some(n) => dpre() + esc(n) + seq!['"', '\n', '\n'],
        None => Seq::empty(),
    }
}

/// The whole persisted document for a registry.
pub open spec fn spec_emit(v: RegView) -> Seq<char> {
    dpart(v.default_name) + hdr_line() + seq!['\n'] + text_of(v.pairs)
}

/// A quoted string that fills the rest of its line.
pub open spec fn qline(t: Seq<char>) -> Option<Seq<char>> {
    match parse_q(t) {
        Some(p) => if p.1.len() == 0 {
            Some(p.0)
        } else {
            None
        },
        None => None,
    }
}

/// Reads one device line.
pub open spec fn parse_dev_line(l: Seq<char>) -> Option<(Seq<char>, Seq<char>)> {
    if l.len() >= 1 && l[0] == '"' {
        match parse_q(l.drop_first()) {
            Some(p) => if p.1.len() >= 4 && p.1.subrange(0, 4) == sep() {
                match qline(p.1.skip(4)) {
                    Some(a) => Some((p.0, a)),
                    None => None,
                }
            } else {
                None
            },
            None => None,
        }
    } else {
        None
    }
}

/// Reads the device lines, one pair per line.
pub open spec fn parse_dev_lines(ls: Seq<Seq<char>>) -> Option<Seq<(Seq<char>, Seq<char>)>>
    decreases ls.len(),
{
    if ls.len() == 0 {
        Some(Seq::empty())
    } else {
        match parse_dev_line(ls[0]) {
            Some(p) => match parse_dev_lines(ls.drop_first()) {
                Some(pairs) => Some(seq![p] + pairs),
                None => None,
            },
            None => None,
        }
    }
}

/// Assembles a parsed registry, rejecting duplicate device names.
pub open spec fn assemble(
    d: Option<Seq<char>>,
    pr: Option<Seq<(Seq<char>, Seq<char>)>>,
) -> Option<RegView> {
    match pr {
        Some(pairs) => {
            let rv = RegView { pairs: pairs, default_name: d };
            if rv.wf() {
                Some(rv)
            } else {
                None
            }
        },
        None => None,
    }
}

/// Reads a whole persisted document; `None` is a structurally invalid
/// document.
pub open spec fn spec_parse(s: Seq<char>) -> Option<RegView> {
    match split_lines(s) {
        Some(ls) => if ls.len() >= 1 && ls[0] == hdr_line() {
            assemble(None, parse_dev_lines(ls.skip(1)))
        } else if ls.len() >= 3 && ls[0].len() >= dpre().len() && ls[0].subrange(
            0,
            dpre().len() as int,
        ) == dpre() && ls[1].len() == 0 && ls[2] == hdr_line() {
            match qline(ls[0].skip(dpre().len() as int)) {
                Some(d) => assemble(Some(d), parse_dev_lines(ls.skip(3))),
                None => None,
            }
        } else {
            None
        },
        None => None,
    }
}

// ---------------------------------------------------------------------------
// Lemmas about the format.
// ---------------------------------------------------------------------------
/// `find_nl` is the position of the first newline, or the length.
pub proof fn lemma_find_nl(s: Seq<char>)
    ensures
        find_nl(s) <= s.len(),
        find_nl(s) < s.len() ==> s[find_nl(s) as int] == '\n',
        forall|j: int| 0 <= j < find_nl(s) ==> s[j] != '\n',
    decreases s.len(),
{
    if s.len() == 0 {
    } else if s[0] == '\n' {
    } else {
        lemma_find_nl(s.drop_first());
        assert(forall|j: int| 1 <= j < s.len() ==> #[trigger] s[j] == s.drop_first()[j - 1]);
    }
}

/// Conversely, a position followed only by non-newlines, holding a newline
/// or sitting at the end, is what `find_nl` returns.
pub proof fn lemma_find_nl_at(s: Seq<char>, k: int)
    requires
        0 <= k <= s.len(),
        forall|j: int| 0 <= j < k ==> s[j] != '\n',
        k < s.len() ==> s[k] == '\n',
    ensures
        find_nl(s) == k,
    decreases s.len(),
{
    if s.len() == 0 {
    } else if k == 0 {
        if s.len() > 0 && s[0] != '\n' {
            lemma_find_nl(s);
            assert(find_nl(s) == 1 + find_nl(s.drop_first()));
            assert(k < s.len());
        }
    } else {
        assert(s[0] != '\n');
        assert(forall|j: int| 1 <= j < s.len() ==> #[trigger] s[j] == s.drop_first()[j - 1]);
        lemma_find_nl_at(s.drop_first(), k - 1);
    }
}

/// Splitting a newline-terminated line off the front of the text splits the
/// line off the front of the line list.
pub proof fn lemma_split_cons(line: Seq<char>, rest: Seq<char>)
    requires
        forall|j: int| 0 <= j < line.len() ==> line[j] != '\n',
    ensures
        split_lines(line + seq!['\n'] + rest) == (match split_lines(rest) {
            Some(ls) => Some(seq![line] + ls),
            None => None::<Seq<Seq<char>>>,
        }),
{
    let s = line + seq!['\n'] + rest;
    assert(s.len() == line.len() + 1 + rest.len());
    assert(forall|j: int| 0 <= j < line.len() ==> s[j] == line[j]);
    assert(s[line.len() as int] == '\n');
    lemma_find_nl_at(s, line.len() as int);
    assert(s.subrange(0, line.len() as int) =~= line);
    assert(s.skip(line.len() as int + 1) =~= rest);
}

/// Escaped text contains no raw newline.
pub proof fn lemma_esc_no_nl(s: Seq<char>)
    ensures
        forall|j: int| 0 <= j < esc(s).len() ==> esc(s)[j] != '\n',
    decreases s.len(),
{
    if s.len() > 0 {
        lemma_esc_no_nl(s.drop_first());
        assert(forall|j: int|
            0 <= j < esc_char(s[0]).len() ==> esc(s)[j] == esc_char(s[0])[j]);
        assert(forall|j: int|
            esc_char(s[0]).len() <= j < esc(s).len() ==> esc(s)[j] == esc(s.drop_first())[j
                - esc_char(s[0]).len()]);
    }
}

/// Reading a quoted body undoes escaping: the escaped text, a closing quote
/// and any remainder read back as the unescaped text and that remainder.
pub proof fn lemma_parse_q_esc(x: Seq<char>, rest: Seq<char>)
    ensures
        parse_q(esc(x) + seq!['"'] + rest) == Some((x, rest)),
    decreases x.len(),
{
    let t = esc(x) + seq!['"'] + rest;
    if x.len() == 0 {
        assert(esc(x) =~= Seq::<char>::empty());
        assert(t[0] == '"');
        assert(t.drop_first() =~= rest);
    } else {
        let c = x[0];
        let tail = x.drop_first();
        lemma_parse_q_esc(tail, rest);
        if c == '"' || c == '\\' || c == '\n' || c == '\r' || c == '\t' {
            assert(esc_char(c).len() == 2);
            assert(t[0] == '\\');
            assert(t.len() >= 2);
            assert(unesc_char(t[1]) == Some(c));
            assert(t.skip(2) =~= esc(tail) + seq!['"'] + rest);
            assert(seq![c] + tail =~= x);
        } else {
            assert(esc_char(c) =~= seq![c]);
            assert(t[0] == c);
            assert(t.drop_first() =~= esc(tail) + seq!['"'] + rest);
            assert(seq![c] + tail =~= x);
        }
    }
}

/// A device line reads back as the pair it was written from.
pub proof fn lemma_parse_dev_line(p: (Seq<char>, Seq<char>))
    ensures
        parse_dev_line(line_of(p)) == Some(p),
{
    let l = line_of(p);
    let r1 = sep() + esc(p.1) + seq!['"'];
    assert(l[0] == '"');
    assert(l.drop_first() =~= esc(p.0) + seq!['"'] + r1);
    lemma_parse_q_esc(p.0, r1);
    reveal_strlit(" = \"");
    assert(sep().len() == 4);
    assert(r1.subrange(0, 4) =~= sep());
    assert(r1.skip(4) =~= esc(p.1) + seq!['"'] + Seq::<char>::empty());
    lemma_parse_q_esc(p.1, Seq::<char>::empty());
    assert(qline(r1.skip(4)) == Some(p.1));
    assert(parse_dev_line(l) == Some((p.0, p.1)));
    assert((p.0, p.1) == p);
}

/// A device line contains no raw newline.
pub proof fn lemma_line_no_nl(p: (Seq<char>, Seq<char>))
    ensures
        forall|j: int| 0 <= j < line_of(p).len() ==> line_of(p)[j] != '\n',
{
    let l = line_of(p);
    lemma_esc_no_nl(p.0);
    lemma_esc_no_nl(p.1);
    reveal_strlit(" = \"");
    assert forall|j: int| 0 <= j < l.len() implies l[j] != '\n' by {
        let a = esc(p.0);
        let b = esc(p.1);
        assert(l.len() == 1 + a.len() + 1 + 4 + b.len() + 1);
        assert(sep() =~= seq![' ', '=', ' ', '"']);
        if j == 0 {
        } else if j <= a.len() {
            assert(l[j] == a[j - 1]);
        } else if j == a.len() + 1 {
            assert(l[j] == '"');
        } else if j <= a.len() + 5 {
            assert(l[j] == sep()[j - (a.len() + 2)]);
        } else if j <= a.len() + 5 + b.len() {
            assert(l[j] == b[j - (a.len() + 6)]);
        } else {
            assert(l[j] == '"');
        }
    }
}

/// The line list a device sequence is written as.
pub open spec fn lines_of(pairs: Seq<(Seq<char>, Seq<char>)>) -> Seq<Seq<char>>
    decreases pairs.len(),
{
    if pairs.len() == 0 {
        Seq::empty()
    } else {
        seq![line_of(pairs[0])] + lines_of(pairs.drop_first())
    }
}

/// The device text splits into the device lines.
pub proof fn lemma_split_text(pairs: Seq<(Seq<char>, Seq<char>)>)
    ensures
        split_lines(text_of(pairs)) == Some(lines_of(pairs)),
    decreases pairs.len(),
{
    if pairs.len() == 0 {
        assert(text_of(pairs) =~= Seq::<char>::empty());
    } else {
        lemma_split_text(pairs.drop_first());
        lemma_line_no_nl(pairs[0]);
        lemma_split_cons(line_of(pairs[0]), text_of(pairs.drop_first()));
        assert(line_of(pairs[0]) + seq!['\n'] + text_of(pairs.drop_first()) =~= text_of(pairs));
    }
}

/// The device lines read back as the device sequence they were written
/// from.
pub proof fn lemma_parse_lines_of(pairs: Seq<(Seq<char>, Seq<char>)>)
    ensures
        parse_dev_lines(lines_of(pairs)) == Some(pairs),
    decreases pairs.len(),
{
    if pairs.len() == 0 {
    } else {
        lemma_parse_lines_of(pairs.drop_first());
        lemma_parse_dev_line(pairs[0]);
        let ls = lines_of(pairs);
        assert(ls[0] == line_of(pairs[0]));
        assert(ls.drop_first() =~= lines_of(pairs.drop_first()));
        assert(seq![pairs[0]] + pairs.drop_first() =~= pairs);
    }
}

/// Parsing an emitted registry gives the registry back: the persisted form
/// loses nothing.
pub proof fn lemma_emit_parse_round_trip(v: RegView)
    requires
        v.wf(),
    ensures
        spec_parse(spec_emit(v)) == Some(v),
{
    let s = spec_emit(v);
    lemma_split_text(v.pairs);
    reveal_strlit("[devices]");
    assert(hdr_line().len() == 9);
    assert(forall|j: int| 0 <= j < hdr_line().len() ==> hdr_line()[j] != '\n');
    match v.default_name {
        None => {
            assert(s =~= hdr_line() + seq!['\n'] + text_of(v.pairs));
            lemma_split_cons(hdr_line(), text_of(v.pairs));
            let ls = seq![hdr_line()] + lines_of(v.pairs);
            assert(split_lines(s) == Some(ls));
            assert(ls[0] == hdr_line());
            assert(ls.skip(1) =~= lines_of(v.pairs));
            lemma_parse_lines_of(v.pairs);
            assert(assemble(None, Some(v.pairs)) == Some(v)) by {
                let rv = RegView { pairs: v.pairs, default_name: None };
                assert(rv =~= v);
            }
        },
        Some(d) => {
            reveal_strlit("default_device = \"");
            assert(dpre().len() == 18);
            assert(forall|j: int| 0 <= j < dpre().len() ==> dpre()[j] != '\n');
            lemma_esc_no_nl(d);
            let line0 = dpre() + esc(d) + seq!['"'];
            assert(forall|j: int| 0 <= j < line0.len() ==> line0[j] != '\n') by {
                assert(forall|j: int|
                    0 <= j < 18 ==> line0[j] == dpre()[j]);
                assert(forall|j: int|
                    18 <= j < 18 + esc(d).len() ==> line0[j] == esc(d)[j - 18]);
                assert(line0[line0.len() - 1] == '"');
            }
            let rest1 = seq!['\n'] + hdr_line() + seq!['\n'] + text_of(v.pairs);
            assert(s =~= line0 + seq!['\n'] + rest1);
            lemma_split_cons(line0, rest1);
            let rest2 = hdr_line() + seq!['\n'] + text_of(v.pairs);
            assert(rest1 =~= Seq::<char>::empty() + seq!['\n'] + rest2);
            lemma_split_cons(Seq::<char>::empty(), rest2);
            lemma_split_cons(hdr_line(), text_of(v.pairs));
            let ls = seq![line0, Seq::<char>::empty(), hdr_line()] + lines_of(v.pairs);
            assert(split_lines(s) == Some(ls)) by {
                assert(seq![line0] + (seq![Seq::<char>::empty()] + (seq![hdr_line()] + lines_of(
                    v.pairs,
                ))) =~= ls);
            }
            assert(ls[0] == line0);
            assert(ls[0] != hdr_line()) by {
                assert(line0.len() >= 19);
            }
            assert(ls.len() >= 3);
            assert(ls[0].len() >= dpre().len());
            assert(ls[0].subrange(0, 18) =~= dpre());
            assert(ls[1].len() == 0);
            assert(ls[2] == hdr_line());
            assert(ls[0].skip(18) =~= esc(d) + seq!['"'] + Seq::<char>::empty());
            lemma_parse_q_esc(d, Seq::<char>::empty());
            assert(qline(ls[0].skip(18)) == Some(d));
            assert(ls.skip(3) =~= lines_of(v.pairs));
            lemma_parse_lines_of(v.pairs);
            assert(assemble(Some(d), Some(v.pairs)) == Some(v)) by {
                let rv = RegView { pairs: v.pairs, default_name: Some(d) };
                assert(rv =~= v);
            }
        },
    }
}

// ---------------------------------------------------------------------------
// Emitting.
// ---------------------------------------------------------------------------
/// Escaping one more character appends its escape.
pub proof fn lemma_esc_snoc(s: Seq<char>, c: char)
    ensures
        esc(s.push(c)) == esc(s) + esc_char(c),
    decreases s.len(),
{
    if s.len() == 0 {
        assert(s.push(c)[0] == c);
        assert(s.push(c).drop_first() =~= Seq::<char>::empty());
        assert(esc(Seq::<char>::empty()) == Seq::<char>::empty());
        assert(esc(s.push(c)) =~= esc_char(c));
        assert(esc(s) + esc_char(c) =~= esc_char(c));
    } else {
        lemma_esc_snoc(s.drop_first(), c);
        assert(s.push(c)[0] == s[0]);
        assert(s.push(c).drop_first() =~= s.drop_first().push(c));
        assert(esc(s.push(c)) =~= esc(s) + esc_char(c));
    }
}

/// Writing one more device appends its line.
pub proof fn lemma_text_snoc(pairs: Seq<(Seq<char>, Seq<char>)>, p: (Seq<char>, Seq<char>))
    ensures
        text_of(pairs.push(p)) == text_of(pairs) + line_of(p) + seq!['\n'],
    decreases pairs.len(),
{
    if pairs.len() == 0 {
        assert(pairs.push(p)[0] == p);
        assert(pairs.push(p).drop_first() =~= Seq::<(Seq<char>, Seq<char>)>::empty());
        assert(text_of(Seq::<(Seq<char>, Seq<char>)>::empty()) == Seq::<char>::empty());
        assert(text_of(pairs.push(p)) =~= line_of(p) + seq!['\n']);
        assert(text_of(pairs) + line_of(p) + seq!['\n'] =~= line_of(p) + seq!['\n']);
    } else {
        lemma_text_snoc(pairs.drop_first(), p);
        assert(pairs.push(p)[0] == pairs[0]);
        assert(pairs.push(p).drop_first() =~= pairs.drop_first().push(p));
        let a = line_of(pairs[0]);
        let nl = seq!['\n'];
        let t = text_of(pairs.drop_first());
        let lp = line_of(p);
        assert(text_of(pairs.push(p)) == a + nl + (t + lp + nl));
        assert(text_of(pairs) == a + nl + t);
        assert(a + nl + (t + lp + nl) =~= (a + nl + t) + lp + nl);
    }
}

/// Appends the escaped form of `s` to `out`.
fn push_escaped(out: &mut String, s: &str)
    ensures
        final(out)@ == old(out)@ + esc(s@),
{
    let ghost base = out@;
    let n = s.unicode_len();
    let mut i: usize = 0;
    while i < n
        invariant
            n == s@.len(),
            i <= n,
            out@ == base + esc(s@.take(i as int)),
        decreases n - i,
    {
        let ch = s.get_char(i);
        if ch == '"' {
            push_char(out, '\\');
            push_char(out, '"');
        } else if ch == '\\' {
            push_char(out, '\\');
            push_char(out, '\\');
        } else if ch == '\n' {
            push_char(out, '\\');
            push_char(out, 'n');
        } else if ch == '\r' {
            push_char(out, '\\');
            push_char(out, 'r');
        } else if ch == '\t' {
            push_char(out, '\\');
            push_char(out, 't');
        } else {
            push_char(out, ch);
        }
        proof {
            lemma_esc_snoc(s@.take(i as int), ch);
            assert(s@.take(i as int + 1) =~= s@.take(i as int).push(ch));
            assert(out@ =~= base + esc(s@.take(i as int + 1)));
        }
        i += 1;
    }
    proof {
        assert(s@.take(n as int) =~= s@);
    }
}

/// Writes the registry in its persisted text form.
pub fn emit_config(c: &Config) -> (out: String)
    ensures
        out@ == spec_emit(c@),
{
    let mut out = String::new();
    match &c.default_device {
        Some(d) => {
            out.append("default_device = \"");
            push_escaped(&mut out, d.as_str());
            push_char(&mut out, '"');
            push_char(&mut out, '\n');
            push_char(&mut out, '\n');
            proof {
                assert(out@ =~= dpart(c@.default_name));
            }
        },
        None => {
            proof {
                assert(out@ =~= dpart(c@.default_name));
            }
        },
    }
    out.append("[devices]");
    push_char(&mut out, '\n');
    let ghost pre = out@;
    proof {
        assert(pre =~= dpart(c@.default_name) + hdr_line() + seq!['\n']);
    }
    let mut i: usize = 0;
    while i < c.devices.len()
        invariant
            i <= c.devices.len(),
            pre == dpart(c@.default_name) + hdr_line() + seq!['\n'],
            out@ == pre + text_of(c@.pairs.take(i as int)),
        decreases c.devices.len() - i,
    {
        push_char(&mut out, '"');
        push_escaped(&mut out, c.devices[i].name.as_str());
        push_char(&mut out, '"');
        out.append(" = \"");
        push_escaped(&mut out, c.devices[i].address.as_str());
        push_char(&mut out, '"');
        push_char(&mut out, '\n');
        proof {
            let p = c@.pairs[i as int];
            assert(c@.pairs.take(i as int + 1) =~= c@.pairs.take(i as int).push(p));
            lemma_text_snoc(c@.pairs.take(i as int), p);
            assert(out@ =~= pre + text_of(c@.pairs.take(i as int + 1)));
        }
        i += 1;
    }
    proof {
        assert(c@.pairs.take(c.devices.len() as int) =~= c@.pairs);
        assert(out@ =~= spec_emit(c@));
    }
    out
}

// ---------------------------------------------------------------------------
// Parsing.
// ---------------------------------------------------------------------------
/// Prepends already-split lines to a line-splitting outcome.
pub open spec fn glue_lines(pre: Seq<Seq<char>>, r: Option<Seq<Seq<char>>>) -> Option<
    Seq<Seq<char>>,
> {
    match r {
        Some(ls) => Some(pre + ls),
        None => None,
    }
}

/// Prepends already-read characters to a quoted-body outcome.
pub open spec fn glue_q(pre: Seq<char>, r: Option<(Seq<char>, Seq<char>)>) -> Option<
    (Seq<char>, Seq<char>),
> {
    match r {
        Some(p) => Some((pre + p.0, p.1)),
        None => None,
    }
}

/// Prepends already-read pairs to a device-lines outcome.
pub open spec fn glue_pairs(
    pre: Seq<(Seq<char>, Seq<char>)>,
    r: Option<Seq<(Seq<char>, Seq<char>)>>,
) -> Option<Seq<(Seq<char>, Seq<char>)>> {
    match r {
        Some(ps) => Some(pre + ps),
        None => None,
    }
}

/// A string with the given characters.
fn string_of_chars(v: &Vec<char>) -> (s: String)
    ensures
        s@ == v@,
{
    let mut s = String::new();
    let mut i: usize = 0;
    while i < v.len()
        invariant
            i <= v.len(),
            s@ == v@.take(i as int),
        decreases v.len() - i,
    {
        push_char(&mut s, v[i]);
        proof {
            assert(v@.take(i as int + 1) =~= v@.take(i as int).push(v@[i as int]));
        }
        i += 1;
    }
    proof {
        assert(v@.take(v.len() as int) =~= v@);
    }
    s
}

/// Splits the input into its newline-terminated lines, as `split_lines`
/// does.
fn split_chars(cs: &Vec<char>) -> (r: Option<Vec<Vec<char>>>)
    ensures
        match r {
            Some(l) => split_lines(cs@) == Some(l.deep_view()),
            None => split_lines(cs@) is None,
        },
{
    let mut acc: Vec<Vec<char>> = Vec::new();
    let mut start: usize = 0;
    proof {
        assert(cs@.skip(0) =~= cs@);
        assert(acc.deep_view() =~= Seq::<Seq<char>>::empty());
        if split_lines(cs@) is Some {
            assert(Seq::<Seq<char>>::empty() + split_lines(cs@)->0 =~= split_lines(cs@)->0);
        }
    }
    while start < cs.len()
        invariant
            start <= cs.len(),
            split_lines(cs@) == glue_lines(acc.deep_view(), split_lines(cs@.skip(start as int))),
        decreases cs.len() - start,
    {
        let ghost acc0 = acc.deep_view();
        let mut j: usize = start;
        while j < cs.len() && cs[j] != '\n'
            invariant
                start <= j <= cs.len(),
                forall|k: int| start <= k < j ==> cs@[k] != '\n',
            decreases cs.len() - j,
        {
            j += 1;
        }
        let ghost suf = cs@.skip(start as int);
        proof {
            assert(forall|k: int| 0 <= k < j - start ==> suf[k] != '\n');
        }
        if j == cs.len() {
            proof {
                lemma_find_nl_at(suf, suf.len() as int);
                assert(split_lines(suf) is None);
            }
            return None;
        }
        proof {
            assert(suf[j - start] == cs@[j as int]);
            lemma_find_nl_at(suf, j - start);
        }
        let mut line: Vec<char> = Vec::new();
        let mut k: usize = start;
        while k < j
            invariant
                start <= k <= j,
                j < cs.len(),
                line@ == cs@.subrange(start as int, k as int),
            decreases j - k,
        {
            line.push(cs[k]);
            proof {
                assert(cs@.subrange(start as int, k as int + 1) =~= cs@.subrange(
                    start as int,
                    k as int,
                ).push(cs@[k as int]));
            }
            k += 1;
        }
        let ghost lv = line@;
        proof {
            assert(line.deep_view() =~= line@);
            assert(lv =~= suf.subrange(0, j - start));
            assert(suf.skip(j - start + 1) =~= cs@.skip(j as int + 1));
            assert(split_lines(suf) == glue_lines(seq![lv], split_lines(cs@.skip(j as int + 1))));
        }
        acc.push(line);
        proof {
            assert(acc.deep_view() =~= acc0.push(lv));
            if split_lines(cs@.skip(j as int + 1)) is Some {
                let ls = split_lines(cs@.skip(j as int + 1))->0;
                assert(acc0 + (seq![lv] + ls) =~= acc0.push(lv) + ls);
            }
        }
        start = j + 1;
    }
    proof {
        assert(cs@.skip(cs.len() as int) =~= Seq::<char>::empty());
        assert(acc.deep_view() + Seq::<Seq<char>>::empty() =~= acc.deep_view());
    }
    Some(acc)
}

/// Reads a quoted body starting at `from`, as `parse_q` does on the
/// corresponding suffix; returns the unescaped contents and the position
/// after the closing quote.
fn scan_quoted(l: &Vec<char>, from: usize) -> (r: Option<(Vec<char>, usize)>)
    requires
        from <= l.len(),
    ensures
        match r {
            Some(p) => p.1 <= l.len() && parse_q(l@.skip(from as int)) == Some(
                (p.0@, l@.skip(p.1 as int)),
            ),
            None => parse_q(l@.skip(from as int)) is None,
        },
{
    let mut body: Vec<char> = Vec::new();
    let mut i: usize = from;
    while i < l.len()
        invariant
            from <= i <= l.len(),
            parse_q(l@.skip(from as int)) == glue_q(body@, parse_q(l@.skip(i as int))),
        decreases l.len() - i,
    {
        let ghost t = l@.skip(i as int);
        proof {
            assert(t[0] == l@[i as int]);
        }
        let c = l[i];
        if c == '"' {
            proof {
                assert(t.drop_first() =~= l@.skip(i as int + 1));
                assert(body@ + Seq::<char>::empty() =~= body@);
            }
            return Some((body, i + 1));
        } else if c == '\\' {
            if l.len() - i < 2 {
                proof {
                    assert(t.len() == 1);
                }
                return None;
            }
            proof {
                assert(t[1] == l@[i as int + 1]);
            }
            let e = l[i + 1];
            let dec: Option<char> = if e == '"' {
                Some('"')
            } else if e == '\\' {
                Some('\\')
            } else if e == 'n' {
                Some('\n')
            } else if e == 'r' {
                Some('\r')
            } else if e == 't' {
                Some('\t')
            } else {
                None
            };
            match dec {
                Some(c2) => {
                    proof {
                        assert(unesc_char(l@[i as int + 1]) == Some(c2));
                        assert(t.skip(2) =~= l@.skip(i as int + 2));
                        if parse_q(l@.skip(i as int + 2)) is Some {
                            let p = parse_q(l@.skip(i as int + 2))->0;
                            assert(body@ + (seq![c2] + p.0) =~= body@.push(c2) + p.0);
                        }
                    }
                    body.push(c2);
                    i += 2;
                }
                None => {
                    return None;
                }
            }
        } else {
            proof {
                assert(t.drop_first() =~= l@.skip(i as int + 1));
                if parse_q(l@.skip(i as int + 1)) is Some {
                    let p = parse_q(l@.skip(i as int + 1))->0;
                    assert(body@ + (seq![t[0]] + p.0) =~= body@.push(t[0]) + p.0);
                }
            }
            body.push(c);
            i += 1;
        }
    }
    proof {
        assert(l@.skip(i as int).len() == 0);
    }
    None
}

/// Whether the line starts with the given text.
fn prefix_matches(l: &Vec<char>, p: &str) -> (r: bool)
    ensures
        r == (l@.len() >= p@.len() && l@.subrange(0, p@.len() as int) == p@),
{
    let n = p.unicode_len();
    if l.len() < n {
        return false;
    }
    let mut i: usize = 0;
    while i < n
        invariant
            n == p@.len(),
            n <= l.len(),
            i <= n,
            forall|j: int| 0 <= j < i ==> l@[j] == p@[j],
        decreases n - i,
    {
        if l[i] != p.get_char(i) {
            proof {
                assert(l@.subrange(0, n as int)[i as int] != p@[i as int]);
            }
            return false;
        }
        i += 1;
    }
    proof {
        assert(l@.subrange(0, n as int) =~= p@);
    }
    true
}

/// Whether the line is exactly the given text.
fn line_is(l: &Vec<char>, p: &str) -> (r: bool)
    ensures
        r == (l@ == p@),
{
    let n = p.unicode_len();
    if l.len() != n {
        return false;
    }
    let r = prefix_matches(l, p);
    proof {
        assert(l@.subrange(0, p@.len() as int) =~= l@);
    }
    r
}

/// Reads one device line, as `parse_dev_line` does.
fn parse_device_line(l: &Vec<char>) -> (r: Option<(String, String)>)
    ensures
        match parse_dev_line(l@) {
            Some(p) => r matches Some(q) && q.0@ == p.0 && q.1@ == p.1,
            None => r is None,
        },
{
    if l.len() < 1 {
        return None;
    }
    if l[0] != '"' {
        return None;
    }
    proof {
        assert(l@.skip(1) =~= l@.drop_first());
    }
    match scan_quoted(l, 1) {
        None => None,
        Some((nb, i)) => {
            if l.len() - i < 4 {
                proof {
                    assert(l@.skip(i as int).len() < 4);
                }
                return None;
            }
            let ghost r1 = l@.skip(i as int);
            proof {
                reveal_strlit(" = \"");
                assert(sep().len() == 4);
                assert(r1.subrange(0, 4)[0] == l@[i as int]);
                assert(r1.subrange(0, 4)[1] == l@[i as int + 1]);
                assert(r1.subrange(0, 4)[2] == l@[i as int + 2]);
                assert(r1.subrange(0, 4)[3] == l@[i as int + 3]);
            }
            if !(l[i] == ' ' && l[i + 1] == '=' && l[i + 2] == ' ' && l[i + 3] == '"') {
                proof {
                    assert(r1.subrange(0, 4) != sep());
                }
                return None;
            }
            proof {
                assert(r1.subrange(0, 4) =~= sep());
                assert(r1.skip(4) =~= l@.skip(i as int + 4));
            }
            match scan_quoted(l, i + 4) {
                None => None,
                Some((ab, j)) => {
                    if j == l.len() {
                        proof {
                            assert(l@.skip(j as int).len() == 0);
                        }
                        Some((string_of_chars(&nb), string_of_chars(&ab)))
                    } else {
                        proof {
                            assert(l@.skip(j as int).len() > 0);
                        }
                        None
                    }
                }
            }
        }
    }
}

/// Reads the device lines from `from` on, as `parse_dev_lines` does.
fn parse_device_lines(lines: &Vec<Vec<char>>, from: usize) -> (r: Option<Vec<Device>>)
    requires
        from <= lines.len(),
    ensures
        match parse_dev_lines(lines.deep_view().skip(from as int)) {
            Some(pairs) => r matches Some(ds) && ds@.map_values(
                |d: Device| (d.name@, d.address@),
            ) == pairs,
            None => r is None,
        },
{
    let mut ds: Vec<Device> = Vec::new();
    let mut i: usize = from;
    while i < lines.len()
        invariant
            from <= i <= lines.len(),
            parse_dev_lines(lines.deep_view().skip(from as int)) == glue_pairs(
                ds@.map_values(|d: Device| (d.name@, d.address@)),
                parse_dev_lines(lines.deep_view().skip(i as int)),
            ),
        decreases lines.len() - i,
    {
        let ghost dv = lines.deep_view();
        proof {
            assert(dv.skip(i as int)[0] == dv[i as int]);
            assert(dv[i as int] == lines@[i as int].deep_view());
            assert(lines@[i as int].deep_view() =~= lines@[i as int]@);
        }
        let ghost pre = ds@.map_values(|d: Device| (d.name@, d.address@));
        match parse_device_line(&lines[i]) {
            None => {
                return None;
            }
            Some((n, a)) => {
                proof {
                    assert(dv.skip(i as int).drop_first() =~= dv.skip(i as int + 1));
                }
                let ghost p = parse_dev_line(dv[i as int])->0;
                ds.push(Device { name: n, address: a });
                proof {
                    assert(ds@.map_values(|d: Device| (d.name@, d.address@)) =~= pre.push(p));
                    if parse_dev_lines(dv.skip(i as int + 1)) is Some {
                        let ps = parse_dev_lines(dv.skip(i as int + 1))->0;
                        assert(pre + (seq![p] + ps) =~= pre.push(p) + ps);
                    }
                }
                i += 1;
            }
        }
    }
    proof {
        assert(lines.deep_view().skip(lines.len() as int).len() == 0);
        let pre = ds@.map_values(|d: Device| (d.name@, d.address@));
        assert(pre + Seq::<(Seq<char>, Seq<char>)>::empty() =~= pre);
    }
    Some(ds)
}

/// Whether the parsed devices carry pairwise distinct names.
fn names_distinct(ds: &Vec<Device>) -> (r: bool)
    ensures
        r == (forall|a: int, b: int|
            0 <= a < b < ds@.len() ==> (#[trigger] ds@[a]).name@ != (#[trigger] ds@[b]).name@),
{
    let mut i: usize = 0;
    while i < ds.len()
        invariant
            i <= ds.len(),
            forall|a: int, b: int|
                0 <= a < b < ds@.len() && a < i ==> (#[trigger] ds@[a]).name@ != (
                #[trigger] ds@[b]).name@,
        decreases ds.len() - i,
    {
        let mut j: usize = i + 1;
        while j < ds.len()
            invariant
                i < ds.len(),
                i < j,
                forall|b: int| i < b < j ==> (#[trigger] ds@[b]).name@ != ds@[i as int].name@,
            decreases ds.len() - j,
        {
            if str_eq(ds[i].name.as_str(), ds[j].name.as_str()) {
                return false;
            }
            j += 1;
        }
        i += 1;
    }
    true
}

/// A parsed device list is well-formed as a registry exactly when its names
/// are pairwise distinct.
proof fn lemma_wf_equiv(ds: Seq<Device>, d: Option<Seq<char>>)
    ensures
        (RegView {
            pairs: ds.map_values(|dd: Device| (dd.name@, dd.address@)),
            default_name: d,
        }).wf() <==> (forall|a: int, b: int|
            0 <= a < b < ds.len() ==> (#[trigger] ds[a]).name@ != (#[trigger] ds[b]).name@),
{
    let pairs = ds.map_values(|dd: Device| (dd.name@, dd.address@));
    let rv = RegView { pairs: pairs, default_name: d };
    assert(forall|i: int| 0 <= i < pairs.len() ==> (#[trigger] pairs[i]).0 == ds[i].name@);
    if rv.wf() {
        assert forall|a: int, b: int|
            0 <= a < b < ds.len() implies (#[trigger] ds[a]).name@ != (
        #[trigger] ds[b]).name@ by {
            assert(rv.pairs[a].0 != rv.pairs[b].0);
        }
    }
    if forall|a: int, b: int|
        0 <= a < b < ds.len() ==> (#[trigger] ds[a]).name@ != (#[trigger] ds[b]).name@ {
        assert forall|i: int, j: int|
            0 <= i < j < pairs.len() implies (#[trigger] pairs[i]).0 != (
        #[trigger] pairs[j]).0 by {
            assert(ds[i].name@ != ds[j].name@);
        }
    }
}

/// Reads a persisted document, as `spec_parse` does; `None` is a
/// structurally invalid document.
pub fn parse_config(s: &str) -> (r: Option<Config>)
    ensures
        match spec_parse(s@) {
            Some(v) => r matches Some(c) && c@ == v,
            None => r is None,
        },
{
    let cs = str_chars(s);
    let lines = match split_chars(&cs) {
        Some(l) => l,
        None => {
            return None;
        }
    };
    let ghost ls = lines.deep_view();
    proof {
        assert(ls.len() == lines@.len());
        if lines@.len() >= 1 {
            assert(ls[0] == lines@[0].deep_view());
            assert(lines@[0].deep_view() =~= lines@[0]@);
        }
        if lines@.len() >= 3 {
            assert(ls[1] == lines@[1].deep_view());
            assert(lines@[1].deep_view() =~= lines@[1]@);
            assert(ls[2] == lines@[2].deep_view());
            assert(lines@[2].deep_view() =~= lines@[2]@);
        }
    }
    if lines.len() >= 1 && line_is(&lines[0], "[devices]") {
        proof {
            assert(ls[0] == hdr_line());
            assert(spec_parse(s@) == assemble(None, parse_dev_lines(ls.skip(1))));
        }
        let ds = match parse_device_lines(&lines, 1) {
            Some(d) => d,
            None => {
                return None;
            }
        };
        let ghost dsv = ds@;
        let distinct = names_distinct(&ds);
        proof {
            lemma_wf_equiv(dsv, None);
        }
        if distinct {
            let c = Config { devices: ds, default_device: None };
            proof {
                let rv = RegView {
                    pairs: dsv.map_values(|dd: Device| (dd.name@, dd.address@)),
                    default_name: None,
                };
                assert(rv.wf());
                assert(spec_parse(s@) == Some(rv));
                assert(c@ =~= rv);
            }
            Some(c)
        } else {
            None
        }
    } else if lines.len() >= 3 && prefix_matches(&lines[0], "default_device = \"") {
        proof {
            assert(ls[0] != hdr_line()) by {
                reveal_strlit("default_device = \"");
                reveal_strlit("[devices]");
                assert(ls[0].len() >= 18);
            }
        }
        if lines[1].len() == 0 && line_is(&lines[2], "[devices]") {
            proof {
                reveal_strlit("default_device = \"");
                assert(dpre().len() == 18);
                assert(ls[1].len() == 0);
                assert(ls[2] == hdr_line());
            }
            match scan_quoted(&lines[0], 18) {
                Some((db, next)) => {
                    if next == lines[0].len() {
                        proof {
                            assert(lines@[0]@.skip(next as int).len() == 0);
                            assert(qline(ls[0].skip(18)) == Some(db@));
                        }
                        let ds = match parse_device_lines(&lines, 3) {
                            Some(d) => d,
                            None => {
                                return None;
                            }
                        };
                        let ghost dsv = ds@;
                        let distinct = names_distinct(&ds);
                        proof {
                            lemma_wf_equiv(dsv, Some(db@));
                        }
                        if distinct {
                            let c = Config {
                                devices: ds,
                                default_device: Some(string_of_chars(&db)),
                            };
                            proof {
                                let rv = RegView {
                                    pairs: dsv.map_values(|dd: Device| (dd.name@, dd.address@)),
                                    default_name: Some(db@),
                                };
                                assert(rv.wf());
                                assert(spec_parse(s@) == Some(rv));
                                assert(c@ =~= rv);
                            }
                            Some(c)
                        } else {
                            None
                        }
                    } else {
                        proof {
                            assert(lines@[0]@.skip(next as int).len() > 0);
                            assert(qline(ls[0].skip(18)) is None);
                        }
                        None
                    }
                }
                None => {
                    proof {
                        assert(qline(ls[0].skip(18)) is None);
                    }
                    None
                }
            }
        } else {
            None
        }
    } else {
        None
    }
}

} // verus!
