//! `HYPERLINK` complex-field instruction parsing (OOXML §17.16.5.25).
//!
//! Parses the instruction string carried by `<w:instrText>` into the URL,
//! anchor and tooltip the field describes. Non-`HYPERLINK` instructions
//! yield `None`.

use vstd::prelude::*;

use crate::events::opt_string_chars;
use crate::text::{chars_eq_ignore_ascii_case, chars_of, is_whitespace, spec_eq_ignore_ascii_case,
    spec_is_whitespace, string_from_chars};

verus! {

/// Parsed arguments from a `HYPERLINK` field instruction.
#[derive(Debug, Default, PartialEq, Eq)]
pub struct HyperlinkFieldArgs {
    /// External URL — the first positional argument after `HYPERLINK`.
    pub url: Option<String>,
    /// Bookmark / fragment anchor — the argument to `\l "..."`.
    pub anchor: Option<String>,
    /// Tooltip text — the argument to `\o "..."`.
    pub tooltip: Option<String>,
}

/// Tokenizer state: finished tokens, the token being built, and whether a
/// quoted span is open.
pub struct TokState {
    pub tokens: Seq<Seq<char>>,
    pub current: Seq<char>,
    pub in_quotes: bool,
}

/// One character of tokenization.
pub open spec fn tok_step(st: TokState, c: char) -> TokState {
    if st.in_quotes {
        if c == '"' {
            TokState { tokens: st.tokens.push(st.current), current: seq![], in_quotes: false }
        } else {
            TokState { current: st.current.push(c), ..st }
        }
    } else if c == '"' {
        TokState {
            tokens: if st.current.len() > 0 { st.tokens.push(st.current) } else { st.tokens },
            current: seq![],
            in_quotes: true,
        }
    } else if spec_is_whitespace(c) {
        TokState {
            tokens: if st.current.len() > 0 { st.tokens.push(st.current) } else { st.tokens },
            current: seq![],
            in_quotes: false,
        }
    } else {
        TokState { current: st.current.push(c), ..st }
    }
}

/// Tokenizer state after reading all of `s`.
pub open spec fn tok_run(s: Seq<char>) -> TokState
    decreases s.len(),
{
    if s.len() == 0 {
        TokState { tokens: seq![], current: seq![], in_quotes: false }
    } else {
        tok_step(tok_run(s.drop_last()), s.last())
    }
}

/// The tokens of a field instruction: whitespace separates tokens, a quoted
/// span is one token without its quotes, an unterminated quote keeps what it
/// collected.
pub open spec fn spec_tokenize(s: Seq<char>) -> Seq<Seq<char>> {
    let st = tok_run(s);
    if st.current.len() > 0 { st.tokens.push(st.current) } else { st.tokens }
}

/// Splits a field instruction into tokens.
pub fn tokenize_field_instruction(instr: &str) -> (r: Vec<String>)
    ensures
        r@.len() == spec_tokenize(instr@).len(),
        forall|i: int| 0 <= i < r@.len() ==> (#[trigger] r@[i])@ == spec_tokenize(instr@)[i],
{
    let toks = tokenize_chars(instr);
    let mut out: Vec<String> = Vec::new();
    let mut i: usize = 0;
    while i < toks.len()
        invariant
            i <= toks@.len(),
            toks@.len() == spec_tokenize(instr@).len(),
            forall|k: int| 0 <= k < toks@.len() ==> (#[trigger] toks@[k])@ == spec_tokenize(instr@)[k],
            out@.len() == i,
            forall|k: int| 0 <= k < i ==> (#[trigger] out@[k])@ == spec_tokenize(instr@)[k],
        decreases toks@.len() - i,
    {
        out.push(string_from_chars(toks[i].as_slice()));
        i = i + 1;
    }
    out
}

fn tokenize_chars(instr: &str) -> (r: Vec<Vec<char>>)
    ensures
        r@.len() == spec_tokenize(instr@).len(),
        forall|i: int| 0 <= i < r@.len() ==> (#[trigger] r@[i])@ == spec_tokenize(instr@)[i],
{
    let cs = chars_of(instr);
    let mut tokens: Vec<Vec<char>> = Vec::new();
    let mut current: Vec<char> = Vec::new();
    let mut in_quotes = false;
    let mut i: usize = 0;
    while i < cs.len()
        invariant
            cs@ == instr@,
            i <= cs@.len(),
            tok_run(cs@.take(i as int)).tokens.len() == tokens@.len(),
            forall|k: int| 0 <= k < tokens@.len() ==> (#[trigger] tokens@[k])@ == tok_run(cs@.take(i as int)).tokens[k],
            tok_run(cs@.take(i as int)).current == current@,
            tok_run(cs@.take(i as int)).in_quotes == in_quotes,
        decreases cs@.len() - i,
    {
        let c = cs[i];
        assert(cs@.take(i + 1).drop_last() =~= cs@.take(i as int));
        let ghost before = tokens@;
        if in_quotes {
            if c == '"' {
                in_quotes = false;
                tokens.push(current);
                current = Vec::new();
            } else {
                current.push(c);
            }
        } else if c == '"' {
            if current.len() > 0 {
                tokens.push(current);
                current = Vec::new();
            }
            in_quotes = true;
        } else if is_whitespace(c) {
            if current.len() > 0 {
                tokens.push(current);
                current = Vec::new();
            }
        } else {
            current.push(c);
        }
        assert(current@ =~= tok_run(cs@.take(i + 1)).current);
        i = i + 1;
    }
    assert(cs@.take(cs@.len() as int) =~= cs@);
    if current.len() > 0 {
        tokens.push(current);
    }
    tokens
}

/// Argument collection over the tokens after the command name.
pub open spec fn spec_collect_args(toks: Seq<Seq<char>>, i: int, url: Option<Seq<char>>,
    anchor: Option<Seq<char>>, tooltip: Option<Seq<char>>) -> (Option<Seq<char>>, Option<Seq<char>>, Option<Seq<char>>)
    decreases toks.len() + 2 - i,
{
    if i >= toks.len() || i < 0 {
        (url, anchor, tooltip)
    } else {
        let tok = toks[i];
        let next = if i + 1 < toks.len() { Some(toks[i + 1]) } else { None };
        if tok.len() > 0 && tok[0] == '\\' {
            let sw = tok.drop_first();
            if sw == seq!['l'] {
                spec_collect_args(toks, i + 2, url, next, tooltip)
            } else if sw == seq!['o'] {
                spec_collect_args(toks, i + 2, url, anchor, next)
            } else if sw == seq!['t'] {
                spec_collect_args(toks, i + 2, url, anchor, tooltip)
            } else {
                spec_collect_args(toks, i + 1, url, anchor, tooltip)
            }
        } else if url is None {
            spec_collect_args(toks, i + 1, Some(tok), anchor, tooltip)
        } else {
            spec_collect_args(toks, i + 1, url, anchor, tooltip)
        }
    }
}

/// The `HYPERLINK` arguments of an instruction, if it is one.
pub open spec fn spec_parse_hyperlink_instruction(s: Seq<char>)
    -> Option<(Option<Seq<char>>, Option<Seq<char>>, Option<Seq<char>>)> {
    let toks = spec_tokenize(s);
    if toks.len() == 0 || !spec_eq_ignore_ascii_case(toks[0], "HYPERLINK"@) {
        None
    } else {
        Some(spec_collect_args(toks, 1, None, None, None))
    }
}

/// The view of parsed arguments.
pub open spec fn args_view(a: HyperlinkFieldArgs) -> (Option<Seq<char>>, Option<Seq<char>>, Option<Seq<char>>) {
    (opt_string_chars(a.url), opt_string_chars(a.anchor), opt_string_chars(a.tooltip))
}

fn opt_string(v: Option<&Vec<char>>) -> (r: Option<String>)
    ensures
        opt_string_chars(r) == match v { Some(x) => Some(x@), None => None::<Seq<char>> },
{
    match v {
        Some(x) => Some(string_from_chars(x.as_slice())),
        None => None,
    }
}

spec fn ov(o: Option<&Vec<char>>) -> Option<Seq<char>> {
    match o {
        Some(x) => Some(x@),
        None => None,
    }
}

/// Parses a field instruction string and returns `Some` if it is a well-formed
/// `HYPERLINK` field, `None` otherwise. Recognized switches: `\l` (anchor),
/// `\o` (tooltip), `\t` (frame, discarded); other switches take no argument.
pub fn parse_hyperlink_instruction(instr: &str) -> (r: Option<HyperlinkFieldArgs>)
    ensures
        match spec_parse_hyperlink_instruction(instr@) {
            None => r is None,
            Some(v) => r is Some && args_view(r->0) == v,
        },
{
    let toks = tokenize_chars(instr);
    let ghost st = spec_tokenize(instr@);
    assert(toks@.len() == st.len());
    if toks.len() == 0 {
        return None;
    }
    let cmd = chars_of("HYPERLINK");
    if !chars_eq_ignore_ascii_case(toks[0].as_slice(), cmd.as_slice()) {
        return None;
    }
    let mut url: Option<&Vec<char>> = None;
    let mut anchor: Option<&Vec<char>> = None;
    let mut tooltip: Option<&Vec<char>> = None;
    let mut i: usize = 1;
    while i < toks.len()
        invariant
            1 <= i,
            toks@.len() == st.len(),
            forall|k: int| 0 <= k < toks@.len() ==> (#[trigger] toks@[k])@ == st[k],
            st == spec_tokenize(instr@),
            spec_collect_args(st, i as int, ov(url), ov(anchor), ov(tooltip))
                == spec_collect_args(st, 1, None, None, None),
        decreases toks@.len() - i,
    {
        let tok = &toks[i];
        assert(tok@ == st[i as int]);
        let ghost i0 = i as int;
        let next: Option<&Vec<char>> = if i + 1 < toks.len() { Some(&toks[i + 1]) } else { None };
        proof {
            if i + 1 < toks@.len() {
                assert(toks@[i + 1]@ == st[i + 1]);
            }
        }
        assert(ov(next) == (if i + 1 < st.len() { Some(st[i + 1]) } else { None::<Seq<char>> }));
        if tok.len() > 0 && tok[0] == '\\' {
            let ghost sw = tok@.drop_first();
            if tok.len() == 2 && tok[1] == 'l' {
                assert(sw =~= seq!['l']);
                anchor = next;
                i = if i + 1 < toks.len() { i + 2 } else { toks.len() };
                assert(spec_collect_args(st, i0 + 2, ov(url), ov(anchor), ov(tooltip))
                    == spec_collect_args(st, i as int, ov(url), ov(anchor), ov(tooltip)));
            } else if tok.len() == 2 && tok[1] == 'o' {
                assert(sw =~= seq!['o']);
                assert(sw[0] == 'o' && seq!['l'][0] == 'l');
                tooltip = next;
                i = if i + 1 < toks.len() { i + 2 } else { toks.len() };
                assert(spec_collect_args(st, i0 + 2, ov(url), ov(anchor), ov(tooltip))
                    == spec_collect_args(st, i as int, ov(url), ov(anchor), ov(tooltip)));
            } else if tok.len() == 2 && tok[1] == 't' {
                assert(sw =~= seq!['t']);
                assert(sw[0] == 't' && seq!['l'][0] == 'l' && seq!['o'][0] == 'o');
                i = if i + 1 < toks.len() { i + 2 } else { toks.len() };
                assert(spec_collect_args(st, i0 + 2, ov(url), ov(anchor), ov(tooltip))
                    == spec_collect_args(st, i as int, ov(url), ov(anchor), ov(tooltip)));
            } else {
                assert(sw != seq!['l'] && sw != seq!['o'] && sw != seq!['t']) by {
                    assert(seq!['l'][0] == 'l' && seq!['o'][0] == 'o' && seq!['t'][0] == 't');
                    assert(seq!['l'].len() == 1);
                    if sw.len() == 1 {
                        assert(sw[0] == tok@[1]);
                    }
                }
                i = i + 1;
            }
        } else {
            if url.is_none() {
                url = Some(tok);
            }
            i = i + 1;
        }
    }
    Some(HyperlinkFieldArgs { url: opt_string(url), anchor: opt_string(anchor), tooltip: opt_string(tooltip) })
}

/// The link of a field: its URL, else `#` and its anchor.
pub open spec fn spec_resolve_field_href(url: Option<Seq<char>>, anchor: Option<Seq<char>>) -> Option<Seq<char>> {
    match url {
        Some(u) => Some(u),
        None => match anchor {
            Some(a) => if a.len() > 0 { Some(seq!['#'] + a) } else { None },
            None => None,
        },
    }
}

/// Resolves the effective `href` for a parsed `HYPERLINK` field: the URL when
/// present, otherwise `#anchor` for a non-empty anchor.
pub fn resolve_field_href(args: &HyperlinkFieldArgs) -> (r: Option<String>)
    ensures
        opt_string_chars(r) == spec_resolve_field_href(opt_string_chars(args.url), opt_string_chars(args.anchor)),
{
    match &args.url {
        Some(u) => Some(u.clone()),
        None => match &args.anchor {
            Some(a) => if !a.as_str().is_empty() {
                proof { reveal_strlit("#"); }
                let mut h = String::from_str("#");
                h.append(a.as_str());
                Some(h)
            } else {
                None
            },
            None => None,
        },
    }
}

} // verus!
