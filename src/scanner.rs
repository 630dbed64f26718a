//! The scanner: a character-level model of it, and [`tokenize`], which is
//! proved to compute what the model gives.
//!
//! Newlines are skipped everywhere, so the model runs on the input with its
//! newlines removed. Every other character is taken by [`step`], which only
//! looks at the kind of the last emitted token and at whether the character
//! is the last one of the input.
use crate::text::{trim_blanks, trimmed};
use crate::token::{string_of, views, BibtexError, Token, TokenName, TokenView};
use vstd::prelude::*;

verus! {

/// What the scanner holds between two characters: the tokens emitted so far
/// and the characters not yet classified (the buffer).
pub type ScanState = (Seq<TokenView>, Seq<char>);

/// `s` with every newline removed.
pub open spec fn without_newlines(s: Seq<char>) -> Seq<char>
    decreases s.len(),
{
    if s.len() == 0 {
        s
    } else if s.last() == '\n' {
        without_newlines(s.drop_last())
    } else {
        without_newlines(s.drop_last()).push(s.last())
    }
}

/// The kind of the last token of `ts`, if there is one.
pub open spec fn last_kind(ts: Seq<TokenView>) -> Option<TokenName> {
    if ts.len() == 0 {
        None
    } else {
        Some(ts.last().0)
    }
}

/// A token made of one delimiter character.
pub open spec fn single(name: TokenName, c: char) -> TokenView {
    (name, seq![c])
}

/// The scanner's reaction to one character other than a newline; `at_end`
/// says that no other character but newlines follows it.
///
/// A `}` closes the entry only as the last such character: anywhere else it
/// is part of a value.
pub open spec fn step(st: ScanState, c: char, at_end: bool) -> ScanState {
    let ts = st.0;
    let buf = st.1;
    if c == '@' {
        (ts.push(single(TokenName::InitialDelimiterType, '@')), buf)
    } else if c == '{' && last_kind(ts) == Some(TokenName::InitialDelimiterType) {
        (
            ts.push((TokenName::Type, buf)).push(single(TokenName::InitialDelimiterTag, '{')),
            Seq::empty(),
        )
    } else if c == ',' && last_kind(ts) == Some(TokenName::InitialDelimiterTag) {
        (ts.push((TokenName::CitationKey, buf)).push(single(TokenName::Comma, ',')), Seq::empty())
    } else if c == '=' {
        (ts.push((TokenName::TagName, trimmed(buf))).push(single(TokenName::Equal, '=')), Seq::empty())
    } else if c == ',' {
        (ts.push((TokenName::TagValue, trimmed(buf))).push(single(TokenName::Comma, ',')), Seq::empty())
    } else if c == '}' && at_end {
        let closed = if buf.len() > 0 {
            ts.push((TokenName::TagValue, trimmed(buf)))
        } else {
            ts
        };
        (closed.push(single(TokenName::EndingDelimiterTag, '}')), Seq::empty())
    } else {
        (ts, buf.push(c))
    }
}

/// The state after the characters `cs`, none of them the last of the input,
/// starting from `st`.
pub open spec fn run(st: ScanState, cs: Seq<char>) -> ScanState
    decreases cs.len(),
{
    if cs.len() == 0 {
        st
    } else {
        step(run(st, cs.drop_last()), cs.last(), false)
    }
}

/// The state before any character.
pub open spec fn initial() -> ScanState {
    (Seq::empty(), Seq::empty())
}

/// The state after all of `s`, a sequence without newlines.
pub open spec fn scan(s: Seq<char>) -> ScanState {
    if s.len() == 0 {
        initial()
    } else {
        step(run(initial(), s.drop_last()), s.last(), true)
    }
}

/// What scanning `input` gives: the tokens, or the characters left in the
/// buffer when the input ended.
pub open spec fn tokens_of(input: Seq<char>) -> Result<Seq<TokenView>, Seq<char>> {
    let st = scan(without_newlines(input));
    if st.1.len() == 0 {
        Ok(st.0)
    } else {
        Err(st.1)
    }
}

/// The model of a result of [`tokenize`].
pub open spec fn outcome(r: Result<Vec<Token>, BibtexError>) -> Result<Seq<TokenView>, Seq<char>> {
    match r {
        Ok(ts) => Ok(views(ts@)),
        Err(BibtexError::LeftOver(w)) => Err(w@),
    }
}

/// Removing newlines commutes with concatenation.
pub proof fn lemma_without_newlines_append(a: Seq<char>, b: Seq<char>)
    ensures
        without_newlines(a + b) == without_newlines(a) + without_newlines(b),
    decreases b.len(),
{
    if b.len() == 0 {
        assert(a + b =~= a);
        assert(without_newlines(a) + without_newlines(b) =~= without_newlines(a));
    } else {
        assert((a + b).drop_last() =~= a + b.drop_last());
        lemma_without_newlines_append(a, b.drop_last());
        if b.last() != '\n' {
            assert(without_newlines(a) + without_newlines(b) =~= (without_newlines(a)
                + without_newlines(b.drop_last())).push(b.last()));
        }
    }
}

/// The characters of `input`.
fn chars_of(input: &str) -> (r: Vec<char>)
    ensures
        r@ == input@,
{
    broadcast use vstd::string::axiom_spec_iter;

    let mut out: Vec<char> = Vec::new();
    for c in it: input.chars()
        invariant
            out@ == it.seq().take(it.index() as int),
    {
        out.push(c);
    }
    out
}

/// A token of kind `name` with the characters `cs`.
fn make_token(name: TokenName, cs: &Vec<char>) -> (t: Token)
    ensures
        t@ == (name, cs@),
{
    Token { name, value: string_of(cs) }
}

/// Appends `t` to `res`.
fn push_token(res: &mut Vec<Token>, t: Token)
    ensures
        views(final(res)@) == views(old(res)@).push(t@),
{
    let ghost v = t@;
    res.push(t);
    assert(views(res@) =~= views(old(res)@).push(v));
}

/// Appends a token of kind `name` made of the delimiter `c`.
fn push_delimiter(res: &mut Vec<Token>, name: TokenName, c: char)
    ensures
        views(final(res)@) == views(old(res)@).push(single(name, c)),
{
    let cs = vec![c];
    assert(cs@ =~= seq![c]);
    push_token(res, make_token(name, &cs));
}

/// The kind of the last token of `res`.
fn last_name(res: &Vec<Token>) -> (r: Option<TokenName>)
    ensures
        r == last_kind(views(res@)),
{
    if res.len() == 0 {
        None
    } else {
        Some(res[res.len() - 1].name)
    }
}

/// Takes one character other than a newline, as [`step`] says.
fn take_char(res: &mut Vec<Token>, buf: &mut Vec<char>, c: char, at_end: bool)
    ensures
        (views(final(res)@), final(buf)@) == step((views(old(res)@), old(buf)@), c, at_end),
{
    let last = last_name(res);
    if c == '@' {
        push_delimiter(res, TokenName::InitialDelimiterType, c);
    } else if c == '{' && last == Some(TokenName::InitialDelimiterType) {
        push_token(res, make_token(TokenName::Type, buf));
        push_delimiter(res, TokenName::InitialDelimiterTag, c);
        *buf = Vec::new();
    } else if c == ',' && last == Some(TokenName::InitialDelimiterTag) {
        push_token(res, make_token(TokenName::CitationKey, buf));
        push_delimiter(res, TokenName::Comma, c);
        *buf = Vec::new();
    } else if c == '=' {
        push_token(res, make_token(TokenName::TagName, &trim_blanks(buf)));
        push_delimiter(res, TokenName::Equal, c);
        *buf = Vec::new();
    } else if c == ',' {
        push_token(res, make_token(TokenName::TagValue, &trim_blanks(buf)));
        push_delimiter(res, TokenName::Comma, c);
        *buf = Vec::new();
    } else if c == '}' && at_end {
        if buf.len() > 0 {
            push_token(res, make_token(TokenName::TagValue, &trim_blanks(buf)));
        }
        push_delimiter(res, TokenName::EndingDelimiterTag, c);
        *buf = Vec::new();
    } else {
        buf.push(c);
    }
}

/// Scans one BibTeX entry into tokens.
///
/// Newlines are skipped. `@` always gives an `InitialDelimiterType` token. `{`
/// right after that token ends the entry type; `,` right after the opening
/// `{` ends the citation key; `=` ends a field name; any other `,` ends a
/// field value; a `}` that only newlines follow closes the entry, ending a
/// pending value first. Every other character is kept for the next token.
/// Field names and values lose their surrounding whitespace; the entry type
/// and the citation key are kept as they are.
///
/// If characters are still pending when the input ends, the result is
/// `BibtexError::LeftOver` with those characters, and no tokens.
pub fn tokenize(i: &str) -> (r: Result<Vec<Token>, BibtexError>)
    ensures
        outcome(r) == tokens_of(i@),
{
    let cs = chars_of(i);
    let n = cs.len();
    let mut total: usize = 0;
    let mut j: usize = 0;
    while j < n
        invariant
            j <= n == cs@.len(),
            total <= j,
            total == without_newlines(cs@.take(j as int)).len(),
        decreases n - j,
    {
        assert(cs@.take(j + 1).drop_last() =~= cs@.take(j as int));
        if cs[j] != '\n' {
            total = total + 1;
        }
        j = j + 1;
    }
    assert(cs@.take(n as int) =~= cs@);
    let ghost s = without_newlines(cs@);
    let mut res: Vec<Token> = Vec::new();
    let mut buf: Vec<char> = Vec::new();
    let mut k: usize = 0;
    let mut idx: usize = 0;
    assert(cs@.take(0) =~= Seq::<char>::empty());
    assert(s.take(0) =~= Seq::<char>::empty());
    assert(views(res@) =~= Seq::<TokenView>::empty());
    while idx < n
        invariant
            idx <= n == cs@.len(),
            s == without_newlines(cs@),
            total == s.len(),
            k <= total,
            without_newlines(cs@.take(idx as int)) == s.take(k as int),
            k < total ==> (views(res@), buf@) == run(initial(), s.take(k as int)),
            k == total ==> (views(res@), buf@) == scan(s),
        decreases n - idx,
    {
        let c = cs[idx];
        proof {
            let pre = cs@.take(idx + 1);
            assert(pre.drop_last() =~= cs@.take(idx as int));
            assert(cs@ =~= pre + cs@.skip(idx + 1));
            lemma_without_newlines_append(pre, cs@.skip(idx + 1));
            assert(without_newlines(pre) =~= s.take(without_newlines(pre).len() as int));
        }
        if c != '\n' {
            let at_end = k + 1 == total;
            proof {
                assert(s.take(k + 1).drop_last() =~= s.take(k as int));
                assert(s.take(k + 1).last() == c);
                if at_end {
                    assert(s.drop_last() =~= s.take(k as int));
                }
            }
            take_char(&mut res, &mut buf, c, at_end);
            k = k + 1;
        }
        idx = idx + 1;
    }
    if buf.len() > 0 {
        Err(BibtexError::LeftOver(string_of(&buf)))
    } else {
        Ok(res)
    }
}

} // verus!
