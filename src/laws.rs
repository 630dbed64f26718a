//! General properties of the scanner, proved over its model.
use crate::scanner::{
    initial, last_kind, lemma_without_newlines_append, outcome, run, scan, single, step,
    tokens_of, without_newlines, ScanState,
};
use crate::text::{has_no_edge_blank, lemma_trimmed_has_no_edge_blank, trimmed};
use crate::token::{BibtexError, Token, TokenName, TokenView};
use vstd::prelude::*;

verus! {

/// A character that never ends a token in the middle of an entry, whatever
/// came before it: anything but `@`, `,`, `=` and a newline.
pub open spec fn is_plain(c: char) -> bool {
    c != '@' && c != ',' && c != '=' && c != '\n'
}

/// Every character of `s` is plain.
pub open spec fn is_plain_text(s: Seq<char>) -> bool {
    forall|i: int| 0 <= i < s.len() ==> is_plain(#[trigger] s[i])
}

/// A field, as a name and a value.
pub type Field = (Seq<char>, Seq<char>);

/// A well-formed field: plain name and value, and a value that is not empty.
pub open spec fn is_field(f: Field) -> bool {
    is_plain_text(f.0) && is_plain_text(f.1) && f.1.len() > 0
}

/// The text `name=value`.
pub open spec fn field_text(f: Field) -> Seq<char> {
    f.0 + seq!['='] + f.1
}

/// The text of fields that each end in a comma.
pub open spec fn fields_text(fs: Seq<Field>) -> Seq<char>
    decreases fs.len(),
{
    if fs.len() == 0 {
        Seq::empty()
    } else {
        fields_text(fs.drop_last()) + field_text(fs.last()) + seq![',']
    }
}

/// The text of an optional final field without a comma.
pub open spec fn last_text(last: Option<Field>) -> Seq<char> {
    match last {
        Some(f) => field_text(f),
        None => Seq::empty(),
    }
}

/// The entry `@ty{key,` followed by the fields `fs`, each with its comma,
/// then the optional field `last` without one, then `}`.
pub open spec fn entry_text(
    ty: Seq<char>,
    key: Seq<char>,
    fs: Seq<Field>,
    last: Option<Field>,
) -> Seq<char> {
    seq!['@'] + ty + seq!['{'] + key + seq![','] + fields_text(fs) + last_text(last) + seq!['}']
}

/// The tokens of one field, without a comma.
pub open spec fn field_tokens(f: Field) -> Seq<TokenView> {
    seq![(TokenName::TagName, trimmed(f.0)), single(TokenName::Equal, '='), (TokenName::TagValue, trimmed(f.1))]
}

/// The tokens of fields that each end in a comma.
pub open spec fn fields_tokens(fs: Seq<Field>) -> Seq<TokenView>
    decreases fs.len(),
{
    if fs.len() == 0 {
        Seq::empty()
    } else {
        fields_tokens(fs.drop_last()) + field_tokens(fs.last()).push(single(TokenName::Comma, ','))
    }
}

/// The tokens of an optional final field without a comma.
pub open spec fn last_tokens(last: Option<Field>) -> Seq<TokenView> {
    match last {
        Some(f) => field_tokens(f),
        None => Seq::empty(),
    }
}

/// The tokens of [`entry_text`].
pub open spec fn entry_tokens(
    ty: Seq<char>,
    key: Seq<char>,
    fs: Seq<Field>,
    last: Option<Field>,
) -> Seq<TokenView> {
    seq![
        single(TokenName::InitialDelimiterType, '@'),
        (TokenName::Type, ty),
        single(TokenName::InitialDelimiterTag, '{'),
        (TokenName::CitationKey, key),
        single(TokenName::Comma, ','),
    ] + fields_tokens(fs) + last_tokens(last) + seq![single(TokenName::EndingDelimiterTag, '}')]
}

/// The kinds of a sequence of tokens.
pub open spec fn kinds(ts: Seq<TokenView>) -> Seq<TokenName> {
    ts.map_values(|t: TokenView| t.0)
}

/// The kinds of `n` fields that each end in a comma.
pub open spec fn fields_kinds(n: nat) -> Seq<TokenName>
    decreases n,
{
    if n == 0 {
        Seq::empty()
    } else {
        fields_kinds((n - 1) as nat) + seq![
            TokenName::TagName,
            TokenName::Equal,
            TokenName::TagValue,
            TokenName::Comma,
        ]
    }
}

/// The kinds of the tokens of an entry with `n` fields that end in a comma,
/// and a final field without one if `has_last`.
pub open spec fn entry_kinds(n: nat, has_last: bool) -> Seq<TokenName> {
    seq![
        TokenName::InitialDelimiterType,
        TokenName::Type,
        TokenName::InitialDelimiterTag,
        TokenName::CitationKey,
        TokenName::Comma,
    ] + fields_kinds(n) + (if has_last {
        seq![TokenName::TagName, TokenName::Equal, TokenName::TagValue]
    } else {
        Seq::empty()
    }) + seq![TokenName::EndingDelimiterTag]
}

/// A well-formed entry, without newlines, scans into its entry type, its
/// citation key and its fields, in order, with trimmed names and values;
/// the kinds of the tokens come in the order that an entry prescribes.
pub proof fn lemma_entry_round_trip(
    ty: Seq<char>,
    key: Seq<char>,
    fs: Seq<Field>,
    last: Option<Field>,
)
    requires
        is_plain_text(ty),
        !ty.contains('{'),
        is_plain_text(key),
        forall|i: int| 0 <= i < fs.len() ==> is_field(#[trigger] fs[i]),
        last matches Some(f) ==> is_field(f),
    ensures
        tokens_of(entry_text(ty, key, fs, last)) == Ok::<_, Seq<char>>(entry_tokens(ty, key, fs, last)),
        kinds(entry_tokens(ty, key, fs, last)) == entry_kinds(fs.len(), last is Some),
{
    let at = seq!['@'];
    let open = seq!['{'];
    let comma = seq![','];
    let b1 = at + ty;
    let b2 = b1 + open;
    let b3 = b2 + key;
    let b4 = b3 + comma;
    let b5 = b4 + fields_text(fs);
    let body = b5 + last_text(last);
    let text = body + seq!['}'];
    assert(entry_text(ty, key, fs, last) == text);
    // the entry holds no newline
    lemma_plain_keeps_newlines(ty);
    lemma_plain_keeps_newlines(key);
    lemma_fields_keep_newlines(fs);
    lemma_last_keeps_newlines(last);
    lemma_single_keeps_newlines('@');
    lemma_single_keeps_newlines('{');
    lemma_single_keeps_newlines(',');
    lemma_single_keeps_newlines('}');
    lemma_without_newlines_append(at, ty);
    lemma_without_newlines_append(b1, open);
    lemma_without_newlines_append(b2, key);
    lemma_without_newlines_append(b3, comma);
    lemma_without_newlines_append(b4, fields_text(fs));
    lemma_without_newlines_append(b5, last_text(last));
    lemma_without_newlines_append(body, seq!['}']);
    assert(without_newlines(text) == text);
    // the scan, piece by piece
    let s1 = run(initial(), at);
    lemma_run_one(initial(), '@');
    lemma_run_append(initial(), at, ty);
    lemma_run_plain(s1, ty);
    let s2 = run(initial(), b1);
    lemma_run_append(initial(), b1, open);
    lemma_run_one(s2, '{');
    let s3 = run(initial(), b2);
    lemma_run_append(initial(), b2, key);
    lemma_run_plain(s3, key);
    let s4 = run(initial(), b3);
    lemma_run_append(initial(), b3, comma);
    lemma_run_one(s4, ',');
    let s5 = run(initial(), b4);
    assert(last_kind(s5.0) == Some(TokenName::Comma));
    lemma_run_append(initial(), b4, fields_text(fs));
    lemma_run_fields(s5.0, fs);
    let s6 = run(initial(), b5);
    lemma_run_append(initial(), b5, last_text(last));
    assert(text.drop_last() =~= body);
    let head = seq![
        single(TokenName::InitialDelimiterType, '@'),
        (TokenName::Type, ty),
        single(TokenName::InitialDelimiterTag, '{'),
        (TokenName::CitationKey, key),
        single(TokenName::Comma, ','),
    ];
    assert(s5.0 =~= head);
    match last {
        Some(f) => {
            lemma_run_field(s6.0, f);
            assert(scan(text).0 =~= entry_tokens(ty, key, fs, last));
        },
        None => {
            assert(last_text(last) =~= Seq::<char>::empty());
            assert(scan(text).0 =~= entry_tokens(ty, key, fs, last));
        },
    }
    lemma_fields_kinds(fs);
    assert(kinds(entry_tokens(ty, key, fs, last)) =~= entry_kinds(fs.len(), last is Some));
}

/// Newlines can be inserted anywhere without changing the result.
pub proof fn lemma_newline_inserted(input: Seq<char>, i: int)
    requires
        0 <= i <= input.len(),
    ensures
        tokens_of(input.insert(i, '\n')) == tokens_of(input),
{
    let a = input.take(i);
    let b = input.skip(i);
    assert(input =~= a + b);
    assert(input.insert(i, '\n') =~= a + seq!['\n'] + b);
    lemma_without_newlines_append(a, seq!['\n']);
    lemma_without_newlines_append(a + seq!['\n'], b);
    lemma_without_newlines_append(a, b);
    let e = seq!['\n'].drop_last();
    assert(e =~= Seq::<char>::empty());
    assert(without_newlines(e) == e);
    assert(seq!['\n'].last() == '\n');
    assert(without_newlines(a) + without_newlines(seq!['\n']) =~= without_newlines(a));
}

/// Inputs that differ only in their newlines scan alike.
pub proof fn lemma_newlines_ignored(a: Seq<char>, b: Seq<char>)
    requires
        without_newlines(a) == without_newlines(b),
    ensures
        tokens_of(a) == tokens_of(b),
{
}

/// Field names and field values never begin or end with whitespace.
pub proof fn lemma_names_and_values_trimmed(input: Seq<char>)
    ensures
        tokens_of(input) matches Ok(ts) ==> forall|j: int|
            0 <= j < ts.len() && (ts[j].0 == TokenName::TagName || ts[j].0 == TokenName::TagValue)
                ==> has_no_edge_blank(#[trigger] ts[j].1),
{
    let s = without_newlines(input);
    if s.len() > 0 {
        lemma_run_keeps_trimmed(initial(), s.drop_last());
        lemma_step_keeps_trimmed(run(initial(), s.drop_last()), s.last(), true);
    }
}

/// Characters that no delimiter follows are reported as left over, after
/// whatever was pending before them, and no tokens are given.
pub proof fn lemma_leftover(prefix: Seq<char>, tail: Seq<char>)
    requires
        tail.len() > 0,
        is_plain_text(tail),
        !tail.contains('{'),
        !tail.contains('}'),
    ensures
        tokens_of(prefix + tail) == Err::<Seq<TokenView>, _>(
            run(initial(), without_newlines(prefix)).1 + tail,
        ),
{
    let p = without_newlines(prefix);
    lemma_without_newlines_append(prefix, tail);
    lemma_plain_keeps_newlines(tail);
    let s = p + tail;
    assert(s.drop_last() =~= p + tail.drop_last());
    assert(s.last() == tail.last());
    lemma_run_append(initial(), p, tail.drop_last());
    let d = tail.drop_last();
    assert forall|i: int| 0 <= i < d.len() implies is_plain(#[trigger] d[i]) by {
        assert(tail[i] == d[i]);
    }
    assert(!d.contains('{')) by {
        if d.contains('{') {
            let i = choose|i: int| 0 <= i < d.len() && d[i] == '{';
            assert(tail[i] == '{');
        }
    }
    lemma_run_plain(run(initial(), p), d);
    let c = tail.last();
    assert(tail[tail.len() - 1] == c);
    assert(is_plain(c));
    assert(c != '{' && c != '}') by {
        if c == '{' || c == '}' {
            assert(tail.contains(c));
        }
    }
    let st = run(initial(), p);
    assert(run(initial(), s.drop_last()) == (st.0, st.1 + d));
    assert(scan(s) == step((st.0, st.1 + d), c, true));
    assert((st.1 + d).push(c) =~= st.1 + tail);
    assert(scan(s) == (st.0, st.1 + tail));
    assert(without_newlines(prefix + tail) == s);
}

/// A scan depends on its input alone: two scans of one input give the same
/// result.
pub proof fn lemma_rescan_identical(
    input: Seq<char>,
    first: Result<Vec<Token>, BibtexError>,
    second: Result<Vec<Token>, BibtexError>,
)
    requires
        outcome(first) == tokens_of(input),
        outcome(second) == tokens_of(input),
    ensures
        outcome(first) == outcome(second),
{
}

// Running the model piece by piece.

proof fn lemma_run_append(st: ScanState, a: Seq<char>, b: Seq<char>)
    ensures
        run(st, a + b) == run(run(st, a), b),
    decreases b.len(),
{
    if b.len() == 0 {
        assert(a + b =~= a);
    } else {
        assert((a + b).drop_last() =~= a + b.drop_last());
        lemma_run_append(st, a, b.drop_last());
    }
}

proof fn lemma_run_one(st: ScanState, c: char)
    ensures
        run(st, seq![c]) == step(st, c, false),
{
    let e = seq![c].drop_last();
    assert(e =~= Seq::<char>::empty());
    assert(run(st, e) == st);
    assert(seq![c].last() == c);
}

proof fn lemma_run_plain(st: ScanState, cs: Seq<char>)
    requires
        forall|i: int| 0 <= i < cs.len() ==> is_plain(#[trigger] cs[i]),
        last_kind(st.0) == Some(TokenName::InitialDelimiterType) ==> !cs.contains('{'),
    ensures
        run(st, cs) == (st.0, st.1 + cs),
    decreases cs.len(),
{
    if cs.len() == 0 {
        assert(st.1 + cs =~= st.1);
    } else {
        let d = cs.drop_last();
        assert forall|i: int| 0 <= i < d.len() implies is_plain(#[trigger] d[i]) by {
            assert(d[i] == cs[i]);
        }
        if last_kind(st.0) == Some(TokenName::InitialDelimiterType) {
            assert forall|c: char| d.contains(c) implies cs.contains(c) by {
                let i = choose|i: int| 0 <= i < d.len() && d[i] == c;
                assert(cs[i] == c);
            }
            assert(cs[cs.len() - 1] == cs.last());
        }
        lemma_run_plain(st, d);
        assert(is_plain(cs[cs.len() - 1]));
        assert(st.1 + d + seq![cs.last()] =~= st.1 + cs);
    }
}

proof fn lemma_run_field(ts: Seq<TokenView>, f: Field)
    requires
        is_field(f),
        last_kind(ts) == Some(TokenName::Comma),
    ensures
        run((ts, Seq::empty()), field_text(f)) == (
            ts.push((TokenName::TagName, trimmed(f.0))).push(single(TokenName::Equal, '=')),
            f.1,
        ),
{
    let st = (ts, Seq::<char>::empty());
    let a = f.0 + seq!['='];
    lemma_run_append(st, f.0, seq!['=']);
    lemma_run_plain(st, f.0);
    assert(Seq::<char>::empty() + f.0 =~= f.0);
    lemma_run_one((ts, f.0), '=');
    let st2 = run(st, a);
    lemma_run_append(st, a, f.1);
    lemma_run_plain(st2, f.1);
    assert(Seq::<char>::empty() + f.1 =~= f.1);
}

proof fn lemma_run_fields(ts: Seq<TokenView>, fs: Seq<Field>)
    requires
        forall|i: int| 0 <= i < fs.len() ==> is_field(#[trigger] fs[i]),
        last_kind(ts) == Some(TokenName::Comma),
    ensures
        run((ts, Seq::empty()), fields_text(fs)) == (ts + fields_tokens(fs), Seq::<char>::empty()),
        last_kind(ts + fields_tokens(fs)) == Some(TokenName::Comma),
    decreases fs.len(),
{
    let st = (ts, Seq::<char>::empty());
    if fs.len() == 0 {
        assert(ts + fields_tokens(fs) =~= ts);
    } else {
        let d = fs.drop_last();
        let f = fs.last();
        assert forall|i: int| 0 <= i < d.len() implies is_field(#[trigger] d[i]) by {
            assert(d[i] == fs[i]);
        }
        assert(is_field(fs[fs.len() - 1]));
        lemma_run_fields(ts, d);
        let mid = ts + fields_tokens(d);
        lemma_run_append(st, fields_text(d), field_text(f));
        lemma_run_field(mid, f);
        lemma_run_append(st, fields_text(d) + field_text(f), seq![',']);
        let st3 = run(st, fields_text(d) + field_text(f));
        lemma_run_one(st3, ',');
        assert(ts + fields_tokens(fs) =~= mid.push((TokenName::TagName, trimmed(f.0))).push(
            single(TokenName::Equal, '='),
        ).push((TokenName::TagValue, trimmed(f.1))).push(single(TokenName::Comma, ',')));
    }
}

proof fn lemma_fields_kinds(fs: Seq<Field>)
    ensures
        kinds(fields_tokens(fs)) == fields_kinds(fs.len()),
    decreases fs.len(),
{
    if fs.len() == 0 {
        assert(kinds(fields_tokens(fs)) =~= fields_kinds(0));
    } else {
        lemma_fields_kinds(fs.drop_last());
        assert(kinds(fields_tokens(fs)) =~= fields_kinds(fs.len()));
    }
}

// Texts without newlines.

proof fn lemma_no_newline_kept(s: Seq<char>)
    requires
        !s.contains('\n'),
    ensures
        without_newlines(s) == s,
    decreases s.len(),
{
    if s.len() > 0 {
        let d = s.drop_last();
        assert forall|c: char| d.contains(c) implies s.contains(c) by {
            let i = choose|i: int| 0 <= i < d.len() && d[i] == c;
            assert(s[i] == c);
        }
        lemma_no_newline_kept(d);
        assert(s[s.len() - 1] == s.last());
        assert(d.push(s.last()) =~= s);
    }
}

proof fn lemma_plain_keeps_newlines(s: Seq<char>)
    requires
        is_plain_text(s),
    ensures
        without_newlines(s) == s,
{
    assert(!s.contains('\n'));
    lemma_no_newline_kept(s);
}

proof fn lemma_single_keeps_newlines(c: char)
    requires
        c != '\n',
    ensures
        without_newlines(seq![c]) == seq![c],
{
    let e = seq![c].drop_last();
    assert(e =~= Seq::<char>::empty());
    assert(without_newlines(e) == e);
    assert(seq![c].last() == c);
    assert(e.push(c) =~= seq![c]);
}

proof fn lemma_field_keeps_newlines(f: Field)
    requires
        is_field(f),
    ensures
        without_newlines(field_text(f)) == field_text(f),
{
    lemma_plain_keeps_newlines(f.0);
    lemma_plain_keeps_newlines(f.1);
    lemma_single_keeps_newlines('=');
    lemma_without_newlines_append(f.0, seq!['=']);
    lemma_without_newlines_append(f.0 + seq!['='], f.1);
}

proof fn lemma_fields_keep_newlines(fs: Seq<Field>)
    requires
        forall|i: int| 0 <= i < fs.len() ==> is_field(#[trigger] fs[i]),
    ensures
        without_newlines(fields_text(fs)) == fields_text(fs),
    decreases fs.len(),
{
    if fs.len() > 0 {
        let d = fs.drop_last();
        assert forall|i: int| 0 <= i < d.len() implies is_field(#[trigger] d[i]) by {
            assert(d[i] == fs[i]);
        }
        assert(is_field(fs[fs.len() - 1]));
        lemma_fields_keep_newlines(d);
        lemma_field_keeps_newlines(fs.last());
        lemma_single_keeps_newlines(',');
        lemma_without_newlines_append(fields_text(d), field_text(fs.last()));
        lemma_without_newlines_append(fields_text(d) + field_text(fs.last()), seq![',']);
    }
}

proof fn lemma_last_keeps_newlines(last: Option<Field>)
    requires
        last matches Some(f) ==> is_field(f),
    ensures
        without_newlines(last_text(last)) == last_text(last),
{
    match last {
        Some(f) => lemma_field_keeps_newlines(f),
        None => {},
    }
}

// Trimmed names and values.

/// Every field name and field value of `ts` is trimmed.
spec fn names_and_values_trimmed(ts: Seq<TokenView>) -> bool {
    forall|j: int|
        0 <= j < ts.len() && (ts[j].0 == TokenName::TagName || ts[j].0 == TokenName::TagValue)
            ==> has_no_edge_blank(#[trigger] ts[j].1)
}

proof fn lemma_step_keeps_trimmed(st: ScanState, c: char, at_end: bool)
    requires
        names_and_values_trimmed(st.0),
    ensures
        names_and_values_trimmed(step(st, c, at_end).0),
{
    lemma_trimmed_has_no_edge_blank(st.1);
}

proof fn lemma_run_keeps_trimmed(st: ScanState, cs: Seq<char>)
    requires
        names_and_values_trimmed(st.0),
    ensures
        names_and_values_trimmed(run(st, cs).0),
    decreases cs.len(),
{
    if cs.len() > 0 {
        lemma_run_keeps_trimmed(st, cs.drop_last());
        lemma_step_keeps_trimmed(run(st, cs.drop_last()), cs.last(), false);
    }
}

} // verus!
