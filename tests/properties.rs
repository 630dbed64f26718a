use bibtex_tokenizer::{tokenize, BibtexError, Token, TokenName};

fn tok(name: TokenName, value: &str) -> Token {
    Token {
        name,
        value: value.to_string(),
    }
}

fn left_over(r: Result<Vec<Token>, BibtexError>) -> String {
    match r {
        Err(BibtexError::LeftOver(w)) => w,
        Ok(ts) => panic!("expected left-over content, got {:?}", ts),
    }
}

#[test]
fn kinds_follow_entry_order() {
    let ts = tokenize("@book{k, a = 1, b = {x}, c = \"y\"}").unwrap();
    let kinds: Vec<TokenName> = ts.iter().map(|t| t.name).collect();
    assert_eq!(
        kinds,
        vec![
            TokenName::InitialDelimiterType,
            TokenName::Type,
            TokenName::InitialDelimiterTag,
            TokenName::CitationKey,
            TokenName::Comma,
            TokenName::TagName,
            TokenName::Equal,
            TokenName::TagValue,
            TokenName::Comma,
            TokenName::TagName,
            TokenName::Equal,
            TokenName::TagValue,
            TokenName::Comma,
            TokenName::TagName,
            TokenName::Equal,
            TokenName::TagValue,
            TokenName::EndingDelimiterTag,
        ]
    );
    assert_eq!(ts[1], tok(TokenName::Type, "book"));
    assert_eq!(ts[15], tok(TokenName::TagValue, "\"y\""));
}

#[test]
fn newlines_change_nothing() {
    let plain = tokenize("@article{k,a=1,b={x},}").unwrap();
    let spread = tokenize("\n@art\nicle{k,\na=\n1,\nb={\nx},\n}\n\n").unwrap();
    assert_eq!(plain, spread);
    assert_eq!(plain.len(), 14);
}

#[test]
fn names_and_values_are_trimmed_key_is_not() {
    let ts = tokenize("@article{ k ,\t Title\t =  \"x\" \t,}").unwrap();
    assert_eq!(ts[3], tok(TokenName::CitationKey, " k "));
    assert_eq!(ts[5], tok(TokenName::TagName, "Title"));
    assert_eq!(ts[7], tok(TokenName::TagValue, "\"x\""));
}

#[test]
fn unicode_whitespace_is_trimmed() {
    let ts = tokenize("@a{k,\u{3000}n\u{a0}=\r\u{2009}v w\u{85},}").unwrap();
    assert_eq!(ts[5], tok(TokenName::TagName, "n"));
    assert_eq!(ts[7], tok(TokenName::TagValue, "v w"));
}

#[test]
fn brace_value_passes_through() {
    let ts = tokenize("@article{k, Title = {{Bib}\\TeX},}").unwrap();
    assert_eq!(ts[7], tok(TokenName::TagValue, "{{Bib}\\TeX}"));
    assert_eq!(ts.len(), 10);
}

#[test]
fn bare_numeric_value() {
    let ts = tokenize("@article{k, Title = 1000,}").unwrap();
    assert_eq!(ts.len(), 10);
    assert_eq!(ts[5], tok(TokenName::TagName, "Title"));
    assert_eq!(ts[6], tok(TokenName::Equal, "="));
    assert_eq!(ts[7], tok(TokenName::TagValue, "1000"));
    assert_eq!(ts[8], tok(TokenName::Comma, ","));
}

#[test]
fn concatenation_is_one_value() {
    let ts = tokenize("@article{k, publisher = \"nob\" # \"ody\",}").unwrap();
    assert_eq!(ts[7], tok(TokenName::TagValue, "\"nob\" # \"ody\""));
    assert_eq!(ts[8], tok(TokenName::Comma, ","));
}

#[test]
fn final_field_without_comma() {
    let ts = tokenize("@article{mrx05, Title = \"1000\"\n}").unwrap();
    assert_eq!(ts.len(), 9);
    assert_eq!(ts[7], tok(TokenName::TagValue, "\"1000\""));
    assert_eq!(ts[8], tok(TokenName::EndingDelimiterTag, "}"));
}

#[test]
fn unterminated_value_is_left_over() {
    assert_eq!(left_over(tokenize("@article{k, a = 1")), " 1");
}

#[test]
fn brace_not_last_is_left_over() {
    assert_eq!(left_over(tokenize("@article{k, a = 1,} x")), "} x");
    assert_eq!(left_over(tokenize("@a{k,}  ")), "}  ");
}

#[test]
fn trailing_newlines_after_close_are_fine() {
    let ts = tokenize("@a{k,}\n\n").unwrap();
    assert_eq!(ts.len(), 6);
    assert_eq!(ts[5], tok(TokenName::EndingDelimiterTag, "}"));
}

#[test]
fn rescan_gives_the_same_tokens() {
    let input = "@misc{z, t = {a b}, n = 3}";
    assert_eq!(tokenize(input).unwrap(), tokenize(input).unwrap());
    let bad = "@misc{z, t = 3";
    assert_eq!(tokenize(bad).unwrap_err(), tokenize(bad).unwrap_err());
}

#[test]
fn empty_input_gives_no_tokens() {
    assert_eq!(tokenize("").unwrap(), vec![]);
    assert_eq!(tokenize("\n\n").unwrap(), vec![]);
}

#[test]
fn comma_first_then_garbage() {
    assert_eq!(left_over(tokenize(",\n\u{3}")), "\u{3}");
    let ts = tokenize(",").unwrap();
    assert_eq!(ts, vec![tok(TokenName::TagValue, ""), tok(TokenName::Comma, ",")]);
}

#[test]
fn open_brace_without_marker_is_content() {
    assert_eq!(left_over(tokenize("{")), "{");
    assert_eq!(
        tokenize("}").unwrap(),
        vec![tok(TokenName::EndingDelimiterTag, "}")]
    );
}

#[test]
fn marker_keeps_pending_characters() {
    let ts = tokenize("ab@c{").unwrap();
    assert_eq!(
        ts,
        vec![
            tok(TokenName::InitialDelimiterType, "@"),
            tok(TokenName::Type, "abc"),
            tok(TokenName::InitialDelimiterTag, "{"),
        ]
    );
}

#[test]
fn empty_and_blank_final_values() {
    let ts = tokenize("@a{k, t =}").unwrap();
    assert_eq!(ts.len(), 8);
    assert_eq!(ts[7], tok(TokenName::EndingDelimiterTag, "}"));
    let ts = tokenize("@a{k, t = }").unwrap();
    assert_eq!(ts.len(), 9);
    assert_eq!(ts[7], tok(TokenName::TagValue, ""));
}

#[test]
fn non_ascii_text_is_kept() {
    let ts = tokenize("@article{clé, titre = {Ça va},}").unwrap();
    assert_eq!(ts[3], tok(TokenName::CitationKey, "clé"));
    assert_eq!(ts[7], tok(TokenName::TagValue, "{Ça va}"));
}
