use bibtex_tokenizer::{tokenize, BibtexError, Token, TokenName};

fn tok(name: TokenName, value: &str) -> Token {
    Token {
        name,
        value: value.to_string(),
    }
}

fn head(key: &str) -> Vec<Token> {
    vec![
        tok(TokenName::InitialDelimiterType, "@"),
        tok(TokenName::Type, "article"),
        tok(TokenName::InitialDelimiterTag, "{"),
        tok(TokenName::CitationKey, key),
        tok(TokenName::Comma, ","),
    ]
}

fn field(name: &str, value: &str) -> Vec<Token> {
    vec![
        tok(TokenName::TagName, name),
        tok(TokenName::Equal, "="),
        tok(TokenName::TagValue, value),
        tok(TokenName::Comma, ","),
    ]
}

fn entry(key: &str, fields: &[(&str, &str)]) -> Vec<Token> {
    let mut v = head(key);
    for (n, val) in fields {
        v.extend(field(n, val));
    }
    v.push(tok(TokenName::EndingDelimiterTag, "}"));
    v
}

#[test]
fn it_works() {
    let tt = tokenize(
        r#"@article{mrx05,
auTHor = "Mr. X",
Title = "Something Great",
publisher = "nob",
YEAR = "2005",
}"#,
    );
    let expect = entry(
        "mrx05",
        &[
            ("auTHor", "\"Mr. X\""),
            ("Title", "\"Something Great\""),
            ("publisher", "\"nob\""),
            ("YEAR", "\"2005\""),
        ],
    );
    assert_eq!(expect, tt.unwrap());
}

#[test]
fn it_works_with_brackets() {
    let tt = tokenize(
        r#"@article{mrx05,
auTHor = {Mr. X},
Title = "Something Great",
}"#,
    );
    let expect = entry(
        "mrx05",
        &[("auTHor", "{Mr. X}"), ("Title", "\"Something Great\"")],
    );
    assert_eq!(expect, tt.unwrap());
}

#[test]
fn it_works_with_last_tag_without_comma() {
    let tt = tokenize(
        r#"@article{mrx05, Title = "1000"
}"#,
    );
    let mut expect = head("mrx05");
    expect.push(tok(TokenName::TagName, "Title"));
    expect.push(tok(TokenName::Equal, "="));
    expect.push(tok(TokenName::TagValue, "\"1000\""));
    expect.push(tok(TokenName::EndingDelimiterTag, "}"));
    assert_eq!(expect, tt.unwrap());
}

#[test]
fn it_works_with_tag_as_num() {
    let tt = tokenize(
        r#"@article{mrx05, Title = 1000,
}"#,
    );
    let expect = entry("mrx05", &[("Title", "1000")]);
    assert_eq!(expect, tt.unwrap());
}

#[test]
fn it_works_with_tag_value_with_double_brackets() {
    let tt = tokenize(
        r#"@article{mrx05,
Title = {{Bib}\TeX},
}"#,
    );
    let expect = entry("mrx05", &[("Title", "{{Bib}\\TeX}")]);
    assert_eq!(expect, tt.unwrap());
}

#[test]
fn fuzz_first() {
    let _ = tokenize(",\n\u{3}");
}

#[test]
fn it_works_e2e_test_from_bibtex_org() {
    let tt = tokenize(
        r#"@article{mrx05,
auTHor = "Mr. X",
Title = {Something Great},
publisher = "nob" # "ody",
YEAR = 2005,
}"#,
    );
    let expect = entry(
        "mrx05",
        &[
            ("auTHor", "\"Mr. X\""),
            ("Title", "{Something Great}"),
            ("publisher", "\"nob\" # \"ody\""),
            ("YEAR", "2005"),
        ],
    );
    assert_eq!(expect, tt.unwrap());
}
