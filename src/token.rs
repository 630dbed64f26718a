//! The tokens that the scanner produces.
use vstd::prelude::*;

verus! {

/// The kind of a token, in the order in which kinds appear in an entry.
#[derive(Debug, Clone, Copy, PartialEq, Eq, Structural)]
pub enum TokenName {
    /// The `@` that opens an entry.
    InitialDelimiterType,
    /// The entry type between `@` and `{`, such as `article`.
    Type,
    /// The citation key before the first `,` of the field list.
    CitationKey,
    /// The `{` that opens the field list.
    InitialDelimiterTag,
    /// A field name, the text before an `=`.
    TagName,
    /// The `=` between a field name and its value.
    Equal,
    /// A field value, kept verbatim apart from surrounding whitespace.
    TagValue,
    /// A `,` after the citation key or after a field.
    Comma,
    /// The `}` that closes the entry.
    EndingDelimiterTag,
}

/// A token: its kind and the text it was recognised from.
#[derive(Debug, PartialEq)]
pub struct Token {
    pub name: TokenName,
    pub value: String,
}

/// The model of a token: its kind and its characters.
pub type TokenView = (TokenName, Seq<char>);

impl View for Token {
    type V = TokenView;

    open spec fn view(&self) -> TokenView {
        (self.name, self.value@)
    }
}

/// Why a scan failed.
#[derive(Debug, PartialEq)]
pub enum BibtexError {
    /// The input ended while these characters were still pending.
    LeftOver(String),
}

/// The models of a sequence of tokens.
pub open spec fn views(ts: Seq<Token>) -> Seq<TokenView> {
    ts.map_values(|t: Token| t@)
}

/// Relies on `FromIterator<char>` for `String`: collecting characters gives a
/// string of exactly those characters, in order.
#[verifier::external_body]
pub(crate) fn string_of(cs: &Vec<char>) -> (r: String)
    ensures
        r@ == cs@,
{
    cs.iter().collect()
}

} // verus!
