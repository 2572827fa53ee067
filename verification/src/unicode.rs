//! Unicode tables that the filters consult, by way of `std` and the
//! `unicode-normalization` and `html-escape` crates.
use vstd::prelude::*;
use unicode_normalization::UnicodeNormalization;
use crate::text::{ascii_text, flat_map};

verus! {

/// The Unicode Normalization Form KD (compatibility decomposition) of `s`,
/// as `unicode_normalization::UnicodeNormalization::nfkd` yields it.
pub uninterp spec fn nfkd(s: Seq<char>) -> Seq<char>;

/// Calls `UnicodeNormalization::nfkd` on `s` and collects the characters it
/// yields. The contract names the result `nfkd(s@)`: the decomposition
/// tables themselves are not stated. What it does state is that ASCII text
/// comes back unchanged: the crate never decomposes a 7-bit character, and
/// such characters have combining class 0, so none is reordered.
#[verifier::external_body]
pub(crate) fn nfkd_chars(s: &str) -> (r: Vec<char>)
    ensures
        r@ == nfkd(s@),
        ascii_text(s@) ==> r@ == s@,
{
    s.nfkd().collect()
}

/// Whether `c` has the Unicode `Alphabetic` property (`char::is_alphabetic`).
pub uninterp spec fn alphabetic(c: char) -> bool;

/// Calls `char::is_alphabetic`; the contract names its result
/// `alphabetic(c)` without stating the property's table.
#[verifier::external_body]
pub(crate) fn is_alphabetic(c: char) -> (r: bool)
    ensures
        r == alphabetic(c),
{
    c.is_alphabetic()
}

/// The characters that `char::to_uppercase` yields for `c`.
pub uninterp spec fn char_upper(c: char) -> Seq<char>;

/// Calls `char::to_uppercase` and collects what it yields; the contract
/// names the result `char_upper(c)` without stating Unicode's case mapping.
#[verifier::external_body]
pub(crate) fn char_to_uppercase(c: char) -> (r: Vec<char>)
    ensures
        r@ == char_upper(c),
{
    c.to_uppercase().collect()
}

/// The characters that `char::to_lowercase` yields for `c`.
pub uninterp spec fn char_lower(c: char) -> Seq<char>;

/// Calls `char::to_lowercase` and collects what it yields; the contract
/// names the result `char_lower(c)` without stating Unicode's case mapping.
#[verifier::external_body]
pub(crate) fn char_to_lowercase(c: char) -> (r: Vec<char>)
    ensures
        r@ == char_lower(c),
{
    c.to_lowercase().collect()
}

/// What `str::to_lowercase` returns for `s`.
pub uninterp spec fn str_lower(s: Seq<char>) -> Seq<char>;

/// Calls `str::to_lowercase`; the contract names the result `str_lower(s@)`
/// without stating Unicode's case mapping.
#[verifier::external_body]
pub(crate) fn str_to_lowercase(s: &str) -> (r: String)
    ensures
        r@ == str_lower(s@),
{
    s.to_lowercase()
}

/// What `str::to_uppercase` returns for `s`.
pub uninterp spec fn str_upper(s: Seq<char>) -> Seq<char>;

/// Calls `str::to_uppercase`; the contract names the result `str_upper(s@)`
/// without stating Unicode's case mapping.
#[verifier::external_body]
pub(crate) fn str_to_uppercase(s: &str) -> (r: String)
    ensures
        r@ == str_upper(s@),
{
    s.to_uppercase()
}

/// The HTML entity that stands for `c` inside a quoted attribute, or `c`
/// itself when it needs none.
pub open spec fn html_escape_char(c: char) -> Seq<char> {
    if c == '&' {
        seq!['&', 'a', 'm', 'p', ';']
    } else if c == '<' {
        seq!['&', 'l', 't', ';']
    } else if c == '>' {
        seq!['&', 'g', 't', ';']
    } else if c == '"' {
        seq!['&', 'q', 'u', 'o', 't', ';']
    } else if c == '\'' {
        seq!['&', '#', 'x', '2', '7', ';']
    } else {
        seq![c]
    }
}

/// `s` with the five HTML reserved characters replaced by entities.
pub open spec fn html_escape(s: Seq<char>) -> Seq<char> {
    flat_map(s, |c: char| html_escape_char(c))
}

/// Calls `html_escape::encode_quoted_attribute_to_string` on an empty output
/// string. As the crate documents and its source shows, `&`, `<`, `>`, `"`
/// and `'` become `&amp;`, `&lt;`, `&gt;`, `&quot;` and `&#x27;`, and every
/// other character is copied.
#[verifier::external_body]
pub(crate) fn encode_quoted_attribute(text: &str) -> (r: String)
    ensures
        r@ == html_escape(text@),
{
    let mut out = String::new();
    html_escape::encode_quoted_attribute_to_string(text, &mut out);
    out
}

} // verus!
