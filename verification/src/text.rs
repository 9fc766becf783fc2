//! Text as it is typed: trimmed, put in lower case, compared and read as a number.

use vstd::prelude::*;

verus! {

/// What `str::trim` leaves of a text.
pub uninterp spec fn trim_of(s: Seq<char>) -> Seq<char>;

/// What `str::to_lowercase` makes of a text.
pub uninterp spec fn lowercase_of(s: Seq<char>) -> Seq<char>;

/// `str::trim`: the text without leading and trailing whitespace.
#[verifier::external_body]
pub(crate) fn trim_text<'a>(s: &'a str) -> (r: &'a str)
    ensures
        r@ == trim_of(s@),
{
    s.trim()
}

/// `str::to_lowercase`: the text in lower case.
#[verifier::external_body]
pub(crate) fn lowercase_text(s: &str) -> (r: String)
    ensures
        r@ == lowercase_of(s@),
{
    s.to_lowercase()
}

/// The number that a run of decimal digits spells; `None` if a character
/// is no digit. The empty run spells zero.
pub open spec fn digits_value(s: Seq<char>) -> Option<int>
    decreases s.len(),
{
    if s.len() == 0 {
        Some(0int)
    } else {
        let c = s.last();
        match digits_value(s.drop_last()) {
            Some(v) => if '0' <= c && c <= '9' {
                Some(v * 10 + (c as u32 - '0' as u32))
            } else {
                None
            },
            None => None,
        }
    }
}

/// What `str::parse::<u8>` makes of a text: an optional `+`, then one or
/// more decimal digits that spell a number up to 255; anything else is no
/// number.
pub open spec fn parsed_u8(s: Seq<char>) -> Option<u8> {
    let body = if s.len() > 0 && s[0] == '+' {
        s.subrange(1, s.len() as int)
    } else {
        s
    };
    if body.len() == 0 {
        None
    } else {
        match digits_value(body) {
            Some(v) => if v <= 255 {
                Some(v as u8)
            } else {
                None
            },
            None => None,
        }
    }
}

/// `str::parse::<u8>`: the number that the text spells, if it spells one.
#[verifier::external_body]
pub(crate) fn parse_u8(s: &str) -> (r: Option<u8>)
    ensures
        r == parsed_u8(s@),
{
    s.parse::<u8>().ok()
}

/// The form in which names are compared: trimmed, then in lower case.
pub open spec fn folded(s: Seq<char>) -> Seq<char> {
    lowercase_of(trim_of(s))
}

/// A name in the form in which names are compared.
pub fn fold_name(s: &str) -> (r: String)
    ensures
        r@ == folded(s@),
{
    lowercase_text(trim_text(s))
}

/// Whether `text` is exactly `word`.
pub fn is_word(text: &String, word: &str) -> (r: bool)
    ensures
        r == (text@ == word@),
{
    let w = word.to_owned();
    *text == w
}

} // verus!
