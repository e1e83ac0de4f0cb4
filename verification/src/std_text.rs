//! Text functions of the standard library, with what is relied on of each.

use vstd::prelude::*;
use vstd::utf8::*;

use crate::text::ascii_lowered;

verus! {

/// What `str::to_lowercase` makes of a text.
pub uninterp spec fn lowercased(s: Seq<char>) -> Seq<char>;

/// What `String::from_utf8_lossy` makes of some bytes.
pub uninterp spec fn utf8_lossy(bytes: Seq<u8>) -> Seq<char>;

/// What the `Debug` format of `str` makes of a text: it is quoted and escaped.
pub uninterp spec fn debug_quoted(s: Seq<char>) -> Seq<char>;

/// `str::to_lowercase`. The result depends on the text alone, by the lowercase mapping
/// of Unicode. On a text of ASCII characters only, that mapping takes `A` to `Z` to
/// `a` to `z` and leaves the rest alone. In any text, the case of ASCII letters does not
/// matter to it: the one mapping that looks at its neighbours, of a capital sigma at the
/// end of a word, asks only where the word ends.
#[verifier::external_body]
pub(crate) fn to_lowercase(s: &str) -> (r: String)
    ensures
        r@ == lowercased(s@),
        is_ascii_chars(s@) ==> r@ == ascii_lowered(s@),
        r@ == lowercased(ascii_lowered(s@)),
{
    s.to_lowercase()
}

/// `String::from_utf8_lossy`. The result depends on the bytes alone; bytes that are
/// valid UTF-8 are decoded, and what is not is replaced by U+FFFD.
#[verifier::external_body]
pub(crate) fn from_utf8_lossy(bytes: &Vec<u8>) -> (r: String)
    ensures
        r@ == utf8_lossy(bytes@),
        valid_utf8(bytes@) ==> r@ == decode_utf8(bytes@),
{
    String::from_utf8_lossy(bytes).into_owned()
}

/// `<str as Debug>::fmt`, through `format!`. The result depends on the text alone.
#[verifier::external_body]
pub(crate) fn debug_quote(s: &str) -> (r: String)
    ensures
        r@ == debug_quoted(s@),
{
    format!("{s:?}")
}

} // verus!
