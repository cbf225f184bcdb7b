//! Text helpers: decimal numerals, lower-casing, substring search, trimming.
use vstd::prelude::*;

verus! {

/// The character of the decimal digit `d` (`0 <= d < 10`).
pub open spec fn digit_char(d: nat) -> char {
    if d == 0 { '0' } else if d == 1 { '1' } else if d == 2 { '2' } else if d == 3 { '3' }
    else if d == 4 { '4' } else if d == 5 { '5' } else if d == 6 { '6' } else if d == 7 { '7' }
    else if d == 8 { '8' } else { '9' }
}

/// The decimal numeral of `n`: its digits, most significant first, with no
/// sign and no leading zero (`0` is written `"0"`).
pub open spec fn decimal(n: nat) -> Seq<char>
    decreases n,
{
    if n < 10 {
        seq![digit_char(n)]
    } else {
        decimal(n / 10).push(digit_char(n % 10))
    }
}

/// Whether `needle` occurs as a contiguous run of characters in `haystack`.
pub open spec fn occurs_in(needle: Seq<char>, haystack: Seq<char>) -> bool {
    exists|i: int|
        0 <= i && i + needle.len() <= haystack.len() && #[trigger] haystack.subrange(
            i,
            i + needle.len(),
        ) == needle
}

/// What `str::to_lowercase` gives for a text: Unicode's lower-case mapping of
/// each character, in order.
pub uninterp spec fn lowercase(text: Seq<char>) -> Seq<char>;

/// What `str::trim` gives for a text: the text without its leading and
/// trailing Unicode white space.
pub uninterp spec fn trimmed(text: Seq<char>) -> Seq<char>;

/// Formats `n` with `u32`'s `Display` (`to_string`), which std documents as
/// the plain decimal numeral; this claims exactly that numeral.
#[verifier::external_body]
pub(crate) fn decimal_text(n: u32) -> (text: String)
    ensures
        text@ == decimal(n as nat),
{
    n.to_string()
}

/// Calls `str::to_lowercase`. Claimed: the result is `lowercase` of the
/// argument's characters; Unicode's mapping itself is left unstated.
#[verifier::external_body]
pub(crate) fn to_lowercase(text: &str) -> (lower: String)
    ensures
        lower@ == lowercase(text@),
{
    text.to_lowercase()
}

/// Calls `str::contains` with a `&str` pattern. Claimed: it answers whether
/// the pattern's characters occur contiguously in the text (a byte match of
/// UTF-8 text always falls on character boundaries).
#[verifier::external_body]
pub(crate) fn contains_text(haystack: &str, needle: &str) -> (found: bool)
    ensures
        found == occurs_in(needle@, haystack@),
{
    haystack.contains(needle)
}

/// Calls `str::trim`. Claimed: the result is `trimmed` of the argument's
/// characters; which characters count as white space is left unstated.
#[verifier::external_body]
pub(crate) fn trim_text(text: &str) -> (t: &str)
    ensures
        t@ == trimmed(text@),
{
    text.trim()
}

/// `prefix` followed by `suffix`, as a new string.
pub fn join2(prefix: &str, suffix: &str) -> (joined: String)
    ensures
        joined@ == prefix@ + suffix@,
{
    let mut joined = String::from_str(prefix);
    joined.append(suffix);
    joined
}

} // verus!
