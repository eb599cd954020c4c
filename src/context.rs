//! Reading process settings.
use vstd::prelude::*;

verus! {

/// What `str::trim` leaves of a text: without leading and trailing
/// whitespace.
pub uninterp spec fn trimmed(s: Seq<char>) -> Seq<char>;

/// Relies on `str::trim`: the text without leading and trailing whitespace,
/// a function of the text alone.
#[verifier::external_body]
fn trim(s: &str) -> (r: &str)
    ensures
        r@ == trimmed(s@),
{
    s.trim()
}

/// `c` with an ASCII capital letter mapped to its small letter.
pub open spec fn ascii_lower(c: char) -> char {
    if 'A' <= c && c <= 'Z' {
        ((c as u32) + 32) as char
    } else {
        c
    }
}

/// Relies on `str::to_ascii_lowercase`: each ASCII capital letter becomes
/// its small letter, every other character stays.
#[verifier::external_body]
fn to_ascii_lowercase(s: &str) -> (r: String)
    ensures
        r@ == s@.map_values(|c: char| ascii_lower(c)),
{
    s.to_ascii_lowercase()
}

/// Whether a setting's text, already trimmed, means "on": anything but
/// empty, `0`, or `false` in any ASCII case.
pub open spec fn trimmed_is_on(t: Seq<char>) -> bool {
    !(t.len() == 0 || t == "0"@ || t.map_values(|c: char| ascii_lower(c)) == "false"@)
}

pub fn trimmed_setting_is_on(t: &str) -> (r: bool)
    ensures
        r == trimmed_is_on(t@),
{
    let text = String::from_str(t);
    let zero = String::from_str("0");
    let no = String::from_str("false");
    let lower = to_ascii_lowercase(t);
    !(t.unicode_len() == 0 || text == zero || lower == no)
}

/// Whether a setting's text means "on", ignoring surrounding whitespace.
pub fn env_bool(s: &str) -> (r: bool)
    ensures
        r == trimmed_is_on(trimmed(s@)),
{
    trimmed_setting_is_on(trim(s))
}

} // verus!
