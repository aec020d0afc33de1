use vstd::prelude::*;
use std::path::PathBuf;

verus! {

/// Filesystem paths are carried through the library without being inspected.
#[verifier::external_type_specification]
#[verifier::external_body]
pub struct ExPathBuf(PathBuf);

} // verus!

verus! {

/// `String::push` appends one character to the end of the string.
pub assume_specification[ String::push ](s: &mut String, ch: char)
    ensures
        final(s)@ == old(s)@.push(ch),
;

} // verus!

verus! {

/// Whether `c` is an ASCII character.
pub open spec fn is_ascii(c: char) -> bool {
    (c as u32) < 128
}

/// Whether `c` is an ASCII uppercase letter.
pub open spec fn ascii_upper_letter(c: char) -> bool {
    'A' <= c <= 'Z'
}

/// Whether `c` is an ASCII lowercase letter.
pub open spec fn ascii_lower_letter(c: char) -> bool {
    'a' <= c <= 'z'
}

/// Whether `c` is an ASCII digit.
pub open spec fn ascii_digit(c: char) -> bool {
    '0' <= c <= '9'
}

/// `c` with an ASCII uppercase letter made lowercase.
pub open spec fn ascii_lower(c: char) -> char {
    if ascii_upper_letter(c) { ((c as u32) + 32) as char } else { c }
}

/// `c` with an ASCII lowercase letter made uppercase.
pub open spec fn ascii_upper(c: char) -> char {
    if ascii_lower_letter(c) { ((c as u32) - 32) as char } else { c }
}

/// Whether every character of `s` is ASCII.
pub open spec fn all_ascii(s: Seq<char>) -> bool {
    forall|i: int| 0 <= i < s.len() ==> is_ascii(#[trigger] s[i])
}

} // verus!

verus! {

/// Unicode `Alphabetic` property of a character, as `char::is_alphabetic` reports it.
pub uninterp spec fn unicode_alphabetic(c: char) -> bool;

/// Unicode `Uppercase` property of a character, as `char::is_uppercase` reports it.
pub uninterp spec fn unicode_uppercase(c: char) -> bool;

/// Unicode `Lowercase` property of a character, as `char::is_lowercase` reports it.
pub uninterp spec fn unicode_lowercase(c: char) -> bool;

/// First character of the lowercase mapping of `c` (`c.to_lowercase().next()`).
pub uninterp spec fn lowercase_head(c: char) -> Option<char>;

/// First character of the uppercase mapping of `c` (`c.to_uppercase().next()`).
pub uninterp spec fn uppercase_head(c: char) -> Option<char>;

/// Calls `char::is_alphabetic`; the result is named, not spelled out.
#[verifier::external_body]
pub fn is_alphabetic(c: char) -> (r: bool)
    ensures
        r == unicode_alphabetic(c),
        is_ascii(c) ==> r == (ascii_upper_letter(c) || ascii_lower_letter(c)),
{
    c.is_alphabetic()
}

/// Calls `char::is_uppercase`; the result is named, not spelled out.
#[verifier::external_body]
pub fn is_uppercase(c: char) -> (r: bool)
    ensures
        r == unicode_uppercase(c),
        is_ascii(c) ==> r == ascii_upper_letter(c),
{
    c.is_uppercase()
}

/// Calls `char::is_lowercase`; the result is named, not spelled out.
#[verifier::external_body]
pub fn is_lowercase(c: char) -> (r: bool)
    ensures
        r == unicode_lowercase(c),
        is_ascii(c) ==> r == ascii_lower_letter(c),
{
    c.is_lowercase()
}

/// Calls `char::to_lowercase` and takes the first character of the mapping.
/// std documents that the mapping yields at least one character (the character
/// itself when it has no lowercase form), so the result is always `Some`.
#[verifier::external_body]
pub fn to_lowercase_head(c: char) -> (r: Option<char>)
    ensures
        r == lowercase_head(c),
        r.is_some(),
        is_ascii(c) ==> r == Some(ascii_lower(c)),
{
    c.to_lowercase().next()
}

/// Calls `char::to_uppercase` and takes the first character of the mapping.
/// std documents that the mapping yields at least one character, so the result
/// is always `Some`.
#[verifier::external_body]
pub fn to_uppercase_head(c: char) -> (r: Option<char>)
    ensures
        r == uppercase_head(c),
        r.is_some(),
        is_ascii(c) ==> r == Some(ascii_upper(c)),
{
    c.to_uppercase().next()
}

} // verus!

verus! {

/// Unicode `White_Space` property of a character, as `char::is_whitespace` reports it.
pub uninterp spec fn unicode_whitespace(c: char) -> bool;

/// Whether `c` is whitespace as `char::is_whitespace` says: of the ASCII
/// characters, space and tab through carriage return (U+0009 to U+000D);
/// beyond ASCII, the Unicode `White_Space` property.
pub open spec fn whitespace(c: char) -> bool {
    if is_ascii(c) {
        c == ' ' || ('\t' <= c <= '\r')
    } else {
        unicode_whitespace(c)
    }
}

/// Calls `char::is_whitespace`. The result is named; of the ASCII
/// characters, the White_Space property holds of space and of tab through
/// carriage return (U+0009 to U+000D).
#[verifier::external_body]
pub fn is_whitespace(c: char) -> (r: bool)
    ensures
        r == unicode_whitespace(c),
        r == whitespace(c),
{
    c.is_whitespace()
}

/// The full lowercase mapping of a character, as `char::to_lowercase` yields it.
pub uninterp spec fn char_lower(c: char) -> Seq<char>;

/// Calls `char::to_lowercase` and collects the characters of the mapping;
/// the result is named (std documents that it holds at least one character).
#[verifier::external_body]
pub fn char_to_lowercase(c: char) -> (r: String)
    ensures
        r@ == char_lower(c),
        r@.len() > 0,
        is_ascii(c) ==> r@ == seq![ascii_lower(c)],
{
    c.to_lowercase().collect()
}

/// Unicode `Alphabetic` or `Numeric` property, as `char::is_alphanumeric` reports it.
pub uninterp spec fn unicode_alphanumeric(c: char) -> bool;

/// Calls `char::is_alphanumeric`; the result is named, not spelled out.
#[verifier::external_body]
pub fn is_alphanumeric(c: char) -> (r: bool)
    ensures
        r == unicode_alphanumeric(c),
        is_ascii(c) ==> r == (ascii_upper_letter(c) || ascii_lower_letter(c) || ascii_digit(c)),
{
    c.is_alphanumeric()
}

} // verus!

verus! {

/// The lowercase mapping of a whole string, as `str::to_lowercase` gives it.
pub uninterp spec fn str_lowercase(s: Seq<char>) -> Seq<char>;

/// Calls `str::to_lowercase`; the result is named, not spelled out (it
/// follows Unicode's full case mapping, which may change the length).
#[verifier::external_body]
pub fn to_lowercase_str(s: &str) -> (r: String)
    ensures
        r@ == str_lowercase(s@),
        all_ascii(s@) ==> r@ == s@.map_values(|c: char| ascii_lower(c)),
{
    s.to_lowercase()
}

/// The uppercase mapping of a whole string, as `str::to_uppercase` gives it.
pub uninterp spec fn str_uppercase(s: Seq<char>) -> Seq<char>;

/// Calls `str::to_uppercase`; the result is named, not spelled out.
#[verifier::external_body]
pub fn to_uppercase_str(s: &str) -> (r: String)
    ensures
        r@ == str_uppercase(s@),
        all_ascii(s@) ==> r@ == s@.map_values(|c: char| ascii_upper(c)),
{
    s.to_uppercase()
}

} // verus!

verus! {

/// Points in time are carried through the library without being inspected.
#[verifier::external_type_specification]
#[verifier::external_body]
pub struct ExInstant(std::time::Instant);

/// Calls `Instant::now`; what it returns depends on the clock.
#[verifier::external_body]
pub fn instant_now() -> std::time::Instant {
    std::time::Instant::now()
}

/// Calls `Instant::elapsed` and gives the duration in nanoseconds; what it
/// returns depends on the clock.
#[verifier::external_body]
pub fn elapsed_nanos(t: &std::time::Instant) -> u128 {
    t.elapsed().as_nanos()
}

/// Calls `Instant::checked_sub` with a duration of `secs` seconds: `None`
/// where the earlier instant cannot be represented. Which of the two comes
/// back depends on the clock reading held in `t`.
#[verifier::external_body]
pub fn instant_minus_secs(t: std::time::Instant, secs: u64) -> Option<std::time::Instant> {
    t.checked_sub(std::time::Duration::from_secs(secs))
}

/// A lock shared with a worker thread; its content is never inspected in place.
#[verifier::external_type_specification]
#[verifier::external_body]
#[verifier::reject_recursive_types(T)]
pub struct ExMutex<T: ?Sized>(std::sync::Mutex<T>);

/// Calls `Mutex::new`.
#[verifier::external_body]
pub fn new_mutex<T>(value: T) -> std::sync::Mutex<T> {
    std::sync::Mutex::new(value)
}

/// Calls `Mutex::lock`, waiting for the lock, and takes the slot's content
/// out (`None` when the lock was poisoned). What it returns depends on other
/// threads.
#[verifier::external_body]
pub fn lock_take<T>(slot: &std::sync::Mutex<Option<T>>) -> Option<Option<T>> {
    match slot.lock() {
        Ok(mut guard) => Some(guard.take()),
        Err(_) => None,
    }
}

/// Calls `Mutex::try_lock` and takes the slot's content out when the lock
/// was free (`None` when it was held elsewhere). What it returns depends on
/// other threads.
#[verifier::external_body]
pub fn try_take<T>(slot: &std::sync::Mutex<Option<T>>) -> Option<Option<T>> {
    match slot.try_lock() {
        Ok(mut guard) => Some(guard.take()),
        Err(_) => None,
    }
}

} // verus!

verus! {

/// `PathBuf::clone` gives back the same path (std documents `Clone` as a copy).
pub assume_specification[ <PathBuf as Clone>::clone ](p: &PathBuf) -> (r: PathBuf)
    ensures
        r == *p,
;

} // verus!
