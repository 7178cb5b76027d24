use vstd::prelude::*;

verus! {

pub open spec fn is_ws_byte(b: u8) -> bool {
    b == 0x20 || b == 0x09 || b == 0x0a
}

pub open spec fn is_letter_byte(b: u8) -> bool {
    (0x61 <= b && b <= 0x7a) || (0x41 <= b && b <= 0x5a)
}

pub open spec fn is_digit_byte(b: u8) -> bool {
    0x30 <= b && b <= 0x39
}

/// A letter, `_`, `@` or `#`.
pub open spec fn is_identifier_start_byte(b: u8) -> bool {
    is_letter_byte(b) || b == 0x5f || b == 0x40 || b == 0x23
}

/// What an identifier run may hold: its start bytes, digits, `.` and `:`.
pub open spec fn is_identifier_byte(b: u8) -> bool {
    is_identifier_start_byte(b) || is_digit_byte(b) || b == 0x2e || b == 0x3a
}

/// A letter, a digit or `_`.
pub open spec fn is_word_byte(b: u8) -> bool {
    is_letter_byte(b) || is_digit_byte(b) || b == 0x5f
}

/// `-` or a digit.
pub open spec fn is_number_start_byte(b: u8) -> bool {
    b == 0x2d || is_digit_byte(b)
}

/// A single or a double quote.
pub open spec fn is_quote_byte(b: u8) -> bool {
    b == 0x27 || b == 0x22
}

/// One of `= ? ! > < ~`.
pub open spec fn is_sign_byte(b: u8) -> bool {
    b == 0x3d || b == 0x3f || b == 0x21 || b == 0x3e || b == 0x3c || b == 0x7e
}

/// `&` or `|`.
pub open spec fn is_join_byte(b: u8) -> bool {
    b == 0x26 || b == 0x7c
}

/// Checks for a space, tab or newline.
pub fn is_whitespace_char(ch: u8) -> (r: bool)
    ensures
        r == is_ws_byte(ch),
{
    ch == 0x20 || ch == 0x09 || ch == 0x0a
}

/// Checks for an ASCII letter.
pub fn is_letter_char(ch: u8) -> (r: bool)
    ensures
        r == is_letter_byte(ch),
{
    (0x61 <= ch && ch <= 0x7a) || (0x41 <= ch && ch <= 0x5a)
}

/// Checks for an ASCII digit.
pub fn is_digit_char(ch: u8) -> (r: bool)
    ensures
        r == is_digit_byte(ch),
{
    0x30 <= ch && ch <= 0x39
}

/// Checks for a byte that may start an identifier.
pub fn is_identifier_start_char(ch: u8) -> (r: bool)
    ensures
        r == is_identifier_start_byte(ch),
{
    is_letter_char(ch) || ch == 0x5f || ch == 0x40 || ch == 0x23
}

/// Checks for a byte that may start quoted text.
pub fn is_text_start_char(ch: u8) -> (r: bool)
    ensures
        r == is_quote_byte(ch),
{
    ch == 0x27 || ch == 0x22
}

/// Checks for a byte that may start a number.
pub fn is_number_start_char(ch: u8) -> (r: bool)
    ensures
        r == is_number_start_byte(ch),
{
    ch == 0x2d || is_digit_char(ch)
}

/// Checks for a byte of a sign operator.
pub fn is_sign_start_char(ch: u8) -> (r: bool)
    ensures
        r == is_sign_byte(ch),
{
    ch == 0x3d || ch == 0x3f || ch == 0x21 || ch == 0x3e || ch == 0x3c || ch == 0x7e
}

/// Checks for a byte of a join operator.
pub fn is_join_start_char(ch: u8) -> (r: bool)
    ensures
        r == is_join_byte(ch),
{
    ch == 0x26 || ch == 0x7c
}

/// Checks for the opening bracket of a group.
pub fn is_group_start_char(ch: u8) -> (r: bool)
    ensures
        r == (ch == 0x28),
{
    ch == 0x28
}

/// Checks for the byte that starts a comment.
pub fn is_comment_start_char(ch: u8) -> (r: bool)
    ensures
        r == (ch == 0x2f),
{
    ch == 0x2f
}

} // verus!
