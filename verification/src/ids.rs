//! Identifiers of executions and envelopes: 128-bit numbers with a text form.

use vstd::prelude::*;

verus! {

/// `16` to the power `n`.
pub open spec fn pow16(n: nat) -> int
    decreases n,
{
    if n == 0 {
        1
    } else {
        16 * pow16((n - 1) as nat)
    }
}

/// The lower-case hexadecimal digit for `n`.
pub open spec fn hex_digit(n: int) -> char {
    if n < 10 {
        (48 + n) as char
    } else {
        (87 + n) as char
    }
}

/// The hexadecimal digit of `id` at position `i` of thirty-two.
pub open spec fn digit_at(id: u128, i: int) -> char {
    hex_digit((id as int / pow16((31 - i) as nat)) % 16)
}

/// The text of an identifier: its digits, with hyphens after the eighth, the
/// twelfth, the sixteenth and the twentieth.
pub open spec fn id_text(id: u128) -> Seq<char> {
    Seq::new(
        36,
        |i: int|
            if i == 8 || i == 13 || i == 18 || i == 23 {
                '-'
            } else if i < 8 {
                digit_at(id, i)
            } else if i < 13 {
                digit_at(id, i - 1)
            } else if i < 18 {
                digit_at(id, i - 2)
            } else if i < 23 {
                digit_at(id, i - 3)
            } else {
                digit_at(id, i - 4)
            },
    )
}

/// What `uuid::Uuid::parse_str` makes of a text: the identifier that it reads, or the
/// words with which it refuses the text.
pub uninterp spec fn id_parse(s: Seq<char>) -> Result<u128, Seq<char>>;

/// A text was read as `id`.
pub open spec fn read(id: u128) -> Result<u128, Seq<char>> {
    Ok(id)
}

/// A text was refused with the words `e`.
pub open spec fn unread(e: Seq<char>) -> Result<u128, Seq<char>> {
    Err(e)
}

/// `to_string` of a `uuid::Uuid`: the hyphenated lower-case form, in which
/// `uuid::Uuid::parse_str` finds the identifier again.
#[verifier::external_body]
pub(crate) fn text_of_id(id: u128) -> (r: String)
    ensures
        r@ == id_text(id),
        id_parse(r@) == read(id),
{
    uuid::Uuid::from_u128(id).to_string()
}

/// `uuid::Uuid::parse_str`: the identifier where the text is accepted, the words of
/// the error where it is refused. Both are named.
#[verifier::external_body]
pub(crate) fn parse_id(s: &str) -> (r: Result<u128, String>)
    ensures
        match r {
            Ok(id) => id_parse(s@) == read(id),
            Err(e) => id_parse(s@) == unread(e@),
        },
{
    match uuid::Uuid::parse_str(s) {
        Ok(u) => Ok(u.as_u128()),
        Err(e) => Err(e.to_string()),
    }
}

} // verus!
