//! The status of an HTTP response, as far as the lister reads it.

use vstd::prelude::*;

verus! {

/// The text that `reqwest::StatusCode` displays for the status with this
/// code: the code and its canonical reason phrase. The phrases are a table
/// of the `http` crate and are not restated here.
pub uninterp spec fn status_text(code: u16) -> Seq<char>;

/// The character of a decimal digit.
pub open spec fn digit_char(digit: u16) -> char
    recommends
        0 <= digit <= 9,
{
    (digit + 48) as u8 as char
}

/// The three decimal digits of a status code.
pub open spec fn code_digits(code: u16) -> Seq<char>
    recommends
        100 <= code <= 999,
{
    seq![digit_char(code / 100), digit_char((code / 10) % 10), digit_char(code % 10)]
}

/// Calls `reqwest::StatusCode::from_u16` and `StatusCode::is_success`.
/// Trusted: a status is a success exactly when its code lies in 200..=299.
#[verifier::external_body]
fn code_is_success(code: u16) -> (success: bool)
    requires
        100 <= code <= 999,
    ensures
        success == (200 <= code <= 299),
{
    match reqwest::StatusCode::from_u16(code) {
        Ok(status) => status.is_success(),
        Err(_) => false,
    }
}

/// Calls `reqwest::StatusCode::from_u16` and the `Display` of `StatusCode`.
/// Trusted: a code is a status exactly when it lies in 100..=999; what is
/// displayed depends on the code alone, and begins with the code in decimal
/// and a space.
#[verifier::external_body]
fn code_to_text(code: u16) -> (text: Option<String>)
    ensures
        text.is_some() == (100 <= code <= 999),
        text matches Some(shown) ==> shown@ == status_text(code) && code_digits(code).push(
            ' ',
        ).is_prefix_of(shown@),
{
    match reqwest::StatusCode::from_u16(code) {
        Ok(status) => Some(status.to_string()),
        Err(_) => None,
    }
}

/// The status of an HTTP response: a code from 100 to 999.
#[derive(Clone, Copy, Debug, PartialEq, Eq, Structural)]
pub struct HttpStatus {
    code: u16,
}

impl HttpStatus {
    /// The status code.
    pub closed spec fn code(self) -> u16 {
        self.code
    }

    /// Every status that exists at run time has a code from 100 to 999.
    #[verifier::type_invariant]
    pub open spec fn is_valid(self) -> bool {
        100 <= self.code() <= 999
    }

    /// Whether the status reports success: a code from 200 to 299.
    pub open spec fn success(self) -> bool {
        200 <= self.code() <= 299
    }

    /// The status with this code, if the code is one: from 100 to 999.
    pub fn from_u16(code: u16) -> (status: Option<HttpStatus>)
        ensures
            status.is_some() == (100 <= code <= 999),
            status matches Some(made) ==> made.code() == code && made.is_valid(),
    {
        if 100 <= code && code <= 999 {
            Some(HttpStatus { code })
        } else {
            None
        }
    }

    /// The status code.
    pub fn as_u16(&self) -> (code: u16)
        ensures
            code == self.code(),
            self.is_valid(),
    {
        proof {
            use_type_invariant(self);
        }
        self.code
    }

    /// Whether the status reports success.
    pub fn is_success(&self) -> (success: bool)
        ensures
            success == self.success(),
    {
        proof {
            use_type_invariant(self);
        }
        code_is_success(self.code)
    }

    /// The status as text: the code in decimal, a space, and the reason
    /// phrase.
    pub fn to_text(&self) -> (text: String)
        ensures
            text@ == status_text(self.code()),
            code_digits(self.code()).push(' ').is_prefix_of(text@),
    {
        proof {
            use_type_invariant(self);
        }
        match code_to_text(self.code) {
            Some(text) => text,
            None => {
                assert(false);
                String::new()
            },
        }
    }
}

} // verus!
