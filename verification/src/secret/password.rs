//! The password that secrets are encrypted with: what is entered is checked
//! against its confirmation, and what is kept is its SHA-256 digest in
//! lowercase hex.
use vstd::prelude::*;

use crate::error::Error;
use crate::secret::cipher::{sha256, sha256_digest};
use crate::text::push_char;
use vstd::string::StringSliceAdditionalSpecFns;

verus! {

/// The lowercase hex digit of `d < 16`.
pub open spec fn hex_digit(d: nat) -> char {
    if d < 10 {
        (48 + d) as char
    } else {
        (87 + d) as char
    }
}

/// Each byte as two lowercase hex digits, high digit first.
pub open spec fn hex_lower(b: Seq<u8>) -> Seq<char>
    decreases b.len(),
{
    if b.len() == 0 {
        Seq::empty()
    } else {
        hex_lower(b.drop_last()) + seq![hex_digit((b.last() / 16) as nat), hex_digit((b.last() % 16) as nat)]
    }
}

fn hex_char(d: u8) -> (c: char)
    requires
        d < 16,
    ensures
        c == hex_digit(d as nat),
{
    if d < 10 {
        (48 + d) as char
    } else {
        (87 + d) as char
    }
}

/// The bytes as lowercase hex.
pub fn hex_string(bytes: &[u8]) -> (r: String)
    ensures
        r@ == hex_lower(bytes@),
{
    let mut r = String::new();
    let mut i: usize = 0;
    assert(bytes@.take(0) =~= Seq::<u8>::empty());
    while i < bytes.len()
        invariant
            i <= bytes@.len(),
            r@ == hex_lower(bytes@.take(i as int)),
        decreases bytes.len() - i,
    {
        let b = bytes[i];
        push_char(&mut r, hex_char(b / 16));
        push_char(&mut r, hex_char(b % 16));
        assert(bytes@.take(i + 1).drop_last() =~= bytes@.take(i as int));
        assert(bytes@.take(i + 1).last() == b);
        i += 1;
        assert(r@ =~= hex_lower(bytes@.take(i as int)));
    }
    assert(bytes@.take(bytes@.len() as int) =~= bytes@);
    r
}

/// The form in which a password is kept: its SHA-256 digest in lowercase hex.
pub fn password_digest(password: &str) -> (r: String)
    ensures
        r@ == hex_lower(sha256_digest(password.spec_bytes())),
{
    let d = sha256(password.as_bytes());
    hex_string(d.as_slice())
}

/// An entered password, checked against the confirmation that was entered
/// after it: it may not be empty, and the two must agree.
pub fn check_entered_password(password: &str, confirm: &str) -> (r: Result<(), Error>)
    ensures
        password@.len() == 0 ==> r == Err::<(), Error>(Error::EmptyPassword),
        password@.len() > 0 && password@ != confirm@ ==> r == Err::<(), Error>(Error::PasswordMismatch),
        password@.len() > 0 && password@ == confirm@ ==> r is Ok,
{
    if password.is_empty() {
        return Err(Error::EmptyPassword);
    }
    if !crate::text::eq_str(password, confirm) {
        return Err(Error::PasswordMismatch);
    }
    Ok(())
}

} // verus!
