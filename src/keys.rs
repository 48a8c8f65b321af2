//! Keyboard input: which key names stand for a letter of the machine.
use vstd::prelude::*;
use vstd::string::StringSliceAdditionalSpecFns;

use crate::rotor::is_letter;

verus! {

/// ASCII lowercase of a byte: `A..=Z` become `a..=z`, every other byte stays.
pub open spec fn ascii_lower(b: u8) -> u8 {
    if 65 <= b <= 90 {
        (b + 32) as u8
    } else {
        b
    }
}

/// The letter that a key name stands for: a name of exactly one byte that is a letter in
/// either case.
pub open spec fn letter_of_name(name: Seq<u8>) -> Option<u8> {
    if name.len() == 1 && is_letter(ascii_lower(name[0])) {
        Some(ascii_lower(name[0]))
    } else {
        None
    }
}

fn to_ascii_lower(b: u8) -> (r: u8)
    ensures
        r == ascii_lower(b),
{
    if 65 <= b && b <= 90 {
        b + 32
    } else {
        b
    }
}

/// The lowercase letter to encode for the key with this name, if it is a letter key.
pub fn key_letter(name: &str) -> (r: Option<u8>)
    ensures
        r == letter_of_name(name.spec_bytes()),
{
    let bytes = name.as_bytes();
    if bytes.len() != 1 {
        return None;
    }
    let key_ch = to_ascii_lower(bytes[0]);
    if 97 <= key_ch && key_ch <= 122 {
        Some(key_ch)
    } else {
        None
    }
}

} // verus!
