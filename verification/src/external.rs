//! Trusted declarations of the outside items the library works with.

use vstd::prelude::*;

verus! {

/// `rdom_tui::Color`, a terminal color. The library only carries colors
/// through (stores them per cell and hands them back), so the type is
/// opaque here.
#[verifier::external_type_specification]
#[verifier::external_body]
pub struct ExColor(rdom_tui::Color);

/// `core::char::from_u32`: as its documentation says, the `char` whose
/// scalar value is `i` when `i` is a Unicode scalar value (at most
/// 0x10FFFF and outside the surrogate range 0xD800..=0xDFFF), else
/// `None`.
pub assume_specification[ core::char::from_u32 ](i: u32) -> (r: Option<char>)
    ensures
        r == (if i <= 0x10FFFF && !(0xD800 <= i <= 0xDFFF) {
            Some(i as char)
        } else {
            None
        }),
;

/// `String::push`: as its documentation says, appends `ch` to the end
/// of the string.
pub assume_specification[ String::push ](s: &mut String, ch: char)
    ensures
        final(s)@ == old(s)@.push(ch),
;

} // verus!
