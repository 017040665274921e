//! What the canvas bridge computes before it draws.

use crate::text::{lower_hex6, lower_hex6_text};
use vstd::prelude::*;
use vstd::string::*;

verus! {

/// The CSS notation of the red, green and blue bytes of a packed colour.
pub open spec fn css_color_text(color: u32) -> Seq<char> {
    "#"@ + lower_hex6_text(color)
}

/// Writes a packed colour as a CSS colour: a hash sign and six lower-case
/// hexadecimal digits. The alpha byte is dropped.
pub fn css_color(color: u32) -> (css: String)
    ensures
        css@ == css_color_text(color),
{
    let mut css = String::from_str("#");
    css.append(lower_hex6(color).as_str());
    css
}

} // verus!
