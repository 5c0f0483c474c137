//! Document and panel command helpers.
use vstd::prelude::*;
use vstd::string::*;

pub mod color_lab;
pub mod panels;

verus! {

/// Largest accepted document width or height, in pixels.
pub const MAX_DOCUMENT_DIMENSION: u32 = 8192;

/// Validate both axes in `1..=MAX_DOCUMENT_DIMENSION`. No panic on bad input.
pub fn validate_document_dimensions(width: u32, height: u32) -> (r: Result<(), String>)
    ensures
        r is Ok <==> (1 <= width <= MAX_DOCUMENT_DIMENSION && 1 <= height <= MAX_DOCUMENT_DIMENSION),
        (width == 0 || height == 0) ==> (r matches Err(msg) && msg@
            == "Invalid state: image has zero dimensions"@),
        (width != 0 && height != 0 && (width > MAX_DOCUMENT_DIMENSION || height > MAX_DOCUMENT_DIMENSION))
            ==> (r matches Err(msg) && msg@ == dimensions_error_msg(width, height)),
{
    if width == 0 || height == 0 {
        return Err(String::from_str("Invalid state: image has zero dimensions"));
    }
    if width > MAX_DOCUMENT_DIMENSION || height > MAX_DOCUMENT_DIMENSION {
        return Err(dimensions_error(width, height));
    }
    Ok(())
}

/// `Invalid state: image dimensions {w}x{h} exceed maximum 8192x8192`.
pub open spec fn dimensions_error_msg(width: u32, height: u32) -> Seq<char> {
    "Invalid state: image dimensions "@ + crate::text::decimal(width as nat) + "x"@
        + crate::text::decimal(height as nat) + " exceed maximum "@ + crate::text::decimal(
        MAX_DOCUMENT_DIMENSION as nat,
    ) + "x"@ + crate::text::decimal(MAX_DOCUMENT_DIMENSION as nat)
}

fn dimensions_error(width: u32, height: u32) -> (r: String)
    ensures
        r@ == dimensions_error_msg(width, height),
{
    let mut s = String::from_str("Invalid state: image dimensions ");
    s.append(crate::text::decimal_string(width as usize).as_str());
    s.append("x");
    s.append(crate::text::decimal_string(height as usize).as_str());
    s.append(" exceed maximum ");
    s.append(crate::text::decimal_string(MAX_DOCUMENT_DIMENSION as usize).as_str());
    s.append("x");
    s.append(crate::text::decimal_string(MAX_DOCUMENT_DIMENSION as usize).as_str());
    s
}

} // verus!
