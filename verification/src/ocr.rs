//! Text recognition interface point.
//!
//! Optical character recognition is performed by a platform vision facility
//! that this library does not link; the boundary layer that owns the facility
//! substitutes its own implementation. The library-side function exists so
//! that callers compiled against the library alone get a well-defined,
//! non-panicking answer: recognition is unavailable here.

use vstd::prelude::*;

verus! {

/// Reports that no text-recognition facility is linked into the library.
///
/// The boundary layer that owns a platform vision engine performs real
/// recognition; a caller that reaches this function instead always receives
/// an error naming the limitation.
pub fn recognize_text_from_image(image_path: &str) -> (r: Result<String, String>)
    ensures
        r is Err,
        r->Err_0@ == "OCR is only supported on macOS"@,
{
    let _ = image_path;
    Err("OCR is only supported on macOS".to_owned())
}

} // verus!
