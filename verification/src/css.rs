//! The stylesheet served beside the query results.

use vstd::prelude::*;

verus! {

/// The page style, as one constant sheet: every call returns the same text.
pub fn style_css() -> (r: &'static str)
    ensures
        r@ == "body { font-family: sans-serif; margin: 2em auto; max-width: 40em; }\n"@,
{
    "body { font-family: sans-serif; margin: 2em auto; max-width: 40em; }\n"
}

} // verus!
