//! Syntax-highlighting themes: which theme files are supported.

use crate::text::decode;
use vstd::prelude::*;

verus! {

/// Whether a theme file with this extension is supported: only `json` is.
pub fn is_supported_extension(extension: &str) -> (b: bool)
    ensures
        b == (extension@ == "json"@),
{
    proof {
        reveal_strlit("json");
    }
    let scalars = decode(extension);
    let b = scalars.len() == 4 && scalars[0] == 'j' && scalars[1] == 's' && scalars[2] == 'o'
        && scalars[3] == 'n';
    proof {
        if b {
            assert(extension@ =~= "json"@);
        }
    }
    b
}

} // verus!
