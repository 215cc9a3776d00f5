//! Multisampling of the main HDR pass.

use vstd::prelude::*;

verus! {

/// MSAA sample count of the main HDR pass, from what the adapter supports for the HDR colour
/// format: 1 when it cannot resolve multisampled targets; otherwise 4, else 2 when supported
/// (the depth attachment must share the count, and only 1 and 4 are guaranteed for it), else 1.
pub fn pick_hdr_main_pass_msaa(multisample_resolve: bool, supports_4: bool, supports_2: bool) -> (r: u32)
    ensures
        r == (if !multisample_resolve {
            1u32
        } else if supports_4 {
            4u32
        } else if supports_2 {
            2u32
        } else {
            1u32
        }),
{
    if !multisample_resolve {
        return 1;
    }
    if supports_4 {
        4
    } else if supports_2 {
        2
    } else {
        1
    }
}

} // verus!
