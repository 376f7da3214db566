//! The name-registration handshake: the rule that picks a session's
//! framing mode from the name line a fresh connection sends.

use vstd::prelude::*;
use vstd::string::StrSliceExecFns;

verus! {

/// The reserved marker that selects structured framing for a session.
pub const FRAMING_MARKER: char = '|';

/// Splits a raw name line into the session's framing mode and the stored
/// display name: a leading marker selects structured framing and is
/// stripped, anything else keeps text framing and the whole name.
pub fn negotiate_name(raw: &str) -> (r: (bool, String))
    ensures
        raw@.len() > 0 && raw@[0] == FRAMING_MARKER ==> r.0 && r.1@ == raw@.skip(1),
        !(raw@.len() > 0 && raw@[0] == FRAMING_MARKER) ==> !r.0 && r.1@ == raw@,
{
    let len = raw.unicode_len();
    if len > 0 && raw.get_char(0) == FRAMING_MARKER {
        let stripped = raw.substring_char(1, len);
        proof {
            assert(stripped@ =~= raw@.skip(1));
        }
        (true, stripped.to_owned())
    } else {
        (false, raw.to_owned())
    }
}

} // verus!
