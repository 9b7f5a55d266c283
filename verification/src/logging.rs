//! Log filter directives: a bare level also silences the noisy netlink route
//! dependency, explicit directives are kept as written.

use vstd::prelude::*;
use vstd::string::*;
use crate::text::{trim, has_infix};

verus! {

/// A filter written with explicit directives (`target=level`) or several
/// parts (`,`), which is kept as written.
pub open spec fn is_explicit_filter(t: Seq<char>) -> bool {
    t.contains('=') || t.contains(',')
}

/// The directive list for a bare level.
pub open spec fn spec_default_filter(level: Seq<char>) -> Seq<char> {
    level + ",netlink_packet_route=error"@
}

/// The filter actually installed for a configured one.
pub open spec fn spec_normalize_filter(filter: Seq<char>) -> Seq<char> {
    let t = trim(filter);
    if t.len() == 0 {
        spec_default_filter("info"@)
    } else if is_explicit_filter(t) {
        t
    } else {
        spec_default_filter(t)
    }
}

pub fn default_filter(level: &str) -> (r: String)
    ensures
        r@ == spec_default_filter(level@),
{
    let mut out = String::from_str(level);
    out.append(",netlink_packet_route=error");
    out
}

pub fn normalize_filter(filter: &str) -> (r: String)
    ensures
        r@ == spec_normalize_filter(filter@),
{
    let t = crate::text::trimmed(filter);
    if t.len() == 0 {
        return default_filter("info");
    }
    let has_eq = crate::text::find_char(&t, '=').is_some();
    let has_comma = crate::text::find_char(&t, ',').is_some();
    proof {
        if t@.contains('=') {
            let k = choose|k: int| 0 <= k < t@.len() && t@[k] == '=';
            assert(t@[k] == '=');
        }
        if t@.contains(',') {
            let k = choose|k: int| 0 <= k < t@.len() && t@[k] == ',';
            assert(t@[k] == ',');
        }
    }
    let s = crate::text::string_of(&t);
    if has_eq || has_comma {
        return s;
    }
    default_filter(s.as_str())
}

} // verus!
