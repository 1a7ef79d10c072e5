//! Validation of the wire text of IP addresses and CIDR inets, as the
//! attachment records carry them. The `cidr` crate decides what parses;
//! the library only asks it.

use vstd::prelude::*;

use crate::strutil::contains_sub;
use crate::strutil::spec_contains_sub;

verus! {

/// Whether a text is a valid inet: an IP address with an optional
/// `/prefix`. `cidr::IpInet::from_str` defines this set; the reading is a
/// function of the text alone.
pub uninterp spec fn is_ip_inet_text(s: Seq<char>) -> bool;

/// Relies on `cidr::IpInet::from_str`: whether the text parses is a
/// function of the text alone.
#[verifier::external_body]
pub fn ip_inet_valid(s: &str) -> (r: bool)
    ensures
        r == is_ip_inet_text(s@),
{
    s.parse::<cidr::IpInet>().is_ok()
}

/// Whether a text is a bare IP address. Per `cidr`'s parser, a text without
/// a slash parses as an inet exactly when the standard address parser
/// accepts it as a host address.
pub open spec fn spec_is_ip_addr_text(s: Seq<char>) -> bool {
    !spec_contains_sub(s, seq!['/']) && is_ip_inet_text(s)
}

/// Whether the text is a bare IP address.
pub fn ip_addr_valid(s: &str) -> (r: bool)
    ensures
        r == spec_is_ip_addr_text(s@),
{
    proof {
        reveal_strlit("/");
        assert("/"@ =~= seq!['/']);
    }
    if contains_sub(s, "/") {
        return false;
    }
    ip_inet_valid(s)
}

} // verus!
