use crate::model::{Protocol, Target};
use vstd::prelude::*;
use vstd::string::*;

verus! {

/// Port a TCP probe connects to when the target names none.
pub const DEFAULT_TCP_PORT: u16 = 80;

/// Resolver port a DNS probe queries when the target names none.
pub const DEFAULT_DNS_PORT: u16 = 53;

/// Decimal digits of `n`, most significant first, without leading zeros.
pub open spec fn decimal(n: nat) -> Seq<char>
    decreases n,
{
    let digits = seq!['0', '1', '2', '3', '4', '5', '6', '7', '8', '9'];
    if n < 10 {
        seq![digits[n as int]]
    } else {
        decimal(n / 10).push(digits[(n % 10) as int])
    }
}

/// Relies on `u16`'s `Display` through `to_string`: plain decimal digits.
#[verifier::external_body]
fn decimal_text(n: u16) -> (r: String)
    ensures
        r@ == decimal(n as nat),
{
    n.to_string()
}

/// Port a probe of `t` uses: the target's own, else the protocol's default
/// (80 for TCP, 53 for DNS); none for the other protocols.
pub open spec fn effective_port(t: Target) -> Option<u16> {
    match t.port {
        Some(p) => Some(p),
        None => match t.protocol {
            Protocol::Tcp => Some(80u16),
            Protocol::Dns => Some(53u16),
            _ => None,
        },
    }
}

/// Port a probe of `t` uses.
pub fn probe_port(t: &Target) -> (r: Option<u16>)
    ensures
        r == effective_port(*t),
{
    match t.port {
        Some(p) => Some(p),
        None => match t.protocol {
            Protocol::Tcp => Some(DEFAULT_TCP_PORT),
            Protocol::Dns => Some(DEFAULT_DNS_PORT),
            _ => None,
        },
    }
}

/// `host:port` that a TCP probe connects to.
pub fn tcp_address(t: &Target) -> (r: String)
    ensures
        r@ == t.host@ + ":"@ + decimal(
            match t.port {
                Some(p) => p as nat,
                None => 80nat,
            },
        ),
{
    let port = match t.port {
        Some(p) => p,
        None => DEFAULT_TCP_PORT,
    };
    let digits = decimal_text(port);
    let s = t.host.clone();
    let s = s.concat(":");
    s.concat(digits.as_str())
}

/// `s` contains the text `://` somewhere.
pub open spec fn has_scheme(s: Seq<char>) -> bool {
    exists|i: int| 0 <= i && i + 3 <= s.len() && #[trigger] s.subrange(i, i + 3) == "://"@
}

/// Whether a host string already carries a URL scheme.
pub fn contains_scheme(s: &String) -> (r: bool)
    ensures
        r == has_scheme(s@),
{
    let text = s.as_str();
    let n = text.unicode_len();
    if n < 3 {
        return false;
    }
    proof {
        reveal_strlit("://");
    }
    let ghost pat = "://"@;
    assert(pat =~= seq![':', '/', '/']);
    let mut i: usize = 0;
    while i < n - 2
        invariant
            n == s@.len(),
            text@ == s@,
            n >= 3,
            i <= n - 2,
            pat == seq![':', '/', '/'],
            pat == "://"@,
            forall|j: int| 0 <= j < i ==> #[trigger] s@.subrange(j, j + 3) != "://"@,
        decreases n - i,
    {
        if text.get_char(i) == ':' && text.get_char(i + 1) == '/' && text.get_char(i + 2) == '/' {
            assert(s@.subrange(i as int, i + 3) =~= pat);
            return true;
        }
        assert(s@.subrange(i as int, i + 3) != pat) by {
            if s@.subrange(i as int, i + 3) == pat {
                assert(s@.subrange(i as int, i + 3)[0] == s@[i as int]);
                assert(s@.subrange(i as int, i + 3)[1] == s@[i + 1]);
                assert(s@.subrange(i as int, i + 3)[2] == s@[i + 2]);
            }
        }
        i = i + 1;
    }
    assert forall|j: int| 0 <= j && j + 3 <= s@.len() implies #[trigger] s@.subrange(j, j + 3) != "://"@ by {
        assert(j < i);
    }
    false
}

/// URL an HTTP or HTTPS probe fetches: the host itself when it carries a
/// scheme, else `scheme://host` with `:port` when a port is set.
pub open spec fn probe_url(t: Target) -> Seq<char> {
    if has_scheme(t.host@) {
        t.host@
    } else {
        let scheme = match t.protocol {
            Protocol::Https => "https"@,
            _ => "http"@,
        };
        let base = scheme + "://"@ + t.host@;
        match t.port {
            Some(p) => base + ":"@ + decimal(p as nat),
            None => base,
        }
    }
}

/// URL an HTTP or HTTPS probe fetches.
pub fn http_url(t: &Target) -> (r: String)
    ensures
        r@ == probe_url(*t),
{
    if contains_scheme(&t.host) {
        return t.host.clone();
    }
    let scheme = match t.protocol {
        Protocol::Https => "https".to_owned(),
        _ => "http".to_owned(),
    };
    let base = scheme.concat("://").concat(t.host.as_str());
    match t.port {
        Some(p) => {
            let digits = decimal_text(p);
            base.concat(":").concat(digits.as_str())
        },
        None => base,
    }
}

} // verus!
