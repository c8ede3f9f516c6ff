//! Download-side rules: which URLs may be fetched, and how download progress is tallied.
use crate::text::{chars_of, ci_char_eq, ci_char_eq_exec};
use vstd::prelude::*;
use vstd::string::*;

verus! {

/// An IP address: four octets, or eight 16-bit segments.
pub enum IpAddress {
    V4([u8; 4]),
    V6([u16; 8]),
}

/// An IPv4 address in a private, loopback, link-local, broadcast, multicast or unspecified range.
pub open spec fn v4_forbidden(o: [u8; 4]) -> bool {
    let (a, b, c, d) = (o[0], o[1], o[2], o[3]);
    ||| a == 10
    ||| a == 172 && 16 <= b && b <= 31
    ||| a == 192 && b == 168
    ||| a == 127
    ||| a == 169 && b == 254
    ||| a == 255 && b == 255 && c == 255 && d == 255
    ||| 224 <= a && a <= 239
    ||| a == 0 && b == 0 && c == 0 && d == 0
}

/// An IPv6 address of the form `::ffff:a.b.c.d`.
pub open spec fn v6_is_mapped(s: [u16; 8]) -> bool {
    s[0] == 0 && s[1] == 0 && s[2] == 0 && s[3] == 0 && s[4] == 0 && s[5] == 0xffff
}

/// The IPv4 address that a mapped IPv6 address carries.
pub open spec fn v6_mapped_octets(s: [u16; 8]) -> [u8; 4] {
    [(s[6] >> 8) as u8, (s[6] & 0xff) as u8, (s[7] >> 8) as u8, (s[7] & 0xff) as u8]
}

/// An IPv6 address that must not be fetched: a mapped IPv4 address is judged by the IPv4
/// rules; any other one is forbidden when it is loopback, unspecified, multicast, unique
/// local or unicast link-local.
pub open spec fn v6_forbidden(s: [u16; 8]) -> bool {
    if v6_is_mapped(s) {
        v4_forbidden(v6_mapped_octets(s))
    } else {
        let zero_head = s[0] == 0 && s[1] == 0 && s[2] == 0 && s[3] == 0 && s[4] == 0 && s[5] == 0
            && s[6] == 0;
        ||| zero_head && s[7] == 1
        ||| zero_head && s[7] == 0
        ||| s[0] & 0xff00 == 0xff00
        ||| s[0] & 0xfe00 == 0xfc00
        ||| s[0] & 0xffc0 == 0xfe80
    }
}

impl IpAddress {
    pub open spec fn forbidden(&self) -> bool {
        match self {
            IpAddress::V4(o) => v4_forbidden(*o),
            IpAddress::V6(s) => v6_forbidden(*s),
        }
    }
}

fn v4_forbidden_exec(o: [u8; 4]) -> (r: bool)
    ensures
        r == v4_forbidden(o),
{
    let a = o[0];
    let b = o[1];
    let c = o[2];
    let d = o[3];
    a == 10 || (a == 172 && 16 <= b && b <= 31) || (a == 192 && b == 168) || a == 127 || (a == 169
        && b == 254) || (a == 255 && b == 255 && c == 255 && d == 255) || (224 <= a && a <= 239) || (
    a == 0 && b == 0 && c == 0 && d == 0)
}

/// Whether an address is private, local, multicast, broadcast or unspecified, and so must
/// not be fetched from.
pub fn is_forbidden_ip(ip: &IpAddress) -> (r: bool)
    ensures
        r == ip.forbidden(),
{
    match ip {
        IpAddress::V4(o) => v4_forbidden_exec(*o),
        IpAddress::V6(s) => {
            let s = *s;
            if s[0] == 0 && s[1] == 0 && s[2] == 0 && s[3] == 0 && s[4] == 0 && s[5] == 0xffff {
                let m: [u8; 4] = [(s[6] >> 8) as u8, (s[6] & 0xff) as u8, (s[7] >> 8) as u8, (s[7] & 0xff) as u8];
                assert(m@ =~= v6_mapped_octets(s)@);
                v4_forbidden_exec(m)
            } else {
                let zero_head = s[0] == 0 && s[1] == 0 && s[2] == 0 && s[3] == 0 && s[4] == 0 && s[5]
                    == 0 && s[6] == 0;
                (zero_head && s[7] == 1) || (zero_head && s[7] == 0) || s[0] & 0xff00 == 0xff00 || s[0]
                    & 0xfe00 == 0xfc00 || s[0] & 0xffc0 == 0xfe80
            }
        },
    }
}

/// The host of a URL as the URL parser reports it.
pub enum UrlHost {
    Domain(String),
    Ipv4([u8; 4]),
    Ipv6([u16; 8]),
}

/// What the URL parser reports of a host, as plain values.
pub ghost enum HostView {
    Domain(Seq<char>),
    Ipv4([u8; 4]),
    Ipv6([u16; 8]),
}

impl View for UrlHost {
    type V = HostView;

    open spec fn view(&self) -> HostView {
        match self {
            UrlHost::Domain(d) => HostView::Domain(d@),
            UrlHost::Ipv4(o) => HostView::Ipv4(*o),
            UrlHost::Ipv6(s) => HostView::Ipv6(*s),
        }
    }
}

/// The parts of a parsed URL that the download rules read.
pub struct ParsedUrl {
    pub scheme: String,
    pub host: Option<UrlHost>,
    /// The explicit port, or the scheme's default port when it has one.
    pub port: Option<u16>,
}

pub ghost struct UrlView {
    pub scheme: Seq<char>,
    pub host: Option<HostView>,
    pub port: Option<u16>,
}

impl View for ParsedUrl {
    type V = UrlView;

    open spec fn view(&self) -> UrlView {
        UrlView {
            scheme: self.scheme@,
            host: match self.host {
                Some(h) => Some(h@),
                None => None,
            },
            port: self.port,
        }
    }
}

/// What `url::Url::parse` makes of a text: `None` when it is not a URL, else its scheme,
/// host and port (or the scheme's default port).
pub uninterp spec fn parsed_url(s: Seq<char>) -> Option<UrlView>;

/// Relies on `url::Url::parse`, with `Url::scheme`, `Url::host` and
/// `Url::port_or_known_default` read from its result: what it reports depends on the
/// text alone.
#[verifier::external_body]
fn parse_url(s: &str) -> (r: Option<ParsedUrl>)
    ensures
        r matches Some(p) ==> parsed_url(s@) == Some(p@),
        r is None ==> parsed_url(s@) is None,
{
    let u = match url::Url::parse(s) {
        Ok(u) => u,
        Err(_) => return None,
    };
    let host = match u.host() {
        Some(url::Host::Domain(d)) => Some(UrlHost::Domain(d.to_string())),
        Some(url::Host::Ipv4(a)) => Some(UrlHost::Ipv4(a.octets())),
        Some(url::Host::Ipv6(a)) => Some(UrlHost::Ipv6(a.segments())),
        None => None,
    };
    Some(ParsedUrl { scheme: u.scheme().to_string(), host, port: u.port_or_known_default() })
}

/// Why a download URL is refused.
#[derive(PartialEq, Eq, Structural, Clone, Copy, Debug)]
pub enum UrlError {
    Invalid,
    Scheme,
    NoHost,
    PrivateAddress,
    Localhost,
    Unresolved,
}

impl UrlError {
    pub open spec fn text(self) -> Seq<char> {
        match self {
            UrlError::Invalid => "Invalid URL"@,
            UrlError::Scheme => "Only HTTP/HTTPS URLs are allowed"@,
            UrlError::NoHost => "URL must include a hostname"@,
            UrlError::PrivateAddress => "Private or local IPs are not allowed"@,
            UrlError::Localhost => "Localhost addresses are not allowed"@,
            UrlError::Unresolved => "Failed to resolve download host"@,
        }
    }

    /// The human-readable reason.
    pub fn message(&self) -> (r: String)
        ensures
            r@ == self.text(),
    {
        match self {
            UrlError::Invalid => String::from_str("Invalid URL"),
            UrlError::Scheme => String::from_str("Only HTTP/HTTPS URLs are allowed"),
            UrlError::NoHost => String::from_str("URL must include a hostname"),
            UrlError::PrivateAddress => String::from_str("Private or local IPs are not allowed"),
            UrlError::Localhost => String::from_str("Localhost addresses are not allowed"),
            UrlError::Unresolved => String::from_str("Failed to resolve download host"),
        }
    }
}

/// A URL that passed the checks that need no name lookup.
pub enum UrlCheck {
    /// The host is a literal address that may be fetched from.
    Allowed,
    /// The host is a domain name: each address it resolves to must still be checked.
    Resolve { host: String, port: u16 },
}

pub ghost enum UrlCheckView {
    Allowed,
    Resolve(Seq<char>, u16),
}

impl View for UrlCheck {
    type V = UrlCheckView;

    open spec fn view(&self) -> UrlCheckView {
        match self {
            UrlCheck::Allowed => UrlCheckView::Allowed,
            UrlCheck::Resolve { host, port } => UrlCheckView::Resolve(host@, *port),
        }
    }
}

/// A host name that designates the local machine or network: `localhost`, or one ending in
/// `.localhost` or `.local`, in any ASCII case.
pub open spec fn is_local_name(d: Seq<char>) -> bool {
    ||| ci_word_at(d, 0, "LOCALHOST"@) && d.len() == 9
    ||| d.len() >= 10 && ci_word_at(d, d.len() - 10, ".LOCALHOST"@)
    ||| d.len() >= 6 && ci_word_at(d, d.len() - 6, ".LOCAL"@)
}

/// `d` holds the upper-case word `w` at `start`, ignoring ASCII case.
pub open spec fn ci_word_at(d: Seq<char>, start: int, w: Seq<char>) -> bool {
    0 <= start && start + w.len() <= d.len() && forall|k: int|
        0 <= k < w.len() ==> ci_char_eq(#[trigger] d[start + k], w[k])
}

fn ci_word_at_exec(d: &[char], start: usize, w: &str) -> (r: bool)
    requires
        w.is_ascii(),
    ensures
        r == ci_word_at(d@, start as int, w@),
{
    let n = w.unicode_len();
    let dl = d.len();
    if start > dl || n > dl - start {
        return false;
    }
    let mut k: usize = 0;
    while k < n
        invariant
            n == w@.len(),
            w.is_ascii(),
            dl == d@.len(),
            start + n <= d@.len(),
            k <= n,
            forall|j: int| 0 <= j < k ==> ci_char_eq(#[trigger] d@[start + j], w@[j]),
        decreases n - k,
    {
        if !ci_char_eq_exec(d[start + k], w.get_char(k)) {
            return false;
        }
        k = k + 1;
    }
    true
}

fn is_local_name_exec(d: &str) -> (r: bool)
    ensures
        r == is_local_name(d@),
{
    let cs = chars_of(d);
    let n = cs.len();
    proof {
        reveal_strlit("LOCALHOST");
        reveal_strlit(".LOCALHOST");
        reveal_strlit(".LOCAL");
    }
    (n == 9 && ci_word_at_exec(cs.as_slice(), 0, "LOCALHOST")) || (n >= 10 && ci_word_at_exec(
        cs.as_slice(),
        n - 10,
        ".LOCALHOST",
    )) || (n >= 6 && ci_word_at_exec(cs.as_slice(), n - 6, ".LOCAL"))
}

/// The verdict on a parsed URL before any name lookup.
pub open spec fn url_verdict(p: Option<UrlView>) -> Result<UrlCheckView, UrlError> {
    match p {
        None => Err(UrlError::Invalid),
        Some(u) => if !(u.scheme == "http"@ || u.scheme == "https"@) {
            Err(UrlError::Scheme)
        } else {
            match u.host {
                None => Err(UrlError::NoHost),
                Some(HostView::Ipv4(o)) => if v4_forbidden(o) {
                    Err(UrlError::PrivateAddress)
                } else {
                    Ok(UrlCheckView::Allowed)
                },
                Some(HostView::Ipv6(s)) => if v6_forbidden(s) {
                    Err(UrlError::PrivateAddress)
                } else {
                    Ok(UrlCheckView::Allowed)
                },
                Some(HostView::Domain(d)) => if is_local_name(d) {
                    Err(UrlError::Localhost)
                } else {
                    Ok(
                        UrlCheckView::Resolve(
                            d,
                            match u.port {
                                Some(port) => port,
                                None => 80,
                            },
                        ),
                    )
                },
            }
        },
    }
}

pub open spec fn check_view(r: Result<UrlCheck, UrlError>) -> Result<UrlCheckView, UrlError> {
    match r {
        Ok(c) => Ok(c@),
        Err(e) => Err(e),
    }
}

/// Applies the download rules to what the URL parser reported: only http and https URLs
/// with a host; a literal address must not be private or local, and a domain name must not
/// name the local machine. A domain that passes still has to be resolved and its addresses
/// checked with [`check_resolved_addresses`].
pub fn check_parsed_url(p: Option<ParsedUrl>) -> (r: Result<UrlCheck, UrlError>)
    ensures
        check_view(r) == url_verdict(match p {
            Some(u) => Some(u@),
            None => None,
        }),
{
    let u = match p {
        None => return Err(UrlError::Invalid),
        Some(u) => u,
    };
    if !(crate::text::str_eq(u.scheme.as_str(), "http") || crate::text::str_eq(u.scheme.as_str(), "https")) {
        return Err(UrlError::Scheme);
    }
    match u.host {
        None => Err(UrlError::NoHost),
        Some(UrlHost::Ipv4(o)) => if is_forbidden_ip(&IpAddress::V4(o)) {
            Err(UrlError::PrivateAddress)
        } else {
            Ok(UrlCheck::Allowed)
        },
        Some(UrlHost::Ipv6(s)) => if is_forbidden_ip(&IpAddress::V6(s)) {
            Err(UrlError::PrivateAddress)
        } else {
            Ok(UrlCheck::Allowed)
        },
        Some(UrlHost::Domain(d)) => if is_local_name_exec(d.as_str()) {
            Err(UrlError::Localhost)
        } else {
            let port = match u.port {
                Some(port) => port,
                None => 80,
            };
            Ok(UrlCheck::Resolve { host: d, port })
        },
    }
}

/// Checks a download URL as far as it can be checked without a name lookup.
pub fn check_download_url(url: &str) -> (r: Result<UrlCheck, UrlError>)
    ensures
        check_view(r) == url_verdict(parsed_url(url@)),
{
    check_parsed_url(parse_url(url))
}

/// The verdict on the addresses a domain name resolved to: none at all, or any forbidden
/// one, refuses the download.
pub open spec fn addresses_verdict(addrs: Seq<IpAddress>) -> Result<(), UrlError> {
    if exists|i: int| 0 <= i < addrs.len() && (#[trigger] addrs[i]).forbidden() {
        Err(UrlError::PrivateAddress)
    } else if addrs.len() == 0 {
        Err(UrlError::Unresolved)
    } else {
        Ok(())
    }
}

/// Checks every address that a download host resolved to.
pub fn check_resolved_addresses(addrs: &Vec<IpAddress>) -> (r: Result<(), UrlError>)
    ensures
        r == addresses_verdict(addrs@),
{
    let mut i: usize = 0;
    while i < addrs.len()
        invariant
            i <= addrs@.len(),
            forall|j: int| 0 <= j < i ==> !(#[trigger] addrs@[j]).forbidden(),
        decreases addrs@.len() - i,
    {
        if is_forbidden_ip(&addrs[i]) {
            return Err(UrlError::PrivateAddress);
        }
        i = i + 1;
    }
    if addrs.len() == 0 {
        Err(UrlError::Unresolved)
    } else {
        Ok(())
    }
}

} // verus!
