//! The request that upgrades a connection to the Pocket Relay server into
//! the pipe that carries the game's main (Blaze) connection.
use crate::text::{append_decimal, decimal};
use vstd::prelude::*;

verus! {

/// Where the Pocket Relay server was found.
pub struct LookupData {
    /// Scheme of the server's address (`http` or `https`).
    pub scheme: String,
    /// Host of the server.
    pub host: String,
    /// Port of the server.
    pub port: u16,
}

/// A request header: its name and its value.
pub struct Header {
    /// Name of the header.
    pub name: &'static str,
    /// Value of the header.
    pub value: String,
}

impl View for Header {
    type V = (Seq<char>, Seq<char>);

    open spec fn view(&self) -> (Seq<char>, Seq<char>) {
        (self.name@, self.value@)
    }
}

/// Header that tells the server the scheme the client reached it with.
pub const HEADER_SCHEME: &'static str = "X-Pocket-Relay-Scheme";

/// Header that tells the server the port the client reached it on.
pub const HEADER_PORT: &'static str = "X-Pocket-Relay-Port";

/// Header that tells the server the host the client reached it at.
pub const HEADER_HOST: &'static str = "X-Pocket-Relay-Host";

/// Path of the endpoint that upgrades the connection.
pub const UPGRADE_ENDPOINT: &'static str = "/api/server/upgrade";

/// Whether a character may stand in a header value: a tab, or any character
/// from the space on but DEL. (A character beyond ASCII is encoded in bytes
/// from 0x80 on, which are all allowed.)
pub open spec fn is_header_value_char(c: char) -> bool {
    c == '\t' || (c as u32 >= 32 && c as u32 != 127)
}

/// Whether `s` is a valid header value.
pub open spec fn is_header_value(s: Seq<char>) -> bool {
    forall|i: int| 0 <= i < s.len() ==> is_header_value_char(#[trigger] s[i])
}

/// `reqwest::header::HeaderValue::from_str` (the `http` crate's): succeeds
/// exactly when every byte of `s` is a tab or at least 32 and not 127, that
/// is, when `s` is a valid header value. Only whether it succeeds is used.
#[verifier::external_body]
fn header_value_accepted(s: &str) -> (accepted: bool)
    ensures
        accepted == is_header_value(s@),
{
    reqwest::header::HeaderValue::from_str(s).is_ok()
}

/// The URL of the upgrade endpoint of the server described by `target`.
pub open spec fn spec_upgrade_url(scheme: Seq<char>, host: Seq<char>, port: u16) -> Seq<char> {
    scheme + "://"@ + host + ":"@ + decimal(port as nat) + UPGRADE_ENDPOINT@
}

/// The headers of the upgrade request: the connection upgrade to the Blaze
/// protocol, then the scheme, port and host that the client used, the scheme
/// and host only when they are valid header values.
pub open spec fn spec_upgrade_headers(scheme: Seq<char>, host: Seq<char>, port: u16) -> Seq<
    (Seq<char>, Seq<char>),
> {
    seq![("connection"@, "Upgrade"@), ("upgrade"@, "blaze"@)] + (if is_header_value(scheme) {
        seq![(HEADER_SCHEME@, scheme)]
    } else {
        Seq::empty()
    }) + seq![(HEADER_PORT@, decimal(port as nat))] + (if is_header_value(host) {
        seq![(HEADER_HOST@, host)]
    } else {
        Seq::empty()
    })
}

/// Whether the header `name` appears in `headers` with the value `value`.
pub open spec fn has_header(headers: Seq<(Seq<char>, Seq<char>)>, name: Seq<char>, value: Seq<char>) -> bool {
    exists|i: int| 0 <= i < headers.len() && #[trigger] headers[i] == (name, value)
}

/// Whether every header `name` in `headers` has the value `value`.
pub open spec fn only_value(headers: Seq<(Seq<char>, Seq<char>)>, name: Seq<char>, value: Seq<char>) -> bool {
    forall|i: int| 0 <= i < headers.len() && #[trigger] headers[i].0 == name ==> headers[i].1 == value
}

/// What the upgrade headers tell the server: the connection is upgraded to
/// `blaze`; the scheme header carries the target's scheme itself, and is there
/// exactly when the scheme is a valid header value; the same for the host; the
/// port header carries the port's decimal text.
pub open spec fn headers_carry_target(headers: Seq<(Seq<char>, Seq<char>)>, scheme: Seq<char>, host: Seq<char>, port: u16) -> bool {
    &&& headers.len() >= 3
    &&& headers[0] == ("connection"@, "Upgrade"@)
    &&& headers[1] == ("upgrade"@, "blaze"@)
    &&& only_value(headers, HEADER_SCHEME@, scheme)
    &&& (is_header_value(scheme) <==> has_header(headers, HEADER_SCHEME@, scheme))
    &&& only_value(headers, HEADER_HOST@, host)
    &&& (is_header_value(host) <==> has_header(headers, HEADER_HOST@, host))
    &&& only_value(headers, HEADER_PORT@, decimal(port as nat))
    &&& has_header(headers, HEADER_PORT@, decimal(port as nat))
}

/// The upgrade headers carry the target's scheme, host and port (see
/// `headers_carry_target`).
pub proof fn lemma_upgrade_headers_carry_target(scheme: Seq<char>, host: Seq<char>, port: u16)
    ensures
        headers_carry_target(spec_upgrade_headers(scheme, host, port), scheme, host, port),
{
    reveal_strlit("connection");
    reveal_strlit("upgrade");
    reveal_strlit("X-Pocket-Relay-Scheme");
    reveal_strlit("X-Pocket-Relay-Port");
    reveal_strlit("X-Pocket-Relay-Host");
    let h = spec_upgrade_headers(scheme, host, port);
    let s_part: Seq<(Seq<char>, Seq<char>)> = if is_header_value(scheme) {
        seq![(HEADER_SCHEME@, scheme)]
    } else {
        Seq::empty()
    };
    let h_part: Seq<(Seq<char>, Seq<char>)> = if is_header_value(host) {
        seq![(HEADER_HOST@, host)]
    } else {
        Seq::empty()
    };
    let p: int = 2 + s_part.len() as int;
    assert(h == seq![("connection"@, "Upgrade"@), ("upgrade"@, "blaze"@)] + s_part + seq![(HEADER_PORT@, decimal(port as nat))] + h_part);
    assert(HEADER_SCHEME@ != HEADER_PORT@ && HEADER_SCHEME@ != HEADER_HOST@ && HEADER_PORT@ != HEADER_HOST@) by {
        assert(HEADER_SCHEME@[15] != HEADER_PORT@[15]);
        assert(HEADER_SCHEME@[15] != HEADER_HOST@[15]);
        assert(HEADER_PORT@[15] != HEADER_HOST@[15]);
    }
    assert("connection"@ != HEADER_SCHEME@ && "connection"@ != HEADER_PORT@ && "connection"@ != HEADER_HOST@) by {
        assert("connection"@.len() != HEADER_SCHEME@.len());
        assert("connection"@.len() != HEADER_PORT@.len());
        assert("connection"@.len() != HEADER_HOST@.len());
    }
    assert("upgrade"@ != HEADER_SCHEME@ && "upgrade"@ != HEADER_PORT@ && "upgrade"@ != HEADER_HOST@) by {
        assert("upgrade"@.len() != HEADER_SCHEME@.len());
        assert("upgrade"@.len() != HEADER_PORT@.len());
        assert("upgrade"@.len() != HEADER_HOST@.len());
    }
    assert(h[p] == (HEADER_PORT@, decimal(port as nat)));
    if is_header_value(scheme) {
        assert(h[2] == (HEADER_SCHEME@, scheme));
    }
    if is_header_value(host) {
        assert(h[p + 1] == (HEADER_HOST@, host));
    }
    assert(h.len() == p + 1 + h_part.len());
    assert forall|i: int| 0 <= i < h.len() implies (#[trigger] h[i].0 == HEADER_SCHEME@ ==> h[i].1 == scheme)
        && (h[i].0 == HEADER_HOST@ ==> h[i].1 == host) && (h[i].0 == HEADER_PORT@ ==> h[i].1 == decimal(
        port as nat,
    )) by {
        if i < 2 {
        } else if i < p {
            assert(h[i] == s_part[i - 2]);
        } else if i == p {
        } else {
            assert(h[i] == h_part[i - p - 1]);
        }
    }
    if !is_header_value(scheme) {
        assert forall|i: int| 0 <= i < h.len() implies #[trigger] h[i] != (HEADER_SCHEME@, scheme) by {
            if i < 2 {
            } else if i == p {
            } else if i > p {
                assert(h[i] == h_part[i - p - 1]);
            }
        }
    }
    if !is_header_value(host) {
        assert forall|i: int| 0 <= i < h.len() implies #[trigger] h[i] != (HEADER_HOST@, host) by {
            if i < 2 {
            } else if i < p {
                assert(h[i] == s_part[i - 2]);
            } else if i == p {
            }
        }
    }
}

/// Whether `url` is, in order: the scheme, `://`, the host, `:`, the port's
/// decimal text, and the path `/api/server/upgrade`.
pub open spec fn url_has_parts(url: Seq<char>, scheme: Seq<char>, host: Seq<char>, port: u16) -> bool {
    let a = scheme.len() as int;
    let b = a + 3 + host.len();
    let digits = decimal(port as nat);
    &&& url.len() == b + 1 + digits.len() + 19
    &&& url.subrange(0, a) == scheme
    &&& url.subrange(a, a + 3) == seq![':', '/', '/']
    &&& url.subrange(a + 3, b) == host
    &&& url[b] == ':'
    &&& url.subrange(b + 1, b + 1 + digits.len()) == digits
    &&& url.subrange(b + 1 + digits.len(), url.len() as int) == seq![
        '/', 'a', 'p', 'i', '/', 's', 'e', 'r', 'v', 'e', 'r', '/', 'u', 'p', 'g', 'r', 'a', 'd', 'e',
    ]
}

/// The upgrade URL is the scheme, `://`, the host, `:`, the port in decimal,
/// and the upgrade endpoint's path.
pub proof fn lemma_upgrade_url_parts(scheme: Seq<char>, host: Seq<char>, port: u16)
    ensures
        url_has_parts(spec_upgrade_url(scheme, host, port), scheme, host, port),
{
    reveal_strlit("://");
    reveal_strlit(":");
    reveal_strlit("/api/server/upgrade");
    let u = spec_upgrade_url(scheme, host, port);
    let a = scheme.len() as int;
    let b = a + 3 + host.len();
    let digits = decimal(port as nat);
    assert(u.subrange(0, a) =~= scheme);
    assert(u.subrange(a, a + 3) =~= seq![':', '/', '/']);
    assert(u.subrange(a + 3, b) =~= host);
    assert(u.subrange(b + 1, b + 1 + digits.len()) =~= digits);
    assert(u.subrange(b + 1 + digits.len(), u.len() as int) =~= seq![
        '/', 'a', 'p', 'i', '/', 's', 'e', 'r', 'v', 'e', 'r', '/', 'u', 'p', 'g', 'r', 'a', 'd', 'e',
    ]);
}

/// Builds the URL of the upgrade endpoint:
/// `{scheme}://{host}:{port}/api/server/upgrade`.
pub fn upgrade_url(target: &LookupData) -> (url: String)
    ensures
        url@ == spec_upgrade_url(target.scheme@, target.host@, target.port),
        url_has_parts(url@, target.scheme@, target.host@, target.port),
{
    proof {
        lemma_upgrade_url_parts(target.scheme@, target.host@, target.port);
    }
    let mut url = target.scheme.clone();
    url.append("://");
    url.append(target.host.as_str());
    url.append(":");
    append_decimal(&mut url, target.port as u32);
    url.append(UPGRADE_ENDPOINT);
    url
}

/// The decimal text of `n`.
fn decimal_string(n: u16) -> (s: String)
    ensures
        s@ == decimal(n as nat),
{
    let mut s = String::new();
    append_decimal(&mut s, n as u32);
    assert(s@ =~= decimal(n as nat));
    s
}

/// Builds the headers of the upgrade request (see `spec_upgrade_headers`).
pub fn upgrade_headers(target: &LookupData) -> (headers: Vec<Header>)
    ensures
        headers@.map_values(|h: Header| h@) == spec_upgrade_headers(
            target.scheme@,
            target.host@,
            target.port,
        ),
        headers_carry_target(headers@.map_values(|h: Header| h@), target.scheme@, target.host@, target.port),
{
    proof {
        lemma_upgrade_headers_carry_target(target.scheme@, target.host@, target.port);
    }
    let mut headers: Vec<Header> = Vec::new();
    headers.push(Header { name: "connection", value: String::from_str("Upgrade") });
    headers.push(Header { name: "upgrade", value: String::from_str("blaze") });
    let ghost first = headers@.map_values(|h: Header| h@);
    assert(first =~= seq![("connection"@, "Upgrade"@), ("upgrade"@, "blaze"@)]);
    if header_value_accepted(target.scheme.as_str()) {
        headers.push(Header { name: HEADER_SCHEME, value: target.scheme.clone() });
    }
    let ghost second = headers@.map_values(|h: Header| h@);
    assert(second =~= first + (if is_header_value(target.scheme@) {
        seq![(HEADER_SCHEME@, target.scheme@)]
    } else {
        Seq::empty()
    }));
    headers.push(Header { name: HEADER_PORT, value: decimal_string(target.port) });
    let ghost third = headers@.map_values(|h: Header| h@);
    assert(third =~= second + seq![(HEADER_PORT@, decimal(target.port as nat))]);
    if header_value_accepted(target.host.as_str()) {
        headers.push(Header { name: HEADER_HOST, value: target.host.clone() });
    }
    assert(headers@.map_values(|h: Header| h@) =~= third + (if is_header_value(target.host@) {
        seq![(HEADER_HOST@, target.host@)]
    } else {
        Seq::empty()
    }));
    headers
}

} // verus!
