//! Attribute resolution from a snapshot of the request being filtered.

use crate::text::{
    encode_i64_le, i64_le_bytes, law_i64_le_bytes_roundtrip, le_value, parse_u16, parsed_u16, text_eq,
};
use vstd::prelude::*;
use vstd::utf8::encode_utf8;

verus! {

/// Why an attribute could not be produced.
pub enum AttributeFailure {
    /// The value exists but could not be read.
    Retrieval(String),
    /// The attribute is unknown or has no value for this request.
    NotAvailable(String),
}

/// Abstract form of an [`AttributeFailure`].
pub enum AttributeFailureView {
    Retrieval(Seq<char>),
    NotAvailable(Seq<char>),
}

impl View for AttributeFailure {
    type V = AttributeFailureView;

    open spec fn view(&self) -> AttributeFailureView {
        match self {
            AttributeFailure::Retrieval(m) => AttributeFailureView::Retrieval(m@),
            AttributeFailure::NotAvailable(m) => AttributeFailureView::NotAvailable(m@),
        }
    }
}

/// A request header: its (lower-case) name and its value as text, or, where
/// the value is not visible ASCII, the reason it could not be read as text.
pub struct HeaderEntry {
    pub name: String,
    pub value: Result<String, String>,
}

/// The address of the upstream the request is routed to.
pub struct UpstreamAddr {
    pub ip: String,
    pub port: u16,
}

/// Snapshot of the request data that attributes are resolved from.
pub struct RequestData {
    /// The request method, e.g. `GET`.
    pub method: String,
    /// The host part of the request URI, if it has one.
    pub uri_host: Option<String>,
    /// The path of the request URI.
    pub path: String,
    /// The scheme of the request URI, if it has one.
    pub scheme: Option<String>,
    /// The request headers in order.
    pub headers: Vec<HeaderEntry>,
    /// The client address as text (`IP` or `IP:PORT`), if known.
    pub client_addr: Option<String>,
    /// The upstream address, if one was chosen.
    pub upstream_addr: Option<UpstreamAddr>,
}

/// Whether `i` is the first position of a header called `name`.
pub open spec fn is_first_match(hs: Seq<HeaderEntry>, name: Seq<char>, i: int) -> bool {
    &&& 0 <= i < hs.len()
    &&& hs[i].name@ == name
    &&& forall|j: int| 0 <= j < i ==> (#[trigger] hs[j]).name@ != name
}

/// Whether some header is called `name`.
pub open spec fn has_header(hs: Seq<HeaderEntry>, name: Seq<char>) -> bool {
    exists|i: int| 0 <= i < hs.len() && (#[trigger] hs[i]).name@ == name
}

/// The value of the first header called `name`, if any.
pub open spec fn header_at(hs: Seq<HeaderEntry>, name: Seq<char>) -> Option<Result<String, String>> {
    if has_header(hs, name) {
        Some(hs[choose|i: int| is_first_match(hs, name, i)].value)
    } else {
        None
    }
}

/// Whether `i` is the position of the only `:` in `s`.
pub open spec fn is_only_colon(s: Seq<char>, i: int) -> bool {
    &&& 0 <= i < s.len()
    &&& s[i] == ':'
    &&& forall|j: int| 0 <= j < s.len() && j != i ==> s[j] != ':'
}

/// How a client address text splits into IP and port. An IP address's text
/// carries no port, so it comes back whole with port 80; only text with a
/// single `:` (`IP:PORT`) splits there, its port read from the rest, or 80
/// where the rest does not parse. IPv6 text, holding several `:`, stays
/// whole.
pub open spec fn host_port_of(s: Seq<char>) -> (Seq<char>, u16) {
    if exists|i: int| is_only_colon(s, i) {
        let i = choose|i: int| is_only_colon(s, i);
        let port = match parsed_u16(s.subrange(i + 1, s.len() as int)) {
            Some(p) => p,
            None => 80u16,
        };
        (s.subrange(0, i), port)
    } else {
        (s, 80u16)
    }
}

/// Whether the clock reading `now` (seconds and nanoseconds since the epoch)
/// can be expressed as nanoseconds in an `i64`.
pub open spec fn nanos_fit(now: Result<(u64, u32), String>) -> bool {
    match now {
        Ok((secs, nanos)) => {
            &&& (secs as i64) * 1_000_000_000int >= i64::MIN
            &&& (secs as i64) * 1_000_000_000int + nanos <= i64::MAX
        },
        Err(_) => true,
    }
}

/// Whether the clock reading `now` can be expressed as nanoseconds in an
/// `i64` (the condition under which `request.time` can be resolved).
pub fn clock_reading_fits(now: &Result<(u64, u32), String>) -> (r: bool)
    ensures
        r == nanos_fit(*now),
{
    match now {
        Ok((secs, nanos)) => {
            let s: i64 = *secs as i64;
            match s.checked_mul(1_000_000_000) {
                Some(p) => p.checked_add(*nanos as i64).is_some(),
                None => false,
            }
        },
        Err(_) => true,
    }
}

/// The nanoseconds since the epoch of the reading `(secs, nanos)`, seconds
/// taken as `i64`.
pub open spec fn nanos_of(secs: u64, nanos: u32) -> i64 {
    ((secs as i64) * 1_000_000_000int + nanos) as i64
}

/// The value of attribute `path` for request `req`, given the clock reading
/// `now`.
pub open spec fn attribute_of(req: RequestData, path: Seq<char>, now: Result<(u64, u32), String>) -> Result<Option<Seq<u8>>, AttributeFailureView> {
    if path == "request.host"@ {
        match req.uri_host {
            Some(h) => Ok(Some(encode_utf8(h@))),
            None => match header_at(req.headers@, "host"@) {
                Some(Ok(v)) => Ok(Some(encode_utf8(v@))),
                Some(Err(_)) => Err(
                    AttributeFailureView::Retrieval("Host header contains invalid UTF-8"@),
                ),
                None => Ok(None),
            },
        }
    } else if path == "request.method"@ {
        Ok(Some(encode_utf8(req.method@)))
    } else if path == "request.url_path"@ || path == "request.path"@ {
        Ok(Some(encode_utf8(req.path@)))
    } else if path == "request.scheme"@ {
        match req.scheme {
            Some(s) => Ok(Some(encode_utf8(s@))),
            None => Ok(Some(encode_utf8("http"@))),
        }
    } else if path == "request.time"@ {
        match now {
            Ok((secs, nanos)) => Ok(Some(i64_le_bytes(nanos_of(secs, nanos)))),
            Err(e) => Err(AttributeFailureView::Retrieval("time error: "@ + e@)),
        }
    } else if path == "request.protocol"@ {
        Ok(Some(encode_utf8("HTTP/1.1"@)))
    } else if path == "destination.address"@ {
        match req.upstream_addr {
            Some(a) => Ok(Some(encode_utf8(a.ip@))),
            None => Err(
                AttributeFailureView::NotAvailable(
                    "destination.address not available: upstream is None"@,
                ),
            ),
        }
    } else if path == "destination.port"@ {
        match req.upstream_addr {
            Some(a) => Ok(Some(i64_le_bytes(a.port as i64))),
            None => Err(
                AttributeFailureView::NotAvailable(
                    "destination.port not available: upstream is None"@,
                ),
            ),
        }
    } else if path == "source.address"@ {
        match req.client_addr {
            Some(c) => Ok(Some(encode_utf8(host_port_of(c@).0))),
            None => Err(
                AttributeFailureView::NotAvailable(
                    "source.address not available: client_addr is None"@,
                ),
            ),
        }
    } else if path == "source.port"@ {
        match req.client_addr {
            Some(c) => Ok(Some(i64_le_bytes(host_port_of(c@).1 as i64))),
            None => Err(
                AttributeFailureView::NotAvailable(
                    "source.port not available: client_addr is None"@,
                ),
            ),
        }
    } else {
        Err(
            AttributeFailureView::NotAvailable(
                "Attribute `"@ + path + "` not supported in Praxis AttributeResolver"@,
            ),
        )
    }
}

/// Whether `path` names an attribute the resolver supports.
pub open spec fn is_supported_attribute(path: Seq<char>) -> bool {
    ||| path == "request.host"@
    ||| path == "request.method"@
    ||| path == "request.url_path"@
    ||| path == "request.path"@
    ||| path == "request.scheme"@
    ||| path == "request.time"@
    ||| path == "request.protocol"@
    ||| path == "destination.address"@
    ||| path == "destination.port"@
    ||| path == "source.address"@
    ||| path == "source.port"@
}

/// The message for an attribute the resolver does not support.
pub open spec fn unsupported_message(path: Seq<char>) -> Seq<char> {
    "Attribute `"@ + path + "` not supported in Praxis AttributeResolver"@
}

/// An attribute is refused as not supported, with the message naming it,
/// exactly when its path is none of the supported ones.
pub proof fn law_unsupported_attribute(req: RequestData, path: Seq<char>, now: Result<(u64, u32), String>)
    ensures
        attribute_of(req, path, now) == Err::<Option<Seq<u8>>, AttributeFailureView>(
            AttributeFailureView::NotAvailable(unsupported_message(path)),
        ) <==> !is_supported_attribute(path),
{
    reveal_strlit("Attribute `");
    reveal_strlit("destination.address not available: upstream is None");
    reveal_strlit("destination.port not available: upstream is None");
    reveal_strlit("source.address not available: client_addr is None");
    reveal_strlit("source.port not available: client_addr is None");
    assert(unsupported_message(path)[0] == 'A');
    assert("destination.address not available: upstream is None"@[0] == 'd');
    assert("destination.port not available: upstream is None"@[0] == 'd');
    assert("source.address not available: client_addr is None"@[0] == 's');
    assert("source.port not available: client_addr is None"@[0] == 's');
}

/// `request.time` is the clock reading in nanoseconds since the epoch as
/// eight little-endian bytes, which read back to that number; a clock
/// reading before the epoch gives the reason as a retrieval error.
pub proof fn law_request_time(req: RequestData, now: Result<(u64, u32), String>)
    requires
        nanos_fit(now),
    ensures
        now matches Ok((secs, nanos)) ==> attribute_of(req, "request.time"@, now) == Ok::<
            Option<Seq<u8>>,
            AttributeFailureView,
        >(Some(i64_le_bytes(nanos_of(secs, nanos)))),
        now matches Ok((secs, nanos)) ==> i64_le_bytes(nanos_of(secs, nanos)).len() == 8
            && le_value(i64_le_bytes(nanos_of(secs, nanos))) == (nanos_of(secs, nanos) as u64) as nat,
        now matches Err(e) ==> attribute_of(req, "request.time"@, now) == Err::<
            Option<Seq<u8>>,
            AttributeFailureView,
        >(AttributeFailureView::Retrieval("time error: "@ + e@)),
{
    reveal_strlit("request.time");
    reveal_strlit("request.host");
    reveal_strlit("request.method");
    reveal_strlit("request.url_path");
    reveal_strlit("request.path");
    reveal_strlit("request.scheme");
    assert("request.time"@ != "request.host"@) by {
        assert("request.time"@[8] != "request.host"@[8]);
    }
    assert("request.time"@ != "request.method"@) by {
        assert("request.time"@[8] != "request.method"@[8]);
    }
    assert("request.time"@ != "request.url_path"@) by {
        assert("request.time"@[8] != "request.url_path"@[8]);
    }
    assert("request.time"@ != "request.path"@) by {
        assert("request.time"@[8] != "request.path"@[8]);
    }
    assert("request.time"@ != "request.scheme"@) by {
        assert("request.time"@[8] != "request.scheme"@[8]);
    }
    if let Ok((secs, nanos)) = now {
        law_i64_le_bytes_roundtrip(nanos_of(secs, nanos));
    }
}

/// The supported attribute names are pairwise distinct.
proof fn lemma_attribute_names_distinct()
    ensures
        "request.host"@ != "request.method"@,
        "request.host"@ != "request.url_path"@,
        "request.method"@ != "request.url_path"@,
        "request.host"@ != "request.path"@,
        "request.method"@ != "request.path"@,
        "request.url_path"@ != "request.path"@,
        "request.host"@ != "request.scheme"@,
        "request.method"@ != "request.scheme"@,
        "request.url_path"@ != "request.scheme"@,
        "request.path"@ != "request.scheme"@,
        "request.host"@ != "request.time"@,
        "request.method"@ != "request.time"@,
        "request.url_path"@ != "request.time"@,
        "request.path"@ != "request.time"@,
        "request.scheme"@ != "request.time"@,
        "request.host"@ != "request.protocol"@,
        "request.method"@ != "request.protocol"@,
        "request.url_path"@ != "request.protocol"@,
        "request.path"@ != "request.protocol"@,
        "request.scheme"@ != "request.protocol"@,
        "request.time"@ != "request.protocol"@,
        "request.host"@ != "destination.address"@,
        "request.method"@ != "destination.address"@,
        "request.url_path"@ != "destination.address"@,
        "request.path"@ != "destination.address"@,
        "request.scheme"@ != "destination.address"@,
        "request.time"@ != "destination.address"@,
        "request.protocol"@ != "destination.address"@,
        "request.host"@ != "destination.port"@,
        "request.method"@ != "destination.port"@,
        "request.url_path"@ != "destination.port"@,
        "request.path"@ != "destination.port"@,
        "request.scheme"@ != "destination.port"@,
        "request.time"@ != "destination.port"@,
        "request.protocol"@ != "destination.port"@,
        "destination.address"@ != "destination.port"@,
        "request.host"@ != "source.address"@,
        "request.method"@ != "source.address"@,
        "request.url_path"@ != "source.address"@,
        "request.path"@ != "source.address"@,
        "request.scheme"@ != "source.address"@,
        "request.time"@ != "source.address"@,
        "request.protocol"@ != "source.address"@,
        "destination.address"@ != "source.address"@,
        "destination.port"@ != "source.address"@,
        "request.host"@ != "source.port"@,
        "request.method"@ != "source.port"@,
        "request.url_path"@ != "source.port"@,
        "request.path"@ != "source.port"@,
        "request.scheme"@ != "source.port"@,
        "request.time"@ != "source.port"@,
        "request.protocol"@ != "source.port"@,
        "destination.address"@ != "source.port"@,
        "destination.port"@ != "source.port"@,
        "source.address"@ != "source.port"@,
{
    reveal_strlit("request.host");
    reveal_strlit("request.method");
    reveal_strlit("request.url_path");
    reveal_strlit("request.path");
    reveal_strlit("request.scheme");
    reveal_strlit("request.time");
    reveal_strlit("request.protocol");
    reveal_strlit("destination.address");
    reveal_strlit("destination.port");
    reveal_strlit("source.address");
    reveal_strlit("source.port");
    assert("request.host"@[8] != "request.method"@[8]);
    assert("request.host"@[8] != "request.url_path"@[8]);
    assert("request.host"@[8] != "request.scheme"@[8]);
    assert("request.host"@[8] != "request.protocol"@[8]);
    assert("request.host"@[0] != "destination.address"@[0]);
    assert("request.host"@[0] != "destination.port"@[0]);
    assert("request.host"@[0] != "source.address"@[0]);
    assert("request.host"@[0] != "source.port"@[0]);
    assert("request.method"@[8] != "request.url_path"@[8]);
    assert("request.method"@[8] != "request.path"@[8]);
    assert("request.method"@[8] != "request.time"@[8]);
    assert("request.method"@[8] != "request.protocol"@[8]);
    assert("request.method"@[0] != "destination.address"@[0]);
    assert("request.method"@[0] != "destination.port"@[0]);
    assert("request.method"@[0] != "source.port"@[0]);
    assert("request.url_path"@[8] != "request.path"@[8]);
    assert("request.url_path"@[8] != "request.scheme"@[8]);
    assert("request.url_path"@[8] != "request.time"@[8]);
    assert("request.url_path"@[0] != "destination.address"@[0]);
    assert("request.url_path"@[0] != "source.address"@[0]);
    assert("request.url_path"@[0] != "source.port"@[0]);
    assert("request.path"@[8] != "request.scheme"@[8]);
    assert("request.path"@[9] != "request.protocol"@[9]);
    assert("request.path"@[0] != "destination.address"@[0]);
    assert("request.path"@[0] != "destination.port"@[0]);
    assert("request.path"@[0] != "source.address"@[0]);
    assert("request.path"@[0] != "source.port"@[0]);
    assert("request.scheme"@[8] != "request.time"@[8]);
    assert("request.scheme"@[8] != "request.protocol"@[8]);
    assert("request.scheme"@[0] != "destination.address"@[0]);
    assert("request.scheme"@[0] != "destination.port"@[0]);
    assert("request.scheme"@[0] != "source.port"@[0]);
    assert("request.time"@[8] != "request.protocol"@[8]);
    assert("request.time"@[0] != "destination.address"@[0]);
    assert("request.time"@[0] != "destination.port"@[0]);
    assert("request.time"@[0] != "source.address"@[0]);
    assert("request.time"@[0] != "source.port"@[0]);
    assert("request.protocol"@[0] != "destination.address"@[0]);
    assert("request.protocol"@[0] != "source.address"@[0]);
    assert("request.protocol"@[0] != "source.port"@[0]);
    assert("destination.address"@[12] != "destination.port"@[12]);
    assert("destination.address"@[0] != "source.address"@[0]);
    assert("destination.address"@[0] != "source.port"@[0]);
    assert("destination.port"@[0] != "source.address"@[0]);
    assert("destination.port"@[0] != "source.port"@[0]);
    assert("source.address"@[7] != "source.port"@[7]);
    assert("request.host"@[8] != "request.path"@[8]);
    assert("request.host"@[8] != "request.time"@[8]);
    assert("request.method"@[8] != "request.scheme"@[8]);
    assert("request.method"@[0] != "source.address"@[0]);
    assert("request.url_path"@[8] != "request.protocol"@[8]);
    assert("request.url_path"@[0] != "destination.port"@[0]);
    assert("request.path"@[8] != "request.time"@[8]);
    assert("request.scheme"@[0] != "source.address"@[0]);
    assert("request.protocol"@[0] != "destination.port"@[0]);
}

/// Each supported attribute is read from the request's own data: the host
/// from the URI, else from the first `host` header (`None` without one, an
/// error where it is not text); the method, path and scheme (`http` without
/// one) as the request has them; the protocol as `HTTP/1.1`; the upstream's
/// IP and port; and the client address split into IP and port.
pub proof fn law_attribute_values(req: RequestData, now: Result<(u64, u32), String>, i: int)
    ensures
        req.uri_host matches Some(h) ==> attribute_of(req, "request.host"@, now) == Ok::<
            Option<Seq<u8>>,
            AttributeFailureView,
        >(Some(encode_utf8(h@))),
        req.uri_host is None && (forall|k: int|
            0 <= k < req.headers@.len() ==> (#[trigger] req.headers@[k]).name@ != "host"@)
            ==> attribute_of(req, "request.host"@, now) == Ok::<
            Option<Seq<u8>>,
            AttributeFailureView,
        >(None),
        req.uri_host is None && 0 <= i < req.headers@.len() && req.headers@[i].name@ == "host"@ && (
        forall|k: int| 0 <= k < i ==> (#[trigger] req.headers@[k]).name@ != "host"@) ==> attribute_of(
            req,
            "request.host"@,
            now,
        ) == match req.headers@[i].value {
            Ok(v) => Ok::<Option<Seq<u8>>, AttributeFailureView>(Some(encode_utf8(v@))),
            Err(_) => Err(AttributeFailureView::Retrieval("Host header contains invalid UTF-8"@)),
        },
        attribute_of(req, "request.method"@, now) == Ok::<Option<Seq<u8>>, AttributeFailureView>(
            Some(encode_utf8(req.method@)),
        ),
        attribute_of(req, "request.path"@, now) == Ok::<Option<Seq<u8>>, AttributeFailureView>(
            Some(encode_utf8(req.path@)),
        ),
        attribute_of(req, "request.url_path"@, now) == Ok::<Option<Seq<u8>>, AttributeFailureView>(
            Some(encode_utf8(req.path@)),
        ),
        attribute_of(req, "request.scheme"@, now) == Ok::<Option<Seq<u8>>, AttributeFailureView>(
            Some(
                encode_utf8(
                    match req.scheme {
                        Some(sc) => sc@,
                        None => "http"@,
                    },
                ),
            ),
        ),
        attribute_of(req, "request.protocol"@, now) == Ok::<Option<Seq<u8>>, AttributeFailureView>(
            Some(encode_utf8("HTTP/1.1"@)),
        ),
        req.upstream_addr matches Some(a) ==> attribute_of(req, "destination.address"@, now) == Ok::<
            Option<Seq<u8>>,
            AttributeFailureView,
        >(Some(encode_utf8(a.ip@))) && attribute_of(req, "destination.port"@, now) == Ok::<
            Option<Seq<u8>>,
            AttributeFailureView,
        >(Some(i64_le_bytes(a.port as i64))),
        req.upstream_addr is None ==> attribute_of(req, "destination.address"@, now) is Err
            && attribute_of(req, "destination.port"@, now) is Err,
        req.client_addr matches Some(c) ==> attribute_of(req, "source.address"@, now) == Ok::<
            Option<Seq<u8>>,
            AttributeFailureView,
        >(Some(encode_utf8(host_port_of(c@).0))) && attribute_of(req, "source.port"@, now) == Ok::<
            Option<Seq<u8>>,
            AttributeFailureView,
        >(Some(i64_le_bytes(host_port_of(c@).1 as i64))),
        req.client_addr is None ==> attribute_of(req, "source.address"@, now) is Err && attribute_of(
            req,
            "source.port"@,
            now,
        ) is Err,
{
    lemma_attribute_names_distinct();
    let hs = req.headers@;
    let host = "host"@;
    if req.uri_host is None && 0 <= i < hs.len() && hs[i].name@ == host && (forall|k: int|
        0 <= k < i ==> (#[trigger] hs[k]).name@ != host) {
        assert(is_first_match(hs, host, i));
        assert(has_header(hs, host));
        let c = choose|c: int| is_first_match(hs, host, c);
        assert(c == i) by {
            if c < i {
                assert(hs[c].name@ != host);
            } else if c > i {
                assert(hs[i].name@ != host);
            }
        }
    }
}

/// A header lookup finds only headers with exactly the looked-up name, the
/// first of them: with none so named it yields nothing, and otherwise the
/// first one's value (an error where that value is not text).
pub proof fn law_header_lookup_exact_name(hs: Seq<HeaderEntry>, n: Seq<char>, i: int)
    ensures
        has_header(hs, n) <==> exists|k: int| 0 <= k < hs.len() && (#[trigger] hs[k]).name@ == n,
        is_first_match(hs, n, i) ==> hs[i].name@ == n && forall|j: int|
            0 <= j < i ==> (#[trigger] hs[j]).name@ != n,
        (forall|k: int| 0 <= k < hs.len() ==> (#[trigger] hs[k]).name@ != n) ==> header_at(hs, n) is None
            && header_value_of(hs, Some(n)) == Ok::<Option<Seq<char>>, AttributeFailureView>(None),
        0 <= i < hs.len() && hs[i].name@ == n && (forall|j: int| 0 <= j < i ==> (#[trigger] hs[j]).name@ != n)
            ==> header_at(hs, n) == Some(hs[i].value) && header_value_of(hs, Some(n)) == match hs[i].value {
            Ok(v) => Ok::<Option<Seq<char>>, AttributeFailureView>(Some(v@)),
            Err(e) => Err(AttributeFailureView::Retrieval("invalid header value: "@ + e@)),
        },
{
    if 0 <= i < hs.len() && hs[i].name@ == n && (forall|j: int| 0 <= j < i ==> (#[trigger] hs[j]).name@ != n) {
        assert(is_first_match(hs, n, i));
        assert(has_header(hs, n));
        let c = choose|c: int| is_first_match(hs, n, c);
        assert(c == i) by {
            if c < i {
                assert(hs[c].name@ != n);
            } else if c > i {
                assert(hs[i].name@ != n);
            }
        }
    }
}

/// A valid key is filed under itself lower-cased: every capital letter
/// becomes its small letter and every other character stays; a key that is
/// already lower-case is filed under itself.
pub proof fn law_header_name_lower_cases(key: Seq<char>, i: int)
    requires
        0 < key.len() <= 65535,
        forall|k: int| 0 <= k < key.len() ==> is_token_char(#[trigger] key[k]),
    ensures
        header_name_of(key) matches Some(n) && n.len() == key.len(),
        0 <= i < key.len() && 'A' as int <= key[i] as int <= 'Z' as int ==> header_name_of(key)->0[i]
            as int == key[i] as int + 32,
        0 <= i < key.len() && !('A' as int <= key[i] as int <= 'Z' as int) ==> header_name_of(
            key,
        )->0[i] == key[i],
        (forall|k: int| 0 <= k < key.len() ==> !('A' as int <= #[trigger] key[k] as int <= 'Z' as int))
            ==> header_name_of(key) == Some(key),
{
    let n = key.map_values(|c: char| ascii_lower(c));
    if forall|k: int| 0 <= k < key.len() ==> !('A' as int <= #[trigger] key[k] as int <= 'Z' as int) {
        assert(n =~= key);
    }
}

/// A supported attribute that has no value for this request is refused with
/// a message that starts with the attribute's name.
pub proof fn law_missing_address_messages(req: RequestData, now: Result<(u64, u32), String>)
    ensures
        req.upstream_addr is None ==> (attribute_of(req, "destination.address"@, now) matches Err(
            AttributeFailureView::NotAvailable(m),
        ) && m.subrange(0, 19) == "destination.address"@),
        req.upstream_addr is None ==> (attribute_of(req, "destination.port"@, now) matches Err(
            AttributeFailureView::NotAvailable(m),
        ) && m.subrange(0, 16) == "destination.port"@),
        req.client_addr is None ==> (attribute_of(req, "source.address"@, now) matches Err(
            AttributeFailureView::NotAvailable(m),
        ) && m.subrange(0, 14) == "source.address"@),
        req.client_addr is None ==> (attribute_of(req, "source.port"@, now) matches Err(
            AttributeFailureView::NotAvailable(m),
        ) && m.subrange(0, 11) == "source.port"@),
{
    lemma_attribute_names_distinct();
    reveal_strlit("destination.address not available: upstream is None");
    reveal_strlit("destination.port not available: upstream is None");
    reveal_strlit("source.address not available: client_addr is None");
    reveal_strlit("source.port not available: client_addr is None");
    reveal_strlit("destination.address");
    reveal_strlit("destination.port");
    reveal_strlit("source.address");
    reveal_strlit("source.port");
    assert("destination.address not available: upstream is None"@.subrange(0, 19) =~= "destination.address"@);
    assert("destination.port not available: upstream is None"@.subrange(0, 16) =~= "destination.port"@);
    assert("source.address not available: client_addr is None"@.subrange(0, 14) =~= "source.address"@);
    assert("source.port not available: client_addr is None"@.subrange(0, 11) =~= "source.port"@);
}

/// The nanoseconds of a clock reading that fits are its seconds times
/// 10^9 plus its nanoseconds.
pub proof fn law_nanos_of_reading(secs: u64, nanos: u32)
    requires
        secs <= i64::MAX,
        nanos_fit(Ok((secs, nanos))),
    ensures
        nanos_of(secs, nanos) as int == secs * 1_000_000_000 + nanos,
{
    assert((secs as i64) as int == secs as int);
}

/// A header value that is text is listed whole; one that is not is listed
/// as empty text.
pub proof fn law_header_text_whole(t: String, e: String)
    ensures
        header_text(Ok(t)) == t@,
        header_text(Err(e)).len() == 0,
{
}

/// Abstract form of an attribute lookup's result.
pub open spec fn attribute_result_view(r: Result<Option<Vec<u8>>, AttributeFailure>) -> Result<Option<Seq<u8>>, AttributeFailureView> {
    match r {
        Ok(Some(b)) => Ok(Some(b@)),
        Ok(None) => Ok(None),
        Err(f) => Err(f@),
    }
}

/// Whether `c` may occur in a header name (an HTTP token character).
pub open spec fn is_token_char(c: char) -> bool {
    ||| 'a' as int <= c as int <= 'z' as int
    ||| 'A' as int <= c as int <= 'Z' as int
    ||| '0' as int <= c as int <= '9' as int
    ||| c == '!' || c == '#' || c == '$' || c == '%' || c == '&' || c == '\'' || c == '*'
    ||| c == '+' || c == '-' || c == '.' || c == '^' || c == '_' || c == '`' || c == '|'
    ||| c == '~'
}

/// `c` with an ASCII capital letter turned into its small letter.
pub open spec fn ascii_lower(c: char) -> char {
    if 'A' as int <= c as int <= 'Z' as int {
        ((c as int) + 32) as char
    } else {
        c
    }
}

/// The name under which the header map files a header looked up as `key`:
/// `key` lower-cased, where it is 1 to 65535 token characters; `None` where
/// `key` is no valid header name.
pub open spec fn header_name_of(key: Seq<char>) -> Option<Seq<char>> {
    if 0 < key.len() <= 65535 && forall|i: int| 0 <= i < key.len() ==> is_token_char(#[trigger] key[i]) {
        Some(key.map_values(|c: char| ascii_lower(c)))
    } else {
        None
    }
}

/// Header lookup ignores ASCII case: two keys that differ only in the case
/// of their letters find the same header value.
pub proof fn law_header_lookup_ignores_case(hs: Seq<HeaderEntry>, a: Seq<char>, b: Seq<char>)
    requires
        a.len() == b.len(),
        forall|i: int| 0 <= i < a.len() ==> ascii_lower(#[trigger] a[i]) == ascii_lower(b[i]),
    ensures
        header_name_of(a) == header_name_of(b),
        header_value_of(hs, header_name_of(a)) == header_value_of(hs, header_name_of(b)),
{
    assert forall|i: int| 0 <= i < a.len() implies is_token_char(#[trigger] a[i]) == is_token_char(b[i]) by {
        assert(ascii_lower(a[i]) == ascii_lower(b[i]));
    }
    let la = a.map_values(|c: char| ascii_lower(c));
    let lb = b.map_values(|c: char| ascii_lower(c));
    assert(la =~= lb);
    let ta = forall|i: int| 0 <= i < a.len() ==> is_token_char(#[trigger] a[i]);
    let tb = forall|i: int| 0 <= i < b.len() ==> is_token_char(#[trigger] b[i]);
    if ta {
        assert forall|i: int| 0 <= i < b.len() implies is_token_char(#[trigger] b[i]) by {
            assert(is_token_char(a[i]));
        }
    }
    if tb {
        assert forall|i: int| 0 <= i < a.len() implies is_token_char(#[trigger] a[i]) by {
            assert(is_token_char(b[i]));
        }
    }
    assert(ta == tb);
}

/// Parses `key` as a header name with `http::HeaderName::from_bytes` and
/// gives the name's text.
///
/// Trusted: the crate's parse accepts 1 to 65535 bytes, each a token
/// character, and maps each through a table that lower-cases letters; its
/// text is the lower-cased key. The header map's lookup by `&str` runs the
/// same parse on the key before comparing names.
#[verifier::external_body]
fn normalize_header_name(key: &str) -> (r: Option<String>)
    ensures
        match r {
            Some(n) => header_name_of(key@) == Some(n@),
            None => header_name_of(key@) is None,
        },
{
    match http::HeaderName::from_bytes(key.as_bytes()) {
        Ok(n) => Some(n.as_str().to_string()),
        Err(_) => None,
    }
}

/// The text of a header value, or `""` where it could not be read as text.
pub open spec fn header_text(v: Result<String, String>) -> Seq<char> {
    match v {
        Ok(t) => t@,
        Err(_) => Seq::empty(),
    }
}

/// What a lookup of the header filed under `name` yields.
pub open spec fn header_value_of(hs: Seq<HeaderEntry>, name: Option<Seq<char>>) -> Result<Option<Seq<char>>, AttributeFailureView> {
    match name {
        None => Ok(None),
        Some(n) => match header_at(hs, n) {
            None => Ok(None),
            Some(Ok(v)) => Ok(Some(v@)),
            Some(Err(e)) => Err(AttributeFailureView::Retrieval("invalid header value: "@ + e@)),
        },
    }
}

/// Abstract form of a header lookup's result.
pub open spec fn header_result_view(r: Result<Option<String>, AttributeFailure>) -> Result<Option<Seq<char>>, AttributeFailureView> {
    match r {
        Ok(Some(v)) => Ok(Some(v@)),
        Ok(None) => Ok(None),
        Err(f) => Err(f@),
    }
}

/// The UTF-8 bytes of `s`.
fn utf8_bytes(s: &str) -> (b: Vec<u8>)
    ensures
        b@ == encode_utf8(s@),
{
    s.as_bytes_vec()
}

/// An address text with a single `:` splits there: the IP is the text
/// before it and the port is read from the text after it; any other text
/// (no `:`, or several as in IPv6) comes back whole with port 80.
pub proof fn law_client_addr_split(s: Seq<char>, i: int)
    ensures
        is_only_colon(s, i) ==> {
            let rest = s.subrange(i + 1, s.len() as int);
            &&& s == host_port_of(s).0 + seq![':'] + rest
            &&& host_port_of(s).0 == s.subrange(0, i)
            &&& host_port_of(s).1 == match parsed_u16(rest) {
                Some(p) => p,
                None => 80u16,
            }
        },
        !(exists|k: int| is_only_colon(s, k)) ==> host_port_of(s) == (s, 80u16),
{
    if is_only_colon(s, i) {
        let k = choose|k: int| is_only_colon(s, k);
        assert(k == i);
        assert(s =~= s.subrange(0, i) + seq![':'] + s.subrange(i + 1, s.len() as int));
    }
}

/// IPv6 text, which holds two or more `:`, is never split: the whole text is
/// the IP and the port is 80.
pub proof fn law_ipv6_addr_stays_whole(s: Seq<char>, a: int, b: int)
    requires
        0 <= a < b < s.len(),
        s[a] == ':',
        s[b] == ':',
    ensures
        host_port_of(s) == (s, 80u16),
{
    assert forall|k: int| !is_only_colon(s, k) by {
        if is_only_colon(s, k) {
            if k == a {
                assert(s[b] != ':');
            } else {
                assert(s[a] != ':');
            }
        }
    }
}

/// Parse IP address and port from an address text.
///
/// An IP address's text carries no port, so it is returned whole with the
/// port defaulting to 80. Text with a single `:` (`IP:PORT`) splits there,
/// the port defaulting to 80 where it does not parse; IPv6 text, holding
/// several `:`, stays whole.
pub fn parse_ip_and_port(addr: &str) -> (r: (String, u16))
    ensures
        (r.0@, r.1) == host_port_of(addr@),
{
    let n = addr.unicode_len();
    let mut first: Option<usize> = None;
    let mut k: usize = 0;
    while k < n
        invariant
            n == addr@.len(),
            k <= n,
            match first {
                None => forall|j: int| 0 <= j < k ==> addr@[j] != ':',
                Some(c) => c < k && addr@[c as int] == ':' && forall|j: int|
                    0 <= j < k && j != c ==> addr@[j] != ':',
            },
        decreases n - k,
    {
        if addr.get_char(k) == ':' {
            match first {
                None => {
                    first = Some(k);
                },
                Some(c) => {
                    proof {
                        assert forall|m: int| !is_only_colon(addr@, m) by {
                            if is_only_colon(addr@, m) {
                                if m == c as int {
                                    assert(addr@[k as int] == ':');
                                } else {
                                    assert(addr@[c as int] == ':');
                                }
                            }
                        }
                    }
                    return (String::from_str(addr), 80u16);
                },
            }
        }
        k = k + 1;
    }
    match first {
        Some(colon) => {
            let ip = String::from_str(addr.substring_char(0, colon));
            let rest = addr.substring_char(colon + 1, n);
            let port = match parse_u16(rest) {
                Some(p) => p,
                None => 80u16,
            };
            proof {
                assert(is_only_colon(addr@, colon as int));
                let i = choose|i: int| is_only_colon(addr@, i);
                assert(i == colon as int);
            }
            (ip, port)
        },
        None => {
            proof {
                assert forall|m: int| !is_only_colon(addr@, m) by {
                    if is_only_colon(addr@, m) {
                        assert(addr@[m] == ':');
                    }
                }
            }
            (String::from_str(addr), 80u16)
        },
    }
}

impl RequestData {
    /// The position of the first header called `name`.
    pub fn find_header(&self, name: &str) -> (r: Option<usize>)
        ensures
            match r {
                Some(i) => is_first_match(self.headers@, name@, i as int),
                None => !has_header(self.headers@, name@),
            },
    {
        let n = self.headers.len();
        let mut i: usize = 0;
        while i < n
            invariant
                n == self.headers@.len(),
                i <= n,
                forall|j: int| 0 <= j < i ==> (#[trigger] self.headers@[j]).name@ != name@,
            decreases n - i,
        {
            if text_eq(self.headers[i].name.as_str(), name) {
                return Some(i);
            }
            i = i + 1;
        }
        None
    }

    /// The value of the first header called `name`, if any.
    pub fn header_entry_value(&self, name: &str) -> (r: Option<Result<String, String>>)
        ensures
            r == header_at(self.headers@, name@),
    {
        match self.find_header(name) {
            Some(i) => {
                proof {
                    let k = choose|k: int| is_first_match(self.headers@, name@, k);
                    assert(k == i as int) by {
                        if k < i as int {
                            assert(self.headers@[k].name@ == name@);
                        } else if k > i as int {
                            assert(self.headers@[i as int].name@ == name@);
                        }
                    }
                }
                match &self.headers[i].value {
                    Ok(v) => Some(Ok(v.clone())),
                    Err(e) => Some(Err(e.clone())),
                }
            },
            None => None,
        }
    }

    /// All request headers as name and text pairs, in order; a value that
    /// is not text reads as `""`.
    pub fn request_headers(&self) -> (r: Vec<(String, String)>)
        ensures
            r@.len() == self.headers@.len(),
            forall|i: int|
                0 <= i < r@.len() ==> (#[trigger] r@[i]).0@ == self.headers@[i].name@ && r@[i].1@
                    == header_text(self.headers@[i].value),
    {
        let n = self.headers.len();
        let mut out: Vec<(String, String)> = Vec::new();
        let mut i: usize = 0;
        while i < n
            invariant
                n == self.headers@.len(),
                i <= n,
                out@.len() == i,
                forall|j: int|
                    0 <= j < i ==> (#[trigger] out@[j]).0@ == self.headers@[j].name@ && out@[j].1@
                        == header_text(self.headers@[j].value),
            decreases n - i,
        {
            let h = &self.headers[i];
            let text = match &h.value {
                Ok(v) => v.clone(),
                Err(_) => String::new(),
            };
            out.push((h.name.clone(), text));
            i = i + 1;
        }
        out
    }

    /// The value of the header filed under `name`, where `name` is the
    /// normalized header name (`None`: the key named no valid header).
    pub fn lookup_header_value(&self, name: Option<String>) -> (r: Result<Option<String>, AttributeFailure>)
        ensures
            header_result_view(r) == header_value_of(
                self.headers@,
                match name {
                    Some(n) => Some(n@),
                    None => None,
                },
            ),
    {
        match name {
            None => Ok(None),
            Some(n) => match self.header_entry_value(n.as_str()) {
                None => Ok(None),
                Some(Ok(v)) => Ok(Some(v)),
                Some(Err(e)) => {
                    let mut msg = String::from_str("invalid header value: ");
                    msg.append(e.as_str());
                    Err(AttributeFailure::Retrieval(msg))
                },
            },
        }
    }

    /// The value of the request header `key`, looked up case-insensitively.
    pub fn header_value(&self, key: &str) -> (r: Result<Option<String>, AttributeFailure>)
        ensures
            header_result_view(r) == header_value_of(self.headers@, header_name_of(key@)),
    {
        let name = normalize_header_name(key);
        self.lookup_header_value(name)
    }

    /// Resolve the attribute at `path` for this request.
    ///
    /// `now` is the clock reading (seconds and nanoseconds since the epoch),
    /// or why it could not be taken; only `request.time` reads it.
    pub fn attribute(&self, path: &str, now: &Result<(u64, u32), String>) -> (r: Result<Option<Vec<u8>>, AttributeFailure>)
        requires
            path@ == "request.time"@ ==> nanos_fit(*now),
        ensures
            attribute_result_view(r) == attribute_of(*self, path@, *now),
    {
        if text_eq(path, "request.host") {
            match &self.uri_host {
                Some(h) => Ok(Some(utf8_bytes(h.as_str()))),
                None => match self.header_entry_value("host") {
                    Some(Ok(v)) => Ok(Some(utf8_bytes(v.as_str()))),
                    Some(Err(_)) => Err(
                        AttributeFailure::Retrieval(
                            String::from_str("Host header contains invalid UTF-8"),
                        ),
                    ),
                    None => Ok(None),
                },
            }
        } else if text_eq(path, "request.method") {
            Ok(Some(utf8_bytes(self.method.as_str())))
        } else if text_eq(path, "request.url_path") || text_eq(path, "request.path") {
            Ok(Some(utf8_bytes(self.path.as_str())))
        } else if text_eq(path, "request.scheme") {
            match &self.scheme {
                Some(s) => Ok(Some(utf8_bytes(s.as_str()))),
                None => Ok(Some(utf8_bytes("http"))),
            }
        } else if text_eq(path, "request.time") {
            match now {
                Ok((secs, nanos)) => {
                    let s: i64 = *secs as i64;
                    let total: i64 = s * 1_000_000_000 + *nanos as i64;
                    Ok(Some(encode_i64_le(total)))
                },
                Err(e) => {
                    let mut msg = String::from_str("time error: ");
                    msg.append(e.as_str());
                    Err(AttributeFailure::Retrieval(msg))
                },
            }
        } else if text_eq(path, "request.protocol") {
            Ok(Some(utf8_bytes("HTTP/1.1")))
        } else if text_eq(path, "destination.address") {
            match &self.upstream_addr {
                Some(a) => Ok(Some(utf8_bytes(a.ip.as_str()))),
                None => Err(
                    AttributeFailure::NotAvailable(
                        String::from_str("destination.address not available: upstream is None"),
                    ),
                ),
            }
        } else if text_eq(path, "destination.port") {
            match &self.upstream_addr {
                Some(a) => Ok(Some(encode_i64_le(a.port as i64))),
                None => Err(
                    AttributeFailure::NotAvailable(
                        String::from_str("destination.port not available: upstream is None"),
                    ),
                ),
            }
        } else if text_eq(path, "source.address") {
            match &self.client_addr {
                Some(c) => {
                    let (ip, _port) = parse_ip_and_port(c.as_str());
                    Ok(Some(utf8_bytes(ip.as_str())))
                },
                None => Err(
                    AttributeFailure::NotAvailable(
                        String::from_str("source.address not available: client_addr is None"),
                    ),
                ),
            }
        } else if text_eq(path, "source.port") {
            match &self.client_addr {
                Some(c) => {
                    let (_ip, port) = parse_ip_and_port(c.as_str());
                    Ok(Some(encode_i64_le(port as i64)))
                },
                None => Err(
                    AttributeFailure::NotAvailable(
                        String::from_str("source.port not available: client_addr is None"),
                    ),
                ),
            }
        } else {
            let mut msg = String::from_str("Attribute `");
            msg.append(path);
            msg.append("` not supported in Praxis AttributeResolver");
            Err(AttributeFailure::NotAvailable(msg))
        }
    }
}

} // verus!
