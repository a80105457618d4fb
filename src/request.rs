use vstd::prelude::*;

use crate::alpn::{default_pref, map_version_to_pref, pref_of_version, HttpVersion, HttpVersionPref};
use crate::header_map::{empty_header_map, finalize_header_map, header_map_entries, header_map_room, valid_values};
use crate::headers::{finalized, names_view, Header};

verus! {

/// The request method, carried through unchanged.
#[verifier::external_type_specification]
#[verifier::external_body]
pub struct ExMethod(http::Method);

/// The request target, carried through unchanged.
#[verifier::external_type_specification]
#[verifier::external_body]
pub struct ExUri(http::Uri);

/// The egress path of a request: a local interface or address to bind, and
/// a proxy. The library passes it through as it is.
#[derive(Debug)]
pub struct NetworkScheme {
    pub interface: Option<String>,
    pub local_address: Option<String>,
    pub proxy: Option<String>,
}

impl NetworkScheme {
    /// No binding and no proxy.
    pub fn none() -> (r: NetworkScheme)
        ensures
            r.interface is None,
            r.local_address is None,
            r.proxy is None,
    {
        NetworkScheme { interface: None, local_address: None, proxy: None }
    }
}

/// A request as it leaves the assembler.
#[derive(Debug)]
pub struct RequestParts<B> {
    /// `None` leaves the transport's default method.
    pub method: Option<http::Method>,
    pub uri: Option<http::Uri>,
    pub version: Option<HttpVersion>,
    pub headers: http::HeaderMap,
    pub body: B,
}

/// A request whose headers are final, with its protocol preference and egress path.
#[derive(Debug)]
pub struct InnerRequest<B> {
    pub request: RequestParts<B>,
    pub version_pref: Option<HttpVersionPref>,
    pub network_scheme: NetworkScheme,
}

/// A builder for outgoing requests.
#[derive(Debug)]
pub struct InnerRequestBuilder {
    pub method: Option<http::Method>,
    pub uri: Option<http::Uri>,
    pub version: Option<HttpVersion>,
    pub version_pref: Option<HttpVersionPref>,
    pub headers: http::HeaderMap,
    pub headers_order: Option<Vec<Vec<u8>>>,
    pub network_scheme: NetworkScheme,
}

/// The headers that a request carries once its body is set.
pub open spec fn built_headers(b: InnerRequestBuilder, exact_len: Option<u64>) -> Seq<Header> {
    match b.headers_order {
        Some(order) => finalized(header_map_entries(b.headers), exact_len, names_view(order@)),
        None => header_map_entries(b.headers),
    }
}

/// The headers can be finalized: the map holds fewer than 6552 headers and
/// every value is one a map accepts, as every value that `http` checks is.
pub open spec fn finalizable(b: InnerRequestBuilder) -> bool {
    b.headers_order is Some ==> header_map_entries(b.headers).len() < header_map_room() && valid_values(
        header_map_entries(b.headers),
    )
}

impl<B> InnerRequest<B> {
    /// A builder with nothing set.
    pub fn builder() -> (r: InnerRequestBuilder)
        ensures
            r.method is None,
            r.uri is None,
            r.version is None,
            r.version_pref is None,
            header_map_entries(r.headers).len() == 0,
            r.headers_order is None,
            r.network_scheme.interface is None,
            r.network_scheme.local_address is None,
            r.network_scheme.proxy is None,
    {
        let r = InnerRequestBuilder {
            method: None,
            uri: None,
            version: None,
            version_pref: None,
            headers: empty_header_map(),
            headers_order: None,
            network_scheme: NetworkScheme::none(),
        };
        r
    }

    /// The request, its egress path and its protocol preference.
    pub fn pieces(self) -> (r: (RequestParts<B>, NetworkScheme, Option<HttpVersionPref>))
        ensures
            r.0 == self.request,
            r.1 == self.network_scheme,
            r.2 == self.version_pref,
    {
        (self.request, self.network_scheme, self.version_pref)
    }
}

impl InnerRequestBuilder {
    /// Sets the method.
    pub fn method(self, method: http::Method) -> (r: InnerRequestBuilder)
        ensures
            r == (InnerRequestBuilder { method: Some(method), ..self }),
    {
        let mut s = self;
        s.method = Some(method);
        s
    }

    /// Sets the target.
    pub fn uri(self, uri: http::Uri) -> (r: InnerRequestBuilder)
        ensures
            r == (InnerRequestBuilder { uri: Some(uri), ..self }),
    {
        let mut s = self;
        s.uri = Some(uri);
        s
    }

    /// Sets the HTTP version, and the protocol preference that it calls for;
    /// `None` changes nothing.
    pub fn version(self, version: Option<HttpVersion>) -> (r: InnerRequestBuilder)
        ensures
            version matches Some(v) ==> r == (InnerRequestBuilder {
                version: Some(v),
                version_pref: Some(pref_of_version(v, default_pref())),
                ..self
            }),
            version is None ==> r == self,
    {
        let mut s = self;
        if let Some(v) = version {
            s.version = Some(v);
            s.version_pref = Some(map_version_to_pref(v));
        }
        s
    }

    /// Replaces the headers.
    pub fn headers(self, headers: http::HeaderMap) -> (r: InnerRequestBuilder)
        ensures
            r == (InnerRequestBuilder { headers, ..self }),
    {
        let mut s = self;
        s.headers = headers;
        s
    }

    /// Sets the canonical header order; `None` leaves the headers as given.
    pub fn headers_order(self, order: Option<Vec<Vec<u8>>>) -> (r: InnerRequestBuilder)
        ensures
            r == (InnerRequestBuilder { headers_order: order, ..self }),
    {
        let mut s = self;
        s.headers_order = order;
        s
    }

    /// Sets the egress path.
    pub fn network_scheme(self, network_scheme: NetworkScheme) -> (r: InnerRequestBuilder)
        ensures
            r == (InnerRequestBuilder { network_scheme, ..self }),
    {
        let mut s = self;
        s.network_scheme = network_scheme;
        s
    }

    /// Sets the body and finalizes the request. `exact_len` is the body's
    /// exact size when it is known. With a canonical header order, a
    /// `content-length` header is added for a body of known size unless one
    /// is set, and the headers are put in that order.
    pub fn body<B>(self, body: B, exact_len: Option<u64>) -> (r: InnerRequest<B>)
        requires
            finalizable(self),
        ensures
            header_map_entries(r.request.headers) == built_headers(self, exact_len),
            r.request.method == self.method,
            r.request.uri == self.uri,
            r.request.version == self.version,
            r.request.body == body,
            r.version_pref == self.version_pref,
            r.network_scheme == self.network_scheme,
    {
        let InnerRequestBuilder { method, uri, version, version_pref, headers, headers_order, network_scheme } = self;
        let mut headers = headers;
        if let Some(order) = &headers_order {
            finalize_header_map(&mut headers, exact_len, order);
        }
        InnerRequest {
            request: RequestParts { method, uri, version, headers, body },
            version_pref,
            network_scheme,
        }
    }
}

} // verus!
