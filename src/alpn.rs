use vstd::prelude::*;

verus! {

/// Which application protocols a client offers during the handshake.
#[derive(Clone, Copy, Debug, PartialEq, Eq, Structural)]
pub enum HttpVersionPref {
    /// Offer `http/1.1` only.
    Http1,
    /// Offer `h2` only.
    Http2,
    /// Offer `h2`, then `http/1.1`.
    All,
}

/// The HTTP version written on a request line, as the library sees it.
#[derive(Clone, Copy, Debug, PartialEq, Eq, Structural)]
pub enum HttpVersion {
    Http09,
    Http10,
    Http11,
    Http2,
    Http3,
}

/// The preference used when nothing more specific is known.
pub open spec fn default_pref() -> HttpVersionPref {
    HttpVersionPref::All
}

impl HttpVersionPref {
    pub fn default_pref() -> (r: HttpVersionPref)
        ensures
            r == default_pref(),
    {
        HttpVersionPref::All
    }
}

/// The protocol identifier `http/1.1`.
pub open spec fn http11_id() -> Seq<u8> {
    seq![104u8, 116u8, 116u8, 112u8, 47u8, 49u8, 46u8, 49u8]
}

/// The protocol identifier `h2`.
pub open spec fn h2_id() -> Seq<u8> {
    seq![104u8, 50u8]
}

/// One entry of an ALPN list: the identifier preceded by its length.
pub open spec fn length_prefixed(id: Seq<u8>) -> Seq<u8> {
    seq![id.len() as u8] + id
}

/// The ALPN list that a preference puts on the wire.
pub open spec fn alpn_wire(pref: HttpVersionPref) -> Seq<u8> {
    match pref {
        HttpVersionPref::Http1 => length_prefixed(http11_id()),
        HttpVersionPref::Http2 => length_prefixed(h2_id()),
        HttpVersionPref::All => length_prefixed(h2_id()) + length_prefixed(http11_id()),
    }
}

/// The protocol whose settings go into the application-settings extension.
pub open spec fn application_settings_id(pref: HttpVersionPref) -> Seq<u8> {
    match pref {
        HttpVersionPref::Http1 => http11_id(),
        _ => h2_id(),
    }
}

/// The preference that a request's HTTP version calls for.
pub open spec fn pref_of_version(v: HttpVersion, fallback: HttpVersionPref) -> HttpVersionPref {
    match v {
        HttpVersion::Http09 | HttpVersion::Http10 | HttpVersion::Http11 => HttpVersionPref::Http1,
        HttpVersion::Http2 => HttpVersionPref::Http2,
        _ => fallback,
    }
}

/// Maps a request's HTTP version to a protocol preference; versions it does
/// not know fall back to the default preference.
pub fn map_version_to_pref(version: HttpVersion) -> (r: HttpVersionPref)
    ensures
        r == pref_of_version(version, default_pref()),
{
    match version {
        HttpVersion::Http09 | HttpVersion::Http10 | HttpVersion::Http11 => HttpVersionPref::Http1,
        HttpVersion::Http2 => HttpVersionPref::Http2,
        _ => HttpVersionPref::default_pref(),
    }
}

/// The ALPN wire bytes for a preference.
pub fn alpn_protos(pref: HttpVersionPref) -> (r: Vec<u8>)
    ensures
        r@ == alpn_wire(pref),
{
    match pref {
        HttpVersionPref::Http1 => vec![8u8, 104u8, 116u8, 116u8, 112u8, 47u8, 49u8, 46u8, 49u8],
        HttpVersionPref::Http2 => vec![2u8, 104u8, 50u8],
        HttpVersionPref::All => {
            let r = vec![2u8, 104u8, 50u8, 8u8, 104u8, 116u8, 116u8, 112u8, 47u8, 49u8, 46u8, 49u8];
            assert(r@ =~= alpn_wire(pref));
            r
        },
    }
}

/// The protocol identifier for the application-settings extension.
pub fn application_settings_protocol(pref: HttpVersionPref) -> (r: Vec<u8>)
    ensures
        r@ == application_settings_id(pref),
        pref == HttpVersionPref::Http1 ==> r@.len() == 8,
        pref != HttpVersionPref::Http1 ==> r@.len() == 2,
{
    match pref {
        HttpVersionPref::Http1 => vec![104u8, 116u8, 116u8, 112u8, 47u8, 49u8, 46u8, 49u8],
        _ => vec![104u8, 50u8],
    }
}

/// Every preference yields a well-formed ALPN list, and a list that offers both
/// protocols names `h2` before `http/1.1`.
pub proof fn lemma_alpn_wire_layout(pref: HttpVersionPref)
    ensures
        pref == HttpVersionPref::All ==> alpn_wire(pref).subrange(0, 3) == length_prefixed(h2_id())
            && alpn_wire(pref).subrange(3, 12) == length_prefixed(http11_id()),
        pref == HttpVersionPref::Http1 ==> alpn_wire(pref) == seq![8u8] + http11_id(),
        pref == HttpVersionPref::Http2 ==> alpn_wire(pref) == seq![2u8] + h2_id(),
{
    if pref == HttpVersionPref::All {
        assert(alpn_wire(pref).subrange(0, 3) =~= length_prefixed(h2_id()));
        assert(alpn_wire(pref).subrange(3, 12) =~= length_prefixed(http11_id()));
    }
}

} // verus!
