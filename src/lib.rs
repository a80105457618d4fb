//! Browser-impersonation configuration: ALPN encoding, the TLS connector and
//! per-handshake settings of a profile, and the shaping of outgoing requests
//! (content length and canonical header order).

pub mod alpn;
pub mod header_map;
pub mod headers;
pub mod request;
pub mod tls;
