//! The `permessage-deflate` WebSocket extension (RFC 7692): strict
//! negotiation of the extension during the handshake, and the
//! per-connection codec that compresses and decompresses message payloads
//! as a raw deflate stream with the sync-flush trailer stripped from the
//! wire form.

pub mod codec;
pub mod deflate;
pub mod extensions;
pub mod headers;
mod strutil;
