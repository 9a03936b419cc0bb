//! Non-blocking byte-stream primitives for protocol sniffing and framing:
//! a peekable stream wrapper that lets callers inspect bytes without
//! consuming them, an exact-peek operation, a delimiter-scanning read
//! operation, and a duplex composer that joins a read half and a write
//! half into one stream.

mod duplex;
mod errors;
mod host;
mod peek;
mod scan;
mod source;

pub use duplex::AsyncReadWriter;
pub use errors::{other_error, IoError};
pub use host::{HostPort, SocketAddress, SocketAddressV4, SocketAddressV6};
pub use peek::{lemma_peek_exact_single_use, lemma_peek_read_coherence, peek_exact, peek_exact2, PeekExact, PeekProgress, PeekableReader};
pub use scan::{has_match, is_first_match, lemma_scan_single_use, match_at, read_until_separator, scan_chunk_stream, ReadUntilSeparator, ScanProgress};
pub use source::{ChunkStream, ReadEvent, WriteSink};
