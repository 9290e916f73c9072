//! A self-describing block-compression envelope.
//!
//! Raw byte payloads are wrapped in a small binary header carrying a format
//! version, a text-encoding tag and the decompressed size, so that the
//! compression can be reversed losslessly and the payload's original
//! interpretation restored. The LZ4 block work itself is delegated to an
//! external primitive; everything around it — the header framing, the output
//! buffer lifecycle and the concurrency threshold — is verified here.

mod block;
mod buffer;
mod encoding;
mod error;
mod header;
mod strategy;

pub use block::compress;
pub use block::compress_varint;
pub use block::compress_with_header;
pub use block::decompress;
pub use block::decompress_varint;
pub use block::decompress_with_header;

pub use buffer::MutableBuffer;
pub use encoding::Encoding;
pub use error::Lz4Error;
pub use header::Header;
pub use header::VersionAndEncoding;
pub use header::CURRENT_VERSION;
pub use header::FIXED_HEADER_SIZE;
pub use strategy::MAX_INPUT_LEN;
pub use strategy::nogvl_if_large;
