//! A compact binary message codec for a LAN chat, and the decision logic of
//! the broadcast server that carries it.
//!
//! The wire format packs two bit-fields into a one-byte header, compacts a
//! 32-bit session identifier into 1-4 bytes, and carries a bounded UTF-8
//! nickname buffer addressed by codepoint, followed by free-form content and
//! a terminating zero byte.

pub mod errors;
pub mod header;
pub mod identifier;
pub mod invoke;
pub mod message;
pub mod nickname;
pub mod server;
pub mod stream;
pub mod text;

pub use header::FromHeader;
pub use header::Header;
pub use header::HeaderComponent;
pub use identifier::Identifier;
pub use identifier::IdentifierAllocator;
pub use invoke::StartupOption;
pub use message::Message;
pub use nickname::Nickname;
pub use server::ConnectionWorker;
pub use server::IngestAction;
pub use server::MessageLog;
