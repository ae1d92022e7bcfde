//! A minimal HTTP/1.1 request/response pipeline: request parsing, target
//! routing, route handling and response serialization, all specified over
//! byte sequences. Socket and filesystem access live outside this crate;
//! the library is handed the bytes read from a connection and the outcome
//! of any filesystem operation, and it determines the exact bytes that go
//! back on the wire.

pub mod handlers;
pub mod message;
pub mod parser;
pub mod router;
pub mod serializer;
pub mod text;
