//! Room management and length-prefixed message framing for a relay server.
mod external;
pub mod framing;
pub mod members;
pub mod registry;
pub mod room;
pub mod room_ids;
pub mod session;
pub mod text;
