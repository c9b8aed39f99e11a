//! A verified core for a small line-oriented file-transfer client.
//!
//! - `frame`: how requests are framed and announced on the wire.
//! - `reply`: decoding of the short replies the server sends (sizes and
//!   acknowledgements).
//! - `transfer`: the receiving state machines for texts and files.
//! - `exchange`: the client's exchanges with the server (upload announcement,
//!   remote listing, download) as state machines that hand out actions.
//! - `listing`: parsing of the remote directory listing.
//! - `command`, `paths`: what the user types and where files are stored.
//! - `text`: character-level helpers shared by the above.
//! - `laws`, `listing_law`, `exchange_law`: properties that relate the
//!   operations, proved.

pub mod command;
pub mod delivery_law;
pub mod exchange;
pub mod exchange_law;
pub mod frame;
pub mod laws;
pub mod listing;
pub mod listing_law;
pub mod paths;
pub mod reply;
pub mod text;
pub mod transfer;
