//! Client-side core of a networked, turn-based stone-placement board game:
//! the wire codec, the board and room mirror, the pointer-to-cell mapping and
//! the session state machine. Everything here is pure and verified; drawing,
//! the transport and the page belong to the embedding application.

pub mod codec;
pub mod decoration;
pub mod feedback;
pub mod form;
pub mod format;
pub mod frames;
pub mod logic;
pub mod machine;
pub mod mapper;
pub mod protocol;
pub mod room;
pub mod session;
pub mod wire;
