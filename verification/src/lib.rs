//! Model-to-layout compiler for a microcontroller hardware description:
//! derives legal identifiers from free-text captions, repositions enumerated
//! bitfield values against their masks, assembles per-register flag sets,
//! orders registers by address and allocates auxiliary debug addresses into
//! the gaps.

pub mod casing;
pub mod flags;
pub mod ident;
pub mod layout;
pub mod model;
pub mod resolve;
pub mod values;
