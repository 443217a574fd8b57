//! A fixed-capacity history of snapshots kept inside a single byte buffer.
//!
//! Each snapshot copies a few byte regions out of a watched buffer, is tagged
//! with a clock value, and is written into a circular array of elements that
//! follows a fixed-size header. A second, simpler ring keeps typed values
//! inline and backs a history of oracle prices.
pub mod errors;
pub mod identity;
pub mod regions;
pub mod header;
pub mod ring;
pub mod history;
pub mod lifecycle;
pub mod svec_modulo;
pub mod oracle;
pub mod address;
