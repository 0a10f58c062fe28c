//! Key-management core of a hardware root of trust.
//!
//! The library derives password-based key material, stages long-term device
//! keys, signs boot images, and decrypts/verifies the FPGA configuration
//! image ("gateware") through a seekable chained-block cipher oracle that
//! accounts for the bitstream's hardware-native bit ordering.

pub mod bits;
pub mod cache;
pub mod keys;
pub mod layout;
pub mod oracle;
pub mod primitives;
pub mod process;

pub use bits::bitflip;
pub use keys::RootKeys;
pub use layout::KeyField;
pub use oracle::BitstreamOracle;
