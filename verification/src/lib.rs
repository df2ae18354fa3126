//! Feistel network cipher constructions: balanced and unbalanced Feistel
//! networks, key scheduling, S-boxes with nonlinearity measurement,
//! bit-level permutation networks and round functions.

pub mod bits;
pub mod feistel;
pub mod counting;
pub mod sbox;
pub mod round;
pub mod key_schedule;
pub mod permutation;
pub mod walsh;

pub use feistel::{BalancedFeistel, UnbalancedFeistel};
pub use key_schedule::KeySchedule;
pub use sbox::SBox;
