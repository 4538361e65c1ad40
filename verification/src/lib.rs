//! A verified simulation of the Enigma cipher machine: rotors with stepping
//! and turnover notches, a rotor chain with the double-step anomaly, a
//! plugboard, an entry disk, a reflector, and the two-pass keying protocol.

pub mod alphabet;
pub mod enigma;
pub mod enigma_builder;
pub mod entry_disk;
pub mod errors;
pub mod plugboard;
pub mod reflector;
pub mod rotor;
pub mod rotor_chain;
pub mod sanitize;
pub mod text;
pub mod wiring;

pub use crate::alphabet::SUPPORTED_ALPHABET;
pub use crate::enigma::{EncodingResult, Enigma};
pub use crate::enigma_builder::{BuildError, EnigmaBuilder, RotorPlacement};
pub use crate::entry_disk::EntryDisk;
pub use crate::plugboard::{Plugboard, PlugboardConnection};
pub use crate::reflector::Reflector;
pub use crate::rotor::Rotor;
pub use crate::rotor_chain::RotorChain;
