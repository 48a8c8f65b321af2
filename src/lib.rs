//! An emulation of the signal path of a three-rotor cipher machine: plugboard, rotors,
//! reflector, and the stepping mechanism with its double step.
pub mod keys;
pub mod machine;
pub mod plugboard;
pub mod rotor;
pub mod stepping;

pub use keys::key_letter;
pub use machine::encode;
pub use plugboard::{create_plugboard, key_equal, toggle_connection};
pub use rotor::{default_rotor_state, reset_rotors, turn_rotor, Rotor, REFLECTOR};
pub use stepping::step;
