//! Node that runs a script decoder.

pub mod decoder;
pub mod decoder_laws;
pub mod outputs;
pub mod work;
