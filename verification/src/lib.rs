//! Movable-type speech: turns Chinese text into a sequence of recorded
//! syllable clips and transforms the resulting 16-bit mono sample stream.

pub mod audio_processor;
pub mod connect;
pub mod huoziyinshua;
pub mod laws;
pub mod results;
pub mod text;

pub use huoziyinshua::{HuoziError, Huoziyinshua};
pub use text::ascii_to_pinyin;
