//! Password generation with proved policy guarantees: every password has the
//! requested length, holds no excluded character, and holds the characters
//! that the policy asks for.

pub mod glyphs;
pub mod entropy;
pub mod scrub;
pub mod pool;
pub mod terminal;
pub mod cmdline;
pub mod policy;
pub mod password;
pub mod character_generator;
pub mod printer;
