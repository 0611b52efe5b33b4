//! Password generation by bounded rejection sampling over character-class
//! constraints, with letters drawn either one by one or from a word list.

mod config;
mod constraint;
mod generator;
mod random;
mod text;

pub use config::{check_config, check_words, split_words, usable_words, white, ConfigError};
pub use constraint::{effective_required, Constraint};
pub use generator::{
    accepts, digit_at, generate, lemma_chars_alphabet, letter_at, pick_letter, pick_word, Config,
    verdicts, Exhausted, Picker, Rejection,
};
pub use text::chars_of;
