//! Normalization and comparison of human personal names in free text:
//! splitting text into words on a configurable separator set, rejoining
//! words with canonical single spaces, stripping diacritics, case
//! transforms, first-letter comparison, and a tokenizer that classifies the
//! connector particles "de", "la", "del" and "y" in names.

mod compare;
mod join;
mod laws;
mod partes;
mod split;
mod text;
mod transform;

pub use compare::compare_first_letter;
pub use compare::first_letters;
pub use compare::n_chars;
pub use compare::n_chars_of;
pub use compare::prefix_lowered;

pub use join::concat_strings;
pub use join::interleave_spaces;
pub use join::joined_spaces;
pub use join::sanitize_spaces;
pub use join::sanitize_spaces_iter;
pub use join::space_join;
pub use join::SpaceJoiner;

pub use laws::canonical_text;
pub use laws::content;
pub use laws::lemma_round_trip;
pub use laws::lemma_sanitize_spaces_idempotent;
pub use laws::lemma_split_of_joined;
pub use laws::lemma_splitter_reproduces_content;
pub use laws::words_content;

pub use partes::classify;
pub use partes::is_tok_sep;
pub use partes::lemma_token_runs_plain;
pub use partes::lex_partes;
pub use partes::token_runs;
pub use partes::Partes;
pub use partes::Token;

pub use split::iter_words;
pub use split::iter_words_ext;
pub use split::plain_word;
pub use split::trim_ws;
pub use split::words_of;

pub use text::concat_all;
pub use text::first_lower;
pub use text::is_base_sep;
pub use text::is_sep;
pub use text::is_ws;
pub use text::lower_of;
pub use text::nfd_first;
pub use text::str_chars;
pub use text::upper_of;

pub use transform::cap_first;
pub use transform::capitalized;
pub use transform::chars_to_lower;
pub use transform::chars_to_upper;
pub use transform::first_char_to_upper_then_lower;
pub use transform::lower_all;
pub use transform::nfd_map;
pub use transform::replace_all;
pub use transform::replace_chars;
pub use transform::rm_specials;
pub use transform::rm_specials_char;
pub use transform::sanitize;
pub use transform::sanitize_name_iter;
pub use transform::sanitized;
pub use transform::upper_all;
