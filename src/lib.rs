//! Merging a first-pass token stream against a user vocabulary: each run of
//! consecutive tokens whose joined text is a vocabulary entry becomes one
//! token, chosen greedily, longest first, from the left.
pub mod laws;
pub mod merge;
pub mod source;
pub mod table;
pub mod token;
pub mod vocabulary;

pub use merge::{correct_tokens, merge_user_dictionary_words, pass_through};
pub use source::{tokenize_text, TokenizationError};
pub use table::{decimal_string, encode_table, header_record, token_record, utf8_bom, TableError};
pub use token::{MergedToken, Token, TokenModel};
pub use vocabulary::Vocabulary;
