//! A single-pass XML tokenizer: raw text in, an ordered sequence of typed
//! tokens (or the first structured failure) out.
//!
//! `grammar` and `markup` give the meaning of every reader as spec
//! functions over the text and a position; `scanner`, `reader`, `tags` and
//! `driver` hold the executable readers, each proved to agree with its
//! model; `laws` states what holds across calls.
pub mod cursor;
pub mod token;
pub mod grammar;
pub mod markup;
mod text;
pub mod scanner;
pub mod reader;
pub mod tags;
pub mod driver;
pub mod laws;
pub mod locality;

pub use cursor::XmlChars;
pub use driver::{consume_entity, consume_text, parse, tokenizer};
pub use reader::{
    consume_comment, consume_dtd, consume_instruction, consume_pi, consume_processing_instruction,
    consume_prolog, consume_until,
};
pub use scanner::{consume_name, consume_tag_attribute, consume_value, consume_white_spaces, is_illegal};
pub use tags::{consume_end_tag, consume_start_tag};
pub use token::{ErrorKind, ParseError, Token};
