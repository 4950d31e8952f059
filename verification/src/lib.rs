pub mod encode;
pub mod encode_data;
pub mod encode_msg;
pub mod builder;
pub mod data;
pub mod errors;
pub mod fidelity;
pub mod file_fidelity;
pub mod field_helpers;
pub mod format_laws;
pub mod formats;
pub mod info_text;
pub mod macro_utils;
pub mod message_buf;
pub mod messages;
pub mod model;
pub mod parser;
pub mod path_filter;
pub mod primitive;
pub mod steps;
pub mod text;
pub mod text_forms;
pub mod tokenizer;
pub mod values;
pub mod pool;
pub mod meaning_laws;
