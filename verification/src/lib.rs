//! A small compiler pipeline: a typed middle language, its type checker, its
//! lowering to a QBE-shaped language, the printer of QBE IL text, the JSON
//! form of the middle language, and the backend that plans the build.
//!
//! Every function is verified against a contract over the mathematical
//! values of its arguments. What is taken on trust of `ninja_writer` and of
//! `std::path` stands in `backend`.

pub mod assoc;
pub mod backend;
pub mod compiler;
pub mod cond_laws;
pub mod il;
pub mod json_lang;
pub mod json_lower;
pub mod json_raise;
pub mod lower;
pub mod lower_lang;
pub mod lower_laws;
pub mod lowering_context;
pub mod middle_lang;
pub mod middle_lang_check;
pub mod mir;
pub mod pool_laws;
pub mod text;
pub mod type_check;
