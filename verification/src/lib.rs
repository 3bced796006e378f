//! The core of an interactive command-line shell: a quote-aware tokenizer,
//! a redirection resolver, a completion engine and a line editor that works
//! on raw terminal bytes.
pub mod text;
pub mod tokenizer;
pub mod redirect;
pub mod completion;
pub mod editor;
pub mod shell;
pub mod dispatch;
pub mod paths;
