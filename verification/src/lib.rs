pub mod context;
pub mod dispatcher;
pub mod handlers;
pub mod help;
pub mod invocation;
pub mod registry;
pub mod text;
pub mod tokenizer;
