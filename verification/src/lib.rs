pub mod cli;
pub mod digits;
pub mod logging;
pub mod metadata;
pub mod mimetypes;
pub mod order;
pub mod paths;
pub mod rename;
pub mod scan;
pub mod season;
pub mod target;
pub mod text;
pub mod tokenizer;
