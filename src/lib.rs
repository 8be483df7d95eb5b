pub mod config;
pub mod conflict;
pub mod error;
pub mod fileset;
pub mod format;
pub mod github;
mod host;
pub mod lex;
pub mod lines;
pub mod local;
pub mod lock;
pub mod machines;
pub mod merge;
pub mod pathorder;
pub mod paths;
pub mod safety;
pub mod section_laws;
pub mod sections;
pub mod strmap;
pub mod text;
pub mod updates;
