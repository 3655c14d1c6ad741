//! Management of hosts files: parsing, serialising and editing entries.
pub mod text;
pub mod model;
pub mod addr;
pub mod validation;
pub mod parser;
pub mod serializer;
pub mod roundtrip;
pub mod edit;
pub mod store;
pub mod check;
pub mod table;
pub mod cli;
pub mod merge;
pub mod laws;
pub mod resolve;
pub mod commands;
pub mod api;
pub mod remerge;
pub mod stored;
pub mod parsed;
