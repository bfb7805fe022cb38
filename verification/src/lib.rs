//! The traversal of a privacy-preserving transaction: what runs next and on what state, which
//! shards are fetched on the way, and what is published or why it is rejected.
pub mod account;
pub mod account_laws;
pub mod bloat;
pub mod codec;
pub mod codec_laws;
pub mod data;
pub mod error;
pub mod forwarder_laws;
pub mod id_map;
pub mod instruction;
pub mod laws;
pub mod model;
pub mod namespace_forwarder;
pub mod output;
pub mod output_laws;
pub mod position;
pub mod program;
pub mod program_laws;
pub mod requests;
pub mod spending;
pub mod traversal;
pub mod traversal_laws;
pub mod witness;
pub mod witness_laws;
