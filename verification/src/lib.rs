//! Declarative game-content records ("blocks" and "items") modelled as
//! collections of named component fragments, together with a processing
//! engine that lets registered handlers inspect and rewrite those fragments
//! before the content is finalized.
pub mod addon;
pub mod block;
pub mod component;
pub mod config;
pub mod custom;
pub mod item;
pub mod keyed;
pub mod manifest;
pub mod menu_category;
pub mod office;
pub mod parser;
pub mod paths;
pub mod permutation;
pub mod processor;
pub mod rotation;
pub mod state;
pub mod store;
pub mod strings;
pub mod traits;
pub mod translation;
pub mod value;
pub mod version;
