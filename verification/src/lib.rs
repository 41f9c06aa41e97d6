//! Decodes the account blobs of an on-chain program into named value trees,
//! by the interface description of the program.
//!
//! `loader` builds the `schema` from a parsed document (`anchor_idl`);
//! `resolver` tells the account type of a blob by its leading tag; `layout`
//! decodes the bytes after the tag, field by field, and `encode` states the
//! layout in the other direction; `account` joins the two for one blob and
//! `snapshot` collects the records of many.

pub mod account;
pub mod anchor_idl;
pub mod encode;
pub mod encoding;
pub mod layout;
pub mod loader;
pub mod resolver;
pub mod schema;
pub mod snapshot;
pub mod text;
pub mod value;
pub mod wire;
