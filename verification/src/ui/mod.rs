//! Logic of the bridge explorer: text encodings of ids, the records served
//! to clients, the reconstruction of stored blocks and the decisions of the
//! web handlers.
pub mod db;
pub mod error;
pub mod rows;
pub mod stored;
pub mod util;
pub mod view;
pub mod web;
