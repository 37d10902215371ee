//! Verified core logic of an SOVD (ISO 17978) diagnostic stack.

pub mod bulkdata;
pub mod client;
pub mod diagnostic;
pub mod docs;
pub mod gateway;
pub mod keyed;
pub mod mdns;
pub mod models;
pub mod net;
pub mod openapi_refs;
pub mod providers;
pub mod proxy;
pub mod server;
pub mod stamp;
pub mod text;
pub mod tls;
