//! Core logic of a multi-tenant server for a line-oriented, TLS-only
//! request/response protocol: request-line validation, the ordered routing
//! decision tree, gateway environment and framing construction, directory
//! listings, and the connection lifecycle model.

pub mod status;
pub mod text;
pub mod errors;
pub mod config;
pub mod request;
pub mod paths;
pub mod mime;
pub mod util;
pub mod routing;
pub mod gateway;
pub mod proxy;
pub mod listing;
pub mod lifecycle;
pub mod tls;
