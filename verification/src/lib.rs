//! Client core for a legacy SOAP/XML-RPC remote API.
//!
//! The crate turns structured method-call descriptions into SOAP XML
//! envelopes, parses returned XML into a generic element tree, offers safe
//! path navigation over that tree, and builds an operation-name to
//! endpoint-URL table from a WSDL service description. All parsing,
//! serialization and navigation logic is verified; the HTTP transport is a
//! thin unverified layer on top.

pub mod codec;
pub mod errors;
pub mod laws;
pub mod parser;
pub mod session;
pub mod soap;
pub mod text;
pub mod tree;
pub mod wsdl;
