//! Protocol runtime for the Energistics Transfer Protocol, version 1.2:
//! frame codec, session state machine, capability negotiation and the
//! `eml:///` URI scheme.

pub mod capabilities;
pub mod connection;
pub mod credentials;
pub mod header;
pub mod message;
pub mod uri;
