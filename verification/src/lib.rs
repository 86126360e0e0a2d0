//! Verified core of the Greenlight node plugin, signer proxy and client:
//! request staging, hsmd request routing, proxy dispatch, peer reconnection
//! planning, signature-context header handling, scheduler helpers and
//! request authorization.

pub mod auth;
pub mod hsm;
pub mod hsmproxy;
pub mod node;
pub mod pb;
pub mod scheduler;
pub mod stager;
