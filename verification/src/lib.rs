//! Verified core of a WebDAV request handler: the PROPFIND request-body
//! state machine, the multistatus response it answers with, the access and
//! depth rules of collection listings, and the MKCOL outcome rules.

pub mod xml_model;
pub mod propfind_request;
pub mod decimal;
pub mod file_time;
pub mod mime;
pub mod response;
pub mod render;
pub mod access;
pub mod listing;

