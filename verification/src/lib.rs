//! A WebDAV file service over an object bucket, as a conversation.
//!
//! [`service`] takes a request and answers with a step: a reply, a place to pass the request on to,
//! or something to ask of the bucket together with the task to resume with the answer. Nothing here
//! waits or does I/O. The modules below say what becomes of each kind of request, [`world`] pictures
//! the bucket, and the modules of laws say what conversations with it come to.

pub mod access_laws;
pub mod auth;
pub mod codec;
pub mod dav;
pub mod dav_laws;
pub mod escape;
pub mod file_laws;
pub mod files;
pub mod key_laws;
pub mod keys;
pub mod listing;
pub mod listing_laws;
pub mod machine;
pub mod media;
pub mod media_laws;
pub mod model;
pub mod multipart;
pub mod numbers;
pub mod page_laws;
pub mod pages;
pub mod query;
pub mod range;
pub mod reply;
pub mod request_laws;
pub mod service;
pub mod share;
pub mod sort;
pub mod storage_laws;
pub mod text;
pub mod text_laws;
pub mod transfer_laws;
pub mod transfers;
pub mod upload_laws;
pub mod uploads;
pub mod world;
