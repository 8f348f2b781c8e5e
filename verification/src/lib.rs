//! A read-through result cache in front of a relational database.
//!
//! A request is a statement with the values for its placeholders. The
//! statements whose results may be cached are registered as templates
//! ([`template`], [`matcher`]). The result of a request is kept under a key
//! derived from the statement and the values ([`key`]), in its byte form
//! ([`codec`]), until the time-to-live of the template has passed
//! ([`store`]). What is read from the database is brought into one model of
//! values ([`value`], [`convert`], [`render`]).
//!
//! [`pipeline`] decides, request by request, what is to be done. It does not
//! reach the database itself: it says which statement is to be executed
//! and takes what came back.

pub mod codec;
pub mod config;
pub mod convert;
pub mod health;
pub mod key;
pub mod matcher;
pub mod pipeline;
pub mod render;
pub mod store;
pub mod template;
pub mod text;
pub mod value;
