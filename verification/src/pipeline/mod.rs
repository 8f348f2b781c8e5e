//! Answering one request: from the cache where it can be, else by way of
//! the database.
//!
//! The database is not reached from here. [`query_handler`] decides what is
//! to be done: answer from the cache, fail, or execute the statement. Who
//! executes it hands what came back to [`complete_query`], which makes the
//! answer and stores it.
//!
//! Instants are counted in milliseconds from a moment of the caller's
//! choosing, times to live in seconds.

pub mod binding;
pub mod laws;
pub mod plan;
pub mod request;
pub mod rows;

pub use crate::pipeline::binding::Binding;
pub use crate::pipeline::binding::BindingView;
pub use crate::pipeline::binding::all_bindable;
pub use crate::pipeline::binding::as_array;
pub use crate::pipeline::binding::as_boolean;
pub use crate::pipeline::binding::as_float;
pub use crate::pipeline::binding::as_integer;
pub use crate::pipeline::binding::as_text;
pub use crate::pipeline::binding::bind_parameter;
pub use crate::pipeline::binding::bind_parameters;
pub use crate::pipeline::binding::binding_of;
pub use crate::pipeline::binding::binding_views;
pub use crate::pipeline::binding::bindings_of;
pub use crate::pipeline::plan::PendingQuery;
pub use crate::pipeline::plan::PendingView;
pub use crate::pipeline::plan::QueryStep;
pub use crate::pipeline::plan::StepView;
pub use crate::pipeline::plan::cached_rows;
pub use crate::pipeline::plan::complete_query;
pub use crate::pipeline::plan::entries_after_completion;
pub use crate::pipeline::plan::entries_after_plan;
pub use crate::pipeline::plan::entry_for;
pub use crate::pipeline::plan::planned;
pub use crate::pipeline::plan::planned_ttl;
pub use crate::pipeline::plan::query_handler;
pub use crate::pipeline::plan::served;
pub use crate::pipeline::request::ErrorView;
pub use crate::pipeline::request::QueryError;
pub use crate::pipeline::request::QueryRequest;
pub use crate::pipeline::request::QueryResponse;
pub use crate::pipeline::request::status_of;
pub use crate::pipeline::rows::RawColumn;
pub use crate::pipeline::rows::convert_row;
pub use crate::pipeline::rows::convert_rows;
pub use crate::pipeline::rows::row_fields;
pub use crate::pipeline::rows::row_tree;
pub use crate::pipeline::rows::row_trees;
