//! A minimal static-content HTTP server core: request parsing and
//! validation, directory-listing synthesis, and response framing.
//!
//! The surrounding program supplies the sockets, the thread pool and the
//! filesystem reads; every decision between those edges is made here.

mod bytes;
pub mod listing;
pub mod request;
pub mod response;

pub use listing::FsEntry;
pub use listing::render_listing;
pub use request::HttpError;
pub use request::HttpField;
pub use request::plan_request;
pub use response::build_response;
pub use response::FetchFailure;
pub use response::ResolvedContent;
