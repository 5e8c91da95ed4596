//! A small decoder for HTTP requests and a builder for responses.

pub mod error;
pub mod headers;
pub mod method;
pub mod request;
pub mod response;
pub mod status;
pub mod uri;
pub mod version;

pub use error::Error;
pub use headers::Headers;
pub use method::Method;
pub use request::Request;
pub use response::Response;
pub use status::Status;
pub use version::Version;
