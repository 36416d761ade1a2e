//! The request/response core of a small HTTP/1.1 server: parsing a request from the lines
//! and bytes of a connection, choosing a route, and writing the response in its wire form.
//! Reading and writing the connection and the files is left to the caller, which performs
//! the `router::Action` that the router hands back.
pub mod errors;
pub mod header;
pub mod request;
pub mod response;
pub mod router;
pub mod text;
pub mod utils;
