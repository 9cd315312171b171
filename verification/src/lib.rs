//! The protocol engine of a static file server: which file a request
//! addresses, whether it may be served, and which status, header fields and
//! body answer it.
//!
//! The engine decides and leaves the doing to its caller.  It reads no
//! file and writes to no socket; what it needs to know of the file system
//! it is told, and what is to be read or sent it says.
//!
//! A request goes through it in these steps:
//!
//! 1. [`server::Request::from_wire`] reads the request out of its header
//!    fields.
//! 2. [`server::serve::InnerService::locate`] resolves the path of the
//!    request to a file, and
//!    [`index_path`](server::serve::InnerService::index_path) to the index
//!    of a directory where indexes are rendered.
//! 3. The caller looks the file up and fills in a
//!    [`server::serve::Target`].
//! 4. [`server::serve::InnerService::handle_request`] runs the gates and
//!    the validators and decides on the response.
//! 5. Where the response has a body of its own, the caller produces it with
//!    the help of [`server::send`], and
//!    [`finish`](server::serve::InnerService::finish) completes the
//!    response.
//! 6. [`server::Response::header_fields`] writes the header fields, and
//!    [`watch`](server::serve::InnerService::watch) sets the watch that
//!    says when the line of the access log is due.

pub mod cli;
pub mod extensions;
pub mod http;
pub mod paths;
pub mod server;
pub mod text;
