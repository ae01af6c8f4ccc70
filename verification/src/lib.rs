//! tickets-ui: a web user interface for a ticket tracker, rendered on the server.
//!
//! The library decides everything that the actor does; the actor's host does
//! the input and output. A connection goes through these modules:
//!
//! * `actor`: receive a request, answer it, close; log and apologise on failure
//! * `routes`: from a request to a page, or to a call of the tickets API
//! * `form`, `json`: what the browser posts, and what the API is told
//! * `api`, `reply`: one call of the tickets API, and what it sends back
//! * `views`, `html`, `http`: pages, and the responses that carry them
//! * `text`: scanning and building text, for all of the above
//!
//! Each module states with its functions what they compute, and ends with the
//! laws that hold of them together. `laws` holds those of the whole way, from
//! what a browser writes to what the tickets API or the browser then reads.

pub mod actor;
pub mod api;
pub mod form;
pub mod html;
pub mod http;
pub mod io;
pub mod json;
pub mod laws;
pub mod reply;
pub mod routes;
pub mod state;
pub mod text;
pub mod views;
