//! A minimal, embeddable HTTP request router.
//!
//! The crate models the route-resolution core of a small web server: a
//! `Request`/`Response` data model, an ordered route table, a wildcard
//! fallback-matching router, and a dispatcher that hands a resolved request
//! to a user-supplied handler.  All of it is verified: every public function
//! carries a contract, and the routing laws (exact matches win, more
//! specific wildcard routes win, capture order follows the path) are proved
//! as lemmas.

pub mod dict;
pub mod http;
pub mod routing;
pub mod strutil;

pub use routing::Configuration;
pub use routing::Handler;
pub use routing::Routes;
pub use routing::Server;
pub use routing::Servo;
pub use routing::default_router;
pub use routing::route_request;
