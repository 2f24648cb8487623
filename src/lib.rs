//! A small request-serving core. It holds the hand-off queue between the
//! acceptor and the workers, decodes the first read of a connection into a
//! request, routes it, decides what to ask of the user store, and encodes
//! the one reply that each connection gets.

pub mod dispatch;
pub mod handler;
pub mod query;
pub mod request;
pub mod seed;
pub mod split;
pub mod wire;

pub use dispatch::{Dispatch, Pulled};
pub use handler::{Action, Event, Phase, Route, User, route, step};
pub use query::{QueryParams, parse_query_string};
pub use request::{Request, decode_request};
pub use seed::{SEED_ROWS, seed_names};
pub use wire::{ContentType, Response, Status, encode_response};
