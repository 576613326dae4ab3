//! The decisions of the HTTP interface: who may use it, and what it answers.

pub mod response;
pub mod routes;
