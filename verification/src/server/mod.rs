pub mod auth;
pub mod error;
pub mod routes;
pub mod schema;
