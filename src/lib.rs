//! Short links scoped to a session: memorable tokens, a link table with
//! soft deletion and a schema gate, the allocation loop that resolves token
//! collisions, and what each route of the service decides.
pub mod allocation;
pub mod cgi;
pub mod laws;
pub mod routes;
pub mod schema;
pub mod store;
pub mod text;
pub mod token;
