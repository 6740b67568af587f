//! The structural type algebra of a TypeScript-like type checker: identity,
//! union simplification, intersection, assignability and extension with
//! inference, with the small parsers around it (path aliases, comments in
//! JSON, job schedules).
pub mod types;
pub mod copy;
pub mod identity;
pub mod union;
pub mod laws;
pub mod shape;
pub mod resolve;
pub mod intersect;
pub mod assign;
pub mod extends;
pub mod jsonc;
pub mod paths;
pub mod cron;
