//! Hack Club Auth: logging people in, and what it knows of them.
pub mod data;
pub mod login;
