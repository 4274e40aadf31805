//! A verified service-composition and authentication framework.
//!
//! The crate models a host process that assembles independently configured
//! sub-services into one request-routing tree under distinct path prefixes,
//! and guards access to protected routes with opaque bearer tokens checked
//! against a credential store.

pub mod auth_layers;
pub mod bookstore;
pub mod credential_store;
pub mod errors;
pub mod greeter;
pub mod librarian;
pub mod my_other_service;
pub mod my_service;
pub mod registry;
pub mod routing;
pub mod service_config;
pub mod services;
pub mod streaming;
pub mod text;
pub mod web_service;
