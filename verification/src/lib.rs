//! Terminal client for Azure DevOps work items: the domain model, the
//! in-memory backend, the pickers and editors behind the UI, the relationship
//! tree, and the HTML report, each with its verified contract.
pub mod api;
pub mod app;
pub mod auth;
pub mod config;
pub mod detail;
pub mod event;
pub mod filters;
pub mod keys;
pub mod report;
pub mod text;
pub mod tree_view;
pub mod ui;
pub mod view;
