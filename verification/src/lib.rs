//! Transactional control-plane storage for a multi-tenant search server:
//! an authorization key store with a secondary inverted index for fast
//! permission checks, and a task/update pipeline that content-addresses
//! uploaded payloads and records every mutating operation as a durable,
//! strictly-ordered task.

pub mod action;
pub mod codec;
pub mod key;
pub mod auth_store;
pub mod task;
pub mod task_store;
pub mod content_store;
pub mod document_formats;
pub mod index_controller;
pub mod api_key;
