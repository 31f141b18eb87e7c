//! Background job orchestration and event notification.
//!
//! The coordinator ([`manager::EventManager`]) owns a queue of background
//! jobs and their [`report::JobReport`] records, drives the job lifecycle
//! `Queued -> Running -> (Completed | Failed)`, and publishes one
//! [`event::ClientEvent`] on its [`bus::EventBus`] for every observable
//! transition.  HTTP handlers and other collaborators talk to it through
//! [`event::ClientRequest`] / [`event::ClientResponse`] values; the work a
//! job performs, and all I/O, stay outside and feed results back in as
//! plain values.  The guarantees this gives — one `JobStarted`, then
//! progress, then exactly one terminal event per job; monotone reports;
//! first-in-first-out starts; no replay to late subscribers — are stated
//! and proved in [`laws`].
//!
//! [`auth`] holds the credential-handling half of the server: Basic
//! header parsing, base64 token decoding, credential splitting and the
//! bcrypt password check.

pub mod auth;
pub mod bus;
pub mod event;
pub mod job;
pub mod laws;
pub mod manager;
pub mod report;
pub mod runner_id;
pub mod trace;
