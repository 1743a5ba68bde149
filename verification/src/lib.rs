//! Core connection model of a tiling window manager for macOS.
//!
//! The library synthesizes an authoritative model of the running
//! applications and their windows from the observations that the
//! platform layer hands it (application lifecycle notifications,
//! accessibility notifications, and on-screen window enumerations),
//! and turns the window manager's placement commands into precise
//! plans for the side-effecting accessibility calls that an outer
//! driver performs.
//!
//! Every decision the manager takes — which processes to track, which
//! windows to manage, where the hide point lies, how animation
//! suppression is sequenced, which windows a `WindowCreated`
//! notification introduced — is implemented and verified here over
//! plain values. The driver binary owns the native handles, performs
//! the actual OS calls, and feeds their outcomes back in.

pub mod conn;
pub mod error;
pub mod event;
pub mod geometry;
pub mod sys;
pub mod win;
