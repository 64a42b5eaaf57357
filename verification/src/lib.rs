//! A WireGuard agent that keeps a Windows tunnel in line with what a broker announces.
//!
//! This crate holds what the agent knows and decides. It reads the output of the tools that it
//! drives, writes their command lines, and runs every longer procedure as a series of steps: a
//! procedure says what it needs next, its surroundings do it, and the outcome takes the procedure
//! one step further. Nothing here starts a program, opens a file or talks to the network.
//!
//! Reading and writing: [`text`], [`number`], [`ip`], [`ip_text`], [`strmap`], [`digest`],
//! [`keys`].
//!
//! The interface: [`model`], [`wg`], [`wg_state`], [`commands`], [`answers`], [`install`],
//! [`self_ips`].
//!
//! Procedures: [`snapshot`], [`delta`], [`relay`], [`route_sync`] with [`routes`], [`lan`],
//! [`port`], [`retry`], [`register`], [`traffic`].
//!
//! What holds of the longest of them over all their steps: [`snapshot_laws`], [`snapshot_runs`],
//! [`snapshot_care`], [`relay_laws`], [`relay_care`].
//!
//! What holds of the rest: [`text_laws`], [`output_laws`], [`network_laws`], [`command_laws`],
//! [`route_laws`], [`duty_laws`], [`setup_laws`].
//!
//! The agent as a whole: [`config`], [`tls`], [`schedule`].
pub mod answers;
pub mod command_laws;
pub mod commands;
pub mod config;
pub mod delta;
pub mod digest;
pub mod duty_laws;
pub mod install;
pub mod ip;
pub mod ip_text;
pub mod keys;
pub mod lan;
pub mod model;
pub mod network_laws;
pub mod number;
pub mod output_laws;
pub mod port;
pub mod register;
pub mod relay;
pub mod relay_care;
pub mod relay_laws;
pub mod retry;
pub mod route_laws;
pub mod route_sync;
pub mod routes;
pub mod schedule;
pub mod self_ips;
pub mod setup_laws;
pub mod snapshot;
pub mod snapshot_care;
pub mod snapshot_laws;
pub mod snapshot_runs;
pub mod strmap;
pub mod text;
pub mod text_laws;
pub mod tls;
pub mod traffic;
pub mod wg;
pub mod wg_state;
