//! Correlation engine that turns a stream of Windows ETW trace events into
//! the operations that build a Firefox Profiler document.
//!
//! The engine is a deterministic state machine. It takes one event at a
//! time ([`state::Engine::handle_event`]) and answers with the operations
//! that the event asks of the profile ([`sink::SinkOp`]); at the end of
//! the trace it hands over the samples it has queued
//! ([`state::Engine::finish`]). Every contract states the operations and
//! the new state as a function of the old state and the event
//! ([`step::step`]).
//!
//! The parts, from the leaves up:
//!
//! - [`timestamp_converter`]: raw timestamps to nanoseconds.
//! - [`types`], [`text`], [`tables`], [`events`]: frames, text, small
//!   tables, and events as plain values.
//! - [`context_switch`]: per-thread time on and off the CPU.
//! - [`pending_stacks`]: sample triggers that wait for their stacks.
//! - [`unresolved_stacks`]: interning of call stacks.
//! - [`lib_mappings`]: the log of library mappings and its replay.
//! - [`registry`], [`sampling`], [`images`], [`jit`], [`markers`]: what
//!   each family of events does to the state.
//! - [`dispatch`], [`step`], [`flush`]: routing by event name, one step,
//!   and the end of the trace.
//! - [`numbering`], [`numbering_steps`]: the proof that operations name
//!   only what earlier operations have created.

pub mod context_switch;
pub mod dispatch;
pub mod engine;
pub mod events;
pub mod flush;
pub mod handles;
pub mod images;
pub mod jit;
pub mod lib_mappings;
pub mod marker_schema;
pub mod markers;
pub mod numbering;
pub mod numbering_steps;
pub mod pending_stacks;
pub mod profile_values;
pub mod registry;
pub mod sampling;
pub mod sink;
pub mod state;
pub mod step;
pub mod tables;
pub mod text;
pub mod timestamp_converter;
pub mod types;
pub mod unresolved_stacks;
