//! The rules of a clipboard that a Wayland desktop shares with the client of a remote session.
//!
//! Nothing in this crate sends, waits or locks, and only [`deadline`] looks at the clock.
//! Whoever does the rest tells it what happened, and is told what to do; every step is proved
//! to do what its contract says.
//!
//! The remote's files: [`tree`] numbers an announced list, [`fetch`] gathers byte ranges,
//! [`model`] says as mathematics what each event makes of the selections and requests,
//! [`state`] and [`transfer`] do it, [`inbound`] and [`payload`] bring what is mounted to the
//! desktop, and [`serve`] runs the mounts. [`preserve`] proves the state's invariant, [`laws`]
//! what one event promises, and [`history`] and [`mounts`] what any course of them does.
//!
//! The desktop's clipboard: [`formats`] knows the contents and their MIME types, [`watcher`]
//! follows the compositor, [`intake`] and [`png`] take a new selection in, and [`pipe`] and
//! [`deadline`] keep transfers from blocking; [`flow`] says what they promise from beginning
//! to end.
//!
//! What a caller can rely on, call by call and in terms of what goes in and comes out, stands in
//! [`tree_laws`], [`selection_laws`], [`request_laws`], [`mount_laws`], [`desktop_laws`] and
//! [`pipe_laws`]; [`course_laws`] says what stays of a selection and of a request whatever
//! happens in between.

pub mod course_laws;
pub mod deadline;
pub mod desktop_laws;
pub mod fetch;
pub mod flow;
pub mod formats;
pub mod history;
pub mod inbound;
pub mod intake;
pub mod laws;
pub mod model;
pub mod mount_laws;
pub mod mounts;
pub mod payload;
pub mod pipe;
pub mod pipe_laws;
pub mod png;
pub mod preserve;
pub mod request_laws;
pub mod selection_laws;
pub mod serve;
pub mod state;
pub mod text;
pub mod transfer;
pub mod tree;
pub mod tree_laws;
pub mod watcher;
