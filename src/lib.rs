//! Selective instrumentation of a declaration tree: functions under an
//! `Instrument` marker get an interception prologue that lets test code
//! substitute their behaviour at run time; a `Suppress` marker cuts a subtree
//! out; compile-time, unsafe and generated functions are never touched.

pub mod decl;
pub mod walk;
pub mod expand;
pub mod laws;
