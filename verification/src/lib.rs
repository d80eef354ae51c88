//! A disguised validation routine and the machinery that hides it.
//!
//! The crate has two halves. The build-time half rewrites the assembly of a
//! small routine so that disassemblers lose track of instruction boundaries
//! ([`transformer`], over the byte-level helpers of [`text`]; [`shape`]
//! holds what is proved of its output). The run-time half is a trap-driven
//! dispatcher that enters the routine through an illegal-opcode gate,
//! single-steps through it, and leaves through a second gate ([`gate`],
//! [`engine`], [`address`]). The routine itself is the byte-string
//! predicate in [`validator`], built on [`checksum`]; [`accepted`] proves
//! that it accepts one candidate only, and [`cli`] holds what the front end
//! prints.

pub mod accepted;
pub mod address;
pub mod checksum;
pub mod cli;
pub mod engine;
pub mod gate;
pub mod random;
pub mod shape;
pub mod text;
pub mod transformer;
pub mod validator;
