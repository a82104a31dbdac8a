//! Verified core of a feed-watching agent: update selection, scheduling
//! decisions, the rules of the optimizer's tools, judging with earlier
//! decisions, prompt templates, feed items as messages, and the text
//! helpers they share.
pub mod text;
pub mod update;
pub mod dialog;
pub mod schedule;
pub mod optimize;
pub mod xml;
pub mod template;
pub mod decision;
pub mod source;
pub mod memory;
pub mod chat;
pub mod gemma4;
pub mod atom;
pub mod toolcall;
