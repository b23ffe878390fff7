//! Types for the seL4 interface-description XML dialect.
//!
//! The heart of the crate is a verified recursive-descent walker that turns a
//! generic XML tree (elements, text, comments) into the typed domain model an
//! invocation-header generator consumes: an [`invocations::Api`] holding
//! interfaces, methods, parameters and inline documentation markup, in
//! document order.  Every builder is proved against the grammar's
//! mathematical definition in [`grammar`]; the generic XML parse itself
//! (bytes to tree) is an external collaborator, and callers hand the tree
//! over as [`xml::XmlNode`] values.

pub mod codegen;
pub mod grammar;
pub mod invocation_helper;
pub mod invocations;
pub mod syscalls;
pub mod xml;
