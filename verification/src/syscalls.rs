//! The flat, schema-validated system-call description.
//!
//! Unlike the interface-description dialect, this file format fits a
//! conventional structured deserializer, which the surrounding program
//! runs; the library only defines the shape of the data.

use vstd::prelude::*;

verus! {

/// The three system-call tables of the kernel's description file.
#[derive(Debug, PartialEq)]
pub struct Syscalls {
    pub api_master: Api,
    pub api_mcs: Api,
    pub debug: Api,
}

/// One table: a list of configuration blocks.
#[derive(Debug, PartialEq)]
pub struct Api {
    pub config: Vec<Config>,
}

/// One configuration block of system calls.
#[derive(Debug, PartialEq)]
pub struct Config {
    pub syscall: Vec<Syscall>,
}

/// One system call, by name.
#[derive(Debug, PartialEq)]
pub struct Syscall {
    pub name: String,
}

} // verus!
