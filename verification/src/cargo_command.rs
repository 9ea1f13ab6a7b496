//! A cargo invocation together with the version of the compiler it uses.

use vstd::prelude::*;

verus! {

/// The program that stands for cargo.
#[derive(Debug)]
pub struct CargoCommand {
    program: String,
}

impl CargoCommand {
    /// The path of the program.
    pub closed spec fn program(&self) -> Seq<char> {
        self.program@
    }

    /// A command that runs `program`.
    pub fn new(program: String) -> (c: CargoCommand)
        ensures
            c.program() == program@,
    {
        CargoCommand { program }
    }

    /// The path of the program.
    pub fn program_path(&self) -> (p: &str)
        ensures
            p@ == self.program(),
    {
        self.program.as_str()
    }
}

/// A cargo command and the version of `rustc` that it uses.
pub struct CargoCommandVersioned {
    command: CargoCommand,
    version: String,
}

impl CargoCommandVersioned {
    /// The wrapped command.
    pub closed spec fn command(&self) -> CargoCommand {
        self.command
    }

    /// The version of `rustc`.
    pub closed spec fn version(&self) -> Seq<char> {
        self.version@
    }

    /// Wraps `command` with the version of `rustc` that it uses.
    pub fn new(command: CargoCommand, version: String) -> (c: CargoCommandVersioned)
        ensures
            c.command() == command,
            c.version() == version@,
    {
        CargoCommandVersioned { command, version }
    }

    /// The version of `rustc`.
    pub fn rustc_version(&self) -> (v: &str)
        ensures
            v@ == self.version(),
    {
        self.version.as_str()
    }

    /// The wrapped command.
    pub fn cargo(&self) -> (c: &CargoCommand)
        ensures
            *c == self.command(),
    {
        &self.command
    }
}

} // verus!
