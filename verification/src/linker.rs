//! Configuration types of a linker front end: the linker kind chosen on the
//! command line, the parsed arguments, and the configuration built from
//! them.
//!
//! Parsing the real command line is I/O and is done by the binary around the
//! library; it hands the parsed values in as a `CmdArgs`.

use vstd::prelude::*;

verus! {

/// The kind of linker to run.
#[derive(Debug, Copy, Clone, PartialEq, Eq, Structural)]
pub enum LinkerType {
    /// Does A things
    A,
    /// Does B things
    B,
    /// Does C things
    C,
}

/// The display name of a linker kind.
pub open spec fn spec_linker_type_name(t: LinkerType) -> Seq<char> {
    match t {
        LinkerType::A => "A"@,
        LinkerType::B => "B"@,
        LinkerType::C => "C"@,
    }
}

/// The parsed command-line arguments: the linker's name and its kind.
pub struct CmdArgs {
    name: String,
    linker_type: LinkerType,
}

impl CmdArgs {
    /// The linker name argument.
    pub closed spec fn spec_name(&self) -> Seq<char> {
        self.name@
    }

    /// The linker kind argument.
    pub closed spec fn spec_linker_type(&self) -> LinkerType {
        self.linker_type
    }

    /// Arguments as parsed: a name and a linker kind.
    pub fn new(name: String, linker_type: LinkerType) -> (r: Self)
        ensures
            r.spec_name() == name@,
            r.spec_linker_type() == linker_type,
    {
        CmdArgs { name, linker_type }
    }

    /// A copy of the name argument.
    pub fn get_name(&self) -> (r: String)
        ensures
            r@ == self.spec_name(),
    {
        self.name.clone()
    }

    /// The linker kind argument.
    pub fn get_linker_type(&self) -> (r: LinkerType)
        ensures
            r == self.spec_linker_type(),
    {
        self.linker_type
    }
}

/// The configuration the front end runs with, built from the arguments.
pub struct Config {
    name: String,
    linker_type: LinkerType,
}

impl Config {
    /// The configured linker name.
    pub closed spec fn spec_name(&self) -> Seq<char> {
        self.name@
    }

    /// The configured linker kind.
    pub closed spec fn spec_linker_type(&self) -> LinkerType {
        self.linker_type
    }

    /// The configuration carrying the parsed arguments.
    pub fn new(args: &CmdArgs) -> (r: Self)
        ensures
            r.spec_name() == args.spec_name(),
            r.spec_linker_type() == args.spec_linker_type(),
    {
        Self { name: args.get_name(), linker_type: args.get_linker_type() }
    }

    /// A copy of the configured name.
    pub fn get_name(&self) -> (r: String)
        ensures
            r@ == self.spec_name(),
    {
        self.name.clone()
    }

    /// The display name of the configured linker kind.
    pub fn get_linker_type_as_string(&self) -> (r: &'static str)
        ensures
            r@ == spec_linker_type_name(self.spec_linker_type()),
    {
        match self.linker_type {
            LinkerType::A => "A",
            LinkerType::B => "B",
            LinkerType::C => "C",
        }
    }
}

/// Build the configuration from already-parsed arguments; reading the
/// command line itself is left to the binary around the library.
pub fn run(args: &CmdArgs) -> (config: Config)
    ensures
        config.spec_name() == args.spec_name(),
        config.spec_linker_type() == args.spec_linker_type(),
{
    let config = Config::new(args);
    config
}

} // verus!
