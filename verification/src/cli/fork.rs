//! The protocol fork whose fixtures are run.

use vstd::prelude::*;
use vstd::string::StringExecFns;

verus! {

/// The forks whose fixtures can be run.
#[derive(Debug, Clone, Copy, PartialEq, Eq, Structural)]
pub enum Fork {
    Deneb,
    Electra,
}

impl Fork {
    /// The fork's name as it is written on the command line and in paths.
    pub open spec fn spec_name(self) -> Seq<char> {
        match self {
            Fork::Deneb => "deneb"@,
            Fork::Electra => "electra"@,
        }
    }

    /// The fork that a name selects, if any.
    pub open spec fn spec_from_name(name: Seq<char>) -> Option<Fork> {
        if name == "deneb"@ {
            Some(Fork::Deneb)
        } else if name == "electra"@ {
            Some(Fork::Electra)
        } else {
            None
        }
    }

    /// The fork's name.
    pub fn name(&self) -> (out: String)
        ensures
            out@ == self.spec_name(),
    {
        match self {
            Fork::Deneb => String::from_str("deneb"),
            Fork::Electra => String::from_str("electra"),
        }
    }

    /// The fork that a name selects; none for any other string.
    pub fn from_name(name: &str) -> (out: Option<Fork>)
        ensures
            out == Self::spec_from_name(name@),
    {
        let given = String::from_str(name);
        if given == String::from_str("deneb") {
            Some(Fork::Deneb)
        } else if given == String::from_str("electra") {
            Some(Fork::Electra)
        } else {
            None
        }
    }

    /// A fork's name selects that fork.
    pub proof fn lemma_name_round_trip(self)
        ensures
            Self::spec_from_name(self.spec_name()) == Some(self),
    {
        reveal_strlit("deneb");
        reveal_strlit("electra");
        assert("deneb"@.len() == 5);
        assert("electra"@.len() == 7);
    }
}

impl Default for Fork {
    fn default() -> (out: Fork)
        ensures
            out == Fork::Electra,
    {
        Fork::Electra
    }
}

/// The fork argument; Electra where none is given.
#[derive(Debug, Clone, Copy)]
pub struct ForkArgs {
    pub fork: Fork,
}

impl Default for ForkArgs {
    fn default() -> (out: ForkArgs)
        ensures
            out.fork == Fork::Electra,
    {
        ForkArgs { fork: Fork::Electra }
    }
}

} // verus!
