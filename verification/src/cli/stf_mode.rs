//! Which kind of state transition is run.

use vstd::prelude::*;
use vstd::string::StringExecFns;

verus! {

/// The kinds of state transition that can be run.
#[derive(Debug, Clone, Copy, PartialEq, Eq, Structural)]
pub enum STFMode {
    Operation,
    EpochProcessing,
}

impl STFMode {
    /// The mode's name as it is written on the command line.
    pub open spec fn spec_name(self) -> Seq<char> {
        match self {
            STFMode::Operation => "operation"@,
            STFMode::EpochProcessing => "epoch_processing"@,
        }
    }

    /// The mode that a name selects, if any.
    pub open spec fn spec_from_name(name: Seq<char>) -> Option<STFMode> {
        if name == "operation"@ {
            Some(STFMode::Operation)
        } else if name == "epoch_processing"@ {
            Some(STFMode::EpochProcessing)
        } else {
            None
        }
    }

    /// The mode's name.
    pub fn name(&self) -> (out: String)
        ensures
            out@ == self.spec_name(),
    {
        match self {
            STFMode::Operation => String::from_str("operation"),
            STFMode::EpochProcessing => String::from_str("epoch_processing"),
        }
    }

    /// The mode that a name selects; none for any other string.
    pub fn from_name(name: &str) -> (out: Option<STFMode>)
        ensures
            out == Self::spec_from_name(name@),
    {
        let given = String::from_str(name);
        if given == String::from_str("operation") {
            Some(STFMode::Operation)
        } else if given == String::from_str("epoch_processing") {
            Some(STFMode::EpochProcessing)
        } else {
            None
        }
    }

    /// A mode's name selects that mode.
    pub proof fn lemma_name_round_trip(self)
        ensures
            Self::spec_from_name(self.spec_name()) == Some(self),
    {
        reveal_strlit("operation");
        reveal_strlit("epoch_processing");
        assert("operation"@.len() == 9);
        assert("epoch_processing"@.len() == 16);
    }
}

/// The mode argument.
#[derive(Debug, Clone, Copy)]
pub struct STFModeArgs {
    pub stf_mode: STFMode,
}

} // verus!
