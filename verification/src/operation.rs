//! The closed set of operations that can be applied to a state.

use vstd::prelude::*;
use vstd::string::StringExecFns;

verus! {

/// The operations, in the order of their wire bytes.
#[derive(Debug, Clone, Copy, PartialEq, Eq, Structural)]
pub enum OperationName {
    Attestation,
    AttesterSlashing,
    BlockHeader,
    BLSToExecutionChange,
    Deposit,
    ExecutionPayload,
    ProposerSlashing,
    SyncAggregate,
    VoluntaryExit,
    Withdrawals,
}

impl OperationName {
    /// The operation's name as it is written on the command line and in paths.
    pub open spec fn spec_name(self) -> Seq<char> {
        match self {
            OperationName::Attestation => "attestation"@,
            OperationName::AttesterSlashing => "attester_slashing"@,
            OperationName::BlockHeader => "block_header"@,
            OperationName::BLSToExecutionChange => "bls_to_execution_change"@,
            OperationName::Deposit => "deposit"@,
            OperationName::ExecutionPayload => "execution_payload"@,
            OperationName::ProposerSlashing => "proposer_slashing"@,
            OperationName::SyncAggregate => "sync_aggregate"@,
            OperationName::VoluntaryExit => "voluntary_exit"@,
            OperationName::Withdrawals => "withdrawals"@,
        }
    }

    /// The name of the fixture file that holds the operation's input,
    /// without its extension.
    pub open spec fn spec_input_name(self) -> Seq<char> {
        match self {
            OperationName::Attestation => "attestation"@,
            OperationName::AttesterSlashing => "attester_slashing"@,
            OperationName::BlockHeader => "block"@,
            OperationName::BLSToExecutionChange => "address_change"@,
            OperationName::Deposit => "deposit"@,
            OperationName::ExecutionPayload => "body"@,
            OperationName::ProposerSlashing => "proposer_slashing"@,
            OperationName::SyncAggregate => "sync_aggregate"@,
            OperationName::VoluntaryExit => "voluntary_exit"@,
            OperationName::Withdrawals => "execution_payload"@,
        }
    }

    /// The byte that stands for the operation on the wire.
    pub open spec fn spec_discriminant(self) -> u8 {
        match self {
            OperationName::Attestation => 0,
            OperationName::AttesterSlashing => 1,
            OperationName::BlockHeader => 2,
            OperationName::BLSToExecutionChange => 3,
            OperationName::Deposit => 4,
            OperationName::ExecutionPayload => 5,
            OperationName::ProposerSlashing => 6,
            OperationName::SyncAggregate => 7,
            OperationName::VoluntaryExit => 8,
            OperationName::Withdrawals => 9,
        }
    }

    /// The operation that a wire byte stands for, if any.
    pub open spec fn spec_from_discriminant(byte: u8) -> Option<OperationName> {
        if byte == 0 {
            Some(OperationName::Attestation)
        } else if byte == 1 {
            Some(OperationName::AttesterSlashing)
        } else if byte == 2 {
            Some(OperationName::BlockHeader)
        } else if byte == 3 {
            Some(OperationName::BLSToExecutionChange)
        } else if byte == 4 {
            Some(OperationName::Deposit)
        } else if byte == 5 {
            Some(OperationName::ExecutionPayload)
        } else if byte == 6 {
            Some(OperationName::ProposerSlashing)
        } else if byte == 7 {
            Some(OperationName::SyncAggregate)
        } else if byte == 8 {
            Some(OperationName::VoluntaryExit)
        } else if byte == 9 {
            Some(OperationName::Withdrawals)
        } else {
            None
        }
    }

    /// Whether the generic flow can process the operation: all but the
    /// execution payload.
    pub open spec fn spec_is_implemented(self) -> bool {
        self != OperationName::ExecutionPayload
    }

    /// The operation's name.
    pub fn name(&self) -> (out: String)
        ensures
            out@ == self.spec_name(),
    {
        match self {
            OperationName::Attestation => String::from_str("attestation"),
            OperationName::AttesterSlashing => String::from_str("attester_slashing"),
            OperationName::BlockHeader => String::from_str("block_header"),
            OperationName::BLSToExecutionChange => String::from_str("bls_to_execution_change"),
            OperationName::Deposit => String::from_str("deposit"),
            OperationName::ExecutionPayload => String::from_str("execution_payload"),
            OperationName::ProposerSlashing => String::from_str("proposer_slashing"),
            OperationName::SyncAggregate => String::from_str("sync_aggregate"),
            OperationName::VoluntaryExit => String::from_str("voluntary_exit"),
            OperationName::Withdrawals => String::from_str("withdrawals"),
        }
    }

    /// The name of the fixture file that holds the operation's input, without
    /// its extension.
    pub fn to_input_name(&self) -> (out: String)
        ensures
            out@ == self.spec_input_name(),
    {
        match self {
            OperationName::Attestation => String::from_str("attestation"),
            OperationName::AttesterSlashing => String::from_str("attester_slashing"),
            OperationName::BlockHeader => String::from_str("block"),
            OperationName::BLSToExecutionChange => String::from_str("address_change"),
            OperationName::Deposit => String::from_str("deposit"),
            OperationName::ExecutionPayload => String::from_str("body"),
            OperationName::ProposerSlashing => String::from_str("proposer_slashing"),
            OperationName::SyncAggregate => String::from_str("sync_aggregate"),
            OperationName::VoluntaryExit => String::from_str("voluntary_exit"),
            OperationName::Withdrawals => String::from_str("execution_payload"),
        }
    }

    /// The byte that stands for the operation on the wire.
    pub fn discriminant(&self) -> (out: u8)
        ensures
            out == self.spec_discriminant(),
    {
        match self {
            OperationName::Attestation => 0,
            OperationName::AttesterSlashing => 1,
            OperationName::BlockHeader => 2,
            OperationName::BLSToExecutionChange => 3,
            OperationName::Deposit => 4,
            OperationName::ExecutionPayload => 5,
            OperationName::ProposerSlashing => 6,
            OperationName::SyncAggregate => 7,
            OperationName::VoluntaryExit => 8,
            OperationName::Withdrawals => 9,
        }
    }

    /// The operation that a wire byte stands for; none for a byte above 9.
    pub fn from_discriminant(byte: u8) -> (out: Option<OperationName>)
        ensures
            out == Self::spec_from_discriminant(byte),
    {
        match byte {
            0 => Some(OperationName::Attestation),
            1 => Some(OperationName::AttesterSlashing),
            2 => Some(OperationName::BlockHeader),
            3 => Some(OperationName::BLSToExecutionChange),
            4 => Some(OperationName::Deposit),
            5 => Some(OperationName::ExecutionPayload),
            6 => Some(OperationName::ProposerSlashing),
            7 => Some(OperationName::SyncAggregate),
            8 => Some(OperationName::VoluntaryExit),
            9 => Some(OperationName::Withdrawals),
            _ => None,
        }
    }

    /// Whether the generic flow can process the operation.
    pub fn is_implemented(&self) -> (out: bool)
        ensures
            out == self.spec_is_implemented(),
    {
        match self {
            OperationName::ExecutionPayload => false,
            _ => true,
        }
    }

    /// An operation's wire byte stands for that operation, and for no other.
    pub proof fn lemma_discriminant_round_trip(self, byte: u8)
        ensures
            Self::spec_from_discriminant(self.spec_discriminant()) == Some(self),
            Self::spec_from_discriminant(byte) == Some(self) ==> byte == self.spec_discriminant(),
    {
    }
}

} // verus!
