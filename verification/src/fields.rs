//! The fields of the state in their fixed order, and where each stands in
//! the state's tree. The builder and the reconciler both go by this table.

use crate::gindex::GeneralizedIndex;
use crate::partial::{SLASHINGS_GENERALIZED_INDEX, SLOT_GENERALIZED_INDEX, STATE_TREE_DEPTH};
use crate::reconcile::is_field_index;
use vstd::arithmetic::power2::lemma2_to64;
use vstd::prelude::*;
use vstd::string::StringExecFns;

verus! {

/// The number of fields of the state.
pub const STATE_FIELD_COUNT: u64 = 37;

/// The generalized index of the state's first field.
pub const FIRST_FIELD_INDEX: GeneralizedIndex = 64;

/// A field of the state.
#[derive(Debug, Clone, Copy, PartialEq, Eq, Structural)]
pub enum StateField {
    GenesisTime,
    GenesisValidatorsRoot,
    Slot,
    Fork,
    LatestBlockHeader,
    BlockRoots,
    StateRoots,
    HistoricalRoots,
    Eth1Data,
    Eth1DataVotes,
    Eth1DepositIndex,
    Validators,
    Balances,
    RandaoMixes,
    Slashings,
    PreviousEpochParticipation,
    CurrentEpochParticipation,
    JustificationBits,
    PreviousJustifiedCheckpoint,
    CurrentJustifiedCheckpoint,
    FinalizedCheckpoint,
    InactivityScores,
    CurrentSyncCommittee,
    NextSyncCommittee,
    LatestExecutionPayloadHeader,
    NextWithdrawalIndex,
    NextWithdrawalValidatorIndex,
    HistoricalSummaries,
    DepositRequestsStartIndex,
    DepositBalanceToConsume,
    ExitBalanceToConsume,
    EarliestExitEpoch,
    ConsolidationBalanceToConsume,
    EarliestConsolidationEpoch,
    PendingDeposits,
    PendingPartialWithdrawals,
    PendingConsolidations,
}

impl StateField {
    /// The field's place in the state, from 0.
    pub open spec fn spec_position(self) -> int {
        match self {
            StateField::GenesisTime => 0,
            StateField::GenesisValidatorsRoot => 1,
            StateField::Slot => 2,
            StateField::Fork => 3,
            StateField::LatestBlockHeader => 4,
            StateField::BlockRoots => 5,
            StateField::StateRoots => 6,
            StateField::HistoricalRoots => 7,
            StateField::Eth1Data => 8,
            StateField::Eth1DataVotes => 9,
            StateField::Eth1DepositIndex => 10,
            StateField::Validators => 11,
            StateField::Balances => 12,
            StateField::RandaoMixes => 13,
            StateField::Slashings => 14,
            StateField::PreviousEpochParticipation => 15,
            StateField::CurrentEpochParticipation => 16,
            StateField::JustificationBits => 17,
            StateField::PreviousJustifiedCheckpoint => 18,
            StateField::CurrentJustifiedCheckpoint => 19,
            StateField::FinalizedCheckpoint => 20,
            StateField::InactivityScores => 21,
            StateField::CurrentSyncCommittee => 22,
            StateField::NextSyncCommittee => 23,
            StateField::LatestExecutionPayloadHeader => 24,
            StateField::NextWithdrawalIndex => 25,
            StateField::NextWithdrawalValidatorIndex => 26,
            StateField::HistoricalSummaries => 27,
            StateField::DepositRequestsStartIndex => 28,
            StateField::DepositBalanceToConsume => 29,
            StateField::ExitBalanceToConsume => 30,
            StateField::EarliestExitEpoch => 31,
            StateField::ConsolidationBalanceToConsume => 32,
            StateField::EarliestConsolidationEpoch => 33,
            StateField::PendingDeposits => 34,
            StateField::PendingPartialWithdrawals => 35,
            StateField::PendingConsolidations => 36,
        }
    }

    /// The field at a place in the state, if the state has that many fields.
    pub open spec fn spec_at_position(position: int) -> Option<StateField> {
        if position == 0 {
            Some(StateField::GenesisTime)
        } else if position == 1 {
            Some(StateField::GenesisValidatorsRoot)
        } else if position == 2 {
            Some(StateField::Slot)
        } else if position == 3 {
            Some(StateField::Fork)
        } else if position == 4 {
            Some(StateField::LatestBlockHeader)
        } else if position == 5 {
            Some(StateField::BlockRoots)
        } else if position == 6 {
            Some(StateField::StateRoots)
        } else if position == 7 {
            Some(StateField::HistoricalRoots)
        } else if position == 8 {
            Some(StateField::Eth1Data)
        } else if position == 9 {
            Some(StateField::Eth1DataVotes)
        } else if position == 10 {
            Some(StateField::Eth1DepositIndex)
        } else if position == 11 {
            Some(StateField::Validators)
        } else if position == 12 {
            Some(StateField::Balances)
        } else if position == 13 {
            Some(StateField::RandaoMixes)
        } else if position == 14 {
            Some(StateField::Slashings)
        } else if position == 15 {
            Some(StateField::PreviousEpochParticipation)
        } else if position == 16 {
            Some(StateField::CurrentEpochParticipation)
        } else if position == 17 {
            Some(StateField::JustificationBits)
        } else if position == 18 {
            Some(StateField::PreviousJustifiedCheckpoint)
        } else if position == 19 {
            Some(StateField::CurrentJustifiedCheckpoint)
        } else if position == 20 {
            Some(StateField::FinalizedCheckpoint)
        } else if position == 21 {
            Some(StateField::InactivityScores)
        } else if position == 22 {
            Some(StateField::CurrentSyncCommittee)
        } else if position == 23 {
            Some(StateField::NextSyncCommittee)
        } else if position == 24 {
            Some(StateField::LatestExecutionPayloadHeader)
        } else if position == 25 {
            Some(StateField::NextWithdrawalIndex)
        } else if position == 26 {
            Some(StateField::NextWithdrawalValidatorIndex)
        } else if position == 27 {
            Some(StateField::HistoricalSummaries)
        } else if position == 28 {
            Some(StateField::DepositRequestsStartIndex)
        } else if position == 29 {
            Some(StateField::DepositBalanceToConsume)
        } else if position == 30 {
            Some(StateField::ExitBalanceToConsume)
        } else if position == 31 {
            Some(StateField::EarliestExitEpoch)
        } else if position == 32 {
            Some(StateField::ConsolidationBalanceToConsume)
        } else if position == 33 {
            Some(StateField::EarliestConsolidationEpoch)
        } else if position == 34 {
            Some(StateField::PendingDeposits)
        } else if position == 35 {
            Some(StateField::PendingPartialWithdrawals)
        } else if position == 36 {
            Some(StateField::PendingConsolidations)
        } else {
            None
        }
    }

    /// The field's name.
    pub open spec fn spec_name(self) -> Seq<char> {
        match self {
            StateField::GenesisTime => "genesis_time"@,
            StateField::GenesisValidatorsRoot => "genesis_validators_root"@,
            StateField::Slot => "slot"@,
            StateField::Fork => "fork"@,
            StateField::LatestBlockHeader => "latest_block_header"@,
            StateField::BlockRoots => "block_roots"@,
            StateField::StateRoots => "state_roots"@,
            StateField::HistoricalRoots => "historical_roots"@,
            StateField::Eth1Data => "eth1_data"@,
            StateField::Eth1DataVotes => "eth1_data_votes"@,
            StateField::Eth1DepositIndex => "eth1_deposit_index"@,
            StateField::Validators => "validators"@,
            StateField::Balances => "balances"@,
            StateField::RandaoMixes => "randao_mixes"@,
            StateField::Slashings => "slashings"@,
            StateField::PreviousEpochParticipation => "previous_epoch_participation"@,
            StateField::CurrentEpochParticipation => "current_epoch_participation"@,
            StateField::JustificationBits => "justification_bits"@,
            StateField::PreviousJustifiedCheckpoint => "previous_justified_checkpoint"@,
            StateField::CurrentJustifiedCheckpoint => "current_justified_checkpoint"@,
            StateField::FinalizedCheckpoint => "finalized_checkpoint"@,
            StateField::InactivityScores => "inactivity_scores"@,
            StateField::CurrentSyncCommittee => "current_sync_committee"@,
            StateField::NextSyncCommittee => "next_sync_committee"@,
            StateField::LatestExecutionPayloadHeader => "latest_execution_payload_header"@,
            StateField::NextWithdrawalIndex => "next_withdrawal_index"@,
            StateField::NextWithdrawalValidatorIndex => "next_withdrawal_validator_index"@,
            StateField::HistoricalSummaries => "historical_summaries"@,
            StateField::DepositRequestsStartIndex => "deposit_requests_start_index"@,
            StateField::DepositBalanceToConsume => "deposit_balance_to_consume"@,
            StateField::ExitBalanceToConsume => "exit_balance_to_consume"@,
            StateField::EarliestExitEpoch => "earliest_exit_epoch"@,
            StateField::ConsolidationBalanceToConsume => "consolidation_balance_to_consume"@,
            StateField::EarliestConsolidationEpoch => "earliest_consolidation_epoch"@,
            StateField::PendingDeposits => "pending_deposits"@,
            StateField::PendingPartialWithdrawals => "pending_partial_withdrawals"@,
            StateField::PendingConsolidations => "pending_consolidations"@,
        }
    }

    /// Where the field stands in the state's tree.
    pub open spec fn spec_generalized_index(self) -> int {
        FIRST_FIELD_INDEX + self.spec_position()
    }

    /// The field that stands at a generalized index, if one does.
    pub open spec fn spec_at(index: int) -> Option<StateField> {
        Self::spec_at_position(index - FIRST_FIELD_INDEX)
    }

    /// The field's place in the state, from 0.
    pub fn position(&self) -> (out: u64)
        ensures
            out == self.spec_position(),
            out < STATE_FIELD_COUNT,
    {
        match self {
            StateField::GenesisTime => 0,
            StateField::GenesisValidatorsRoot => 1,
            StateField::Slot => 2,
            StateField::Fork => 3,
            StateField::LatestBlockHeader => 4,
            StateField::BlockRoots => 5,
            StateField::StateRoots => 6,
            StateField::HistoricalRoots => 7,
            StateField::Eth1Data => 8,
            StateField::Eth1DataVotes => 9,
            StateField::Eth1DepositIndex => 10,
            StateField::Validators => 11,
            StateField::Balances => 12,
            StateField::RandaoMixes => 13,
            StateField::Slashings => 14,
            StateField::PreviousEpochParticipation => 15,
            StateField::CurrentEpochParticipation => 16,
            StateField::JustificationBits => 17,
            StateField::PreviousJustifiedCheckpoint => 18,
            StateField::CurrentJustifiedCheckpoint => 19,
            StateField::FinalizedCheckpoint => 20,
            StateField::InactivityScores => 21,
            StateField::CurrentSyncCommittee => 22,
            StateField::NextSyncCommittee => 23,
            StateField::LatestExecutionPayloadHeader => 24,
            StateField::NextWithdrawalIndex => 25,
            StateField::NextWithdrawalValidatorIndex => 26,
            StateField::HistoricalSummaries => 27,
            StateField::DepositRequestsStartIndex => 28,
            StateField::DepositBalanceToConsume => 29,
            StateField::ExitBalanceToConsume => 30,
            StateField::EarliestExitEpoch => 31,
            StateField::ConsolidationBalanceToConsume => 32,
            StateField::EarliestConsolidationEpoch => 33,
            StateField::PendingDeposits => 34,
            StateField::PendingPartialWithdrawals => 35,
            StateField::PendingConsolidations => 36,
        }
    }

    /// The field's name.
    pub fn name(&self) -> (out: String)
        ensures
            out@ == self.spec_name(),
    {
        match self {
            StateField::GenesisTime => String::from_str("genesis_time"),
            StateField::GenesisValidatorsRoot => String::from_str("genesis_validators_root"),
            StateField::Slot => String::from_str("slot"),
            StateField::Fork => String::from_str("fork"),
            StateField::LatestBlockHeader => String::from_str("latest_block_header"),
            StateField::BlockRoots => String::from_str("block_roots"),
            StateField::StateRoots => String::from_str("state_roots"),
            StateField::HistoricalRoots => String::from_str("historical_roots"),
            StateField::Eth1Data => String::from_str("eth1_data"),
            StateField::Eth1DataVotes => String::from_str("eth1_data_votes"),
            StateField::Eth1DepositIndex => String::from_str("eth1_deposit_index"),
            StateField::Validators => String::from_str("validators"),
            StateField::Balances => String::from_str("balances"),
            StateField::RandaoMixes => String::from_str("randao_mixes"),
            StateField::Slashings => String::from_str("slashings"),
            StateField::PreviousEpochParticipation => String::from_str(
                "previous_epoch_participation",
            ),
            StateField::CurrentEpochParticipation => String::from_str(
                "current_epoch_participation",
            ),
            StateField::JustificationBits => String::from_str("justification_bits"),
            StateField::PreviousJustifiedCheckpoint => String::from_str(
                "previous_justified_checkpoint",
            ),
            StateField::CurrentJustifiedCheckpoint => String::from_str(
                "current_justified_checkpoint",
            ),
            StateField::FinalizedCheckpoint => String::from_str("finalized_checkpoint"),
            StateField::InactivityScores => String::from_str("inactivity_scores"),
            StateField::CurrentSyncCommittee => String::from_str("current_sync_committee"),
            StateField::NextSyncCommittee => String::from_str("next_sync_committee"),
            StateField::LatestExecutionPayloadHeader => String::from_str(
                "latest_execution_payload_header",
            ),
            StateField::NextWithdrawalIndex => String::from_str("next_withdrawal_index"),
            StateField::NextWithdrawalValidatorIndex => String::from_str(
                "next_withdrawal_validator_index",
            ),
            StateField::HistoricalSummaries => String::from_str("historical_summaries"),
            StateField::DepositRequestsStartIndex => String::from_str(
                "deposit_requests_start_index",
            ),
            StateField::DepositBalanceToConsume => String::from_str("deposit_balance_to_consume"),
            StateField::ExitBalanceToConsume => String::from_str("exit_balance_to_consume"),
            StateField::EarliestExitEpoch => String::from_str("earliest_exit_epoch"),
            StateField::ConsolidationBalanceToConsume => String::from_str(
                "consolidation_balance_to_consume",
            ),
            StateField::EarliestConsolidationEpoch => String::from_str(
                "earliest_consolidation_epoch",
            ),
            StateField::PendingDeposits => String::from_str("pending_deposits"),
            StateField::PendingPartialWithdrawals => String::from_str(
                "pending_partial_withdrawals",
            ),
            StateField::PendingConsolidations => String::from_str("pending_consolidations"),
        }
    }

    /// Where the field stands in the state's tree.
    pub fn generalized_index(&self) -> (out: GeneralizedIndex)
        ensures
            out == self.spec_generalized_index(),
    {
        FIRST_FIELD_INDEX + self.position()
    }

    /// The field that stands at a generalized index. There is none below
    /// `FIRST_FIELD_INDEX` and none from `FIRST_FIELD_INDEX + STATE_FIELD_COUNT` on.
    pub fn at(index: GeneralizedIndex) -> (out: Option<StateField>)
        ensures
            out == Self::spec_at(index as int),
    {
        if index < FIRST_FIELD_INDEX {
            return None;
        }
        match index - FIRST_FIELD_INDEX {
            0 => Some(StateField::GenesisTime),
            1 => Some(StateField::GenesisValidatorsRoot),
            2 => Some(StateField::Slot),
            3 => Some(StateField::Fork),
            4 => Some(StateField::LatestBlockHeader),
            5 => Some(StateField::BlockRoots),
            6 => Some(StateField::StateRoots),
            7 => Some(StateField::HistoricalRoots),
            8 => Some(StateField::Eth1Data),
            9 => Some(StateField::Eth1DataVotes),
            10 => Some(StateField::Eth1DepositIndex),
            11 => Some(StateField::Validators),
            12 => Some(StateField::Balances),
            13 => Some(StateField::RandaoMixes),
            14 => Some(StateField::Slashings),
            15 => Some(StateField::PreviousEpochParticipation),
            16 => Some(StateField::CurrentEpochParticipation),
            17 => Some(StateField::JustificationBits),
            18 => Some(StateField::PreviousJustifiedCheckpoint),
            19 => Some(StateField::CurrentJustifiedCheckpoint),
            20 => Some(StateField::FinalizedCheckpoint),
            21 => Some(StateField::InactivityScores),
            22 => Some(StateField::CurrentSyncCommittee),
            23 => Some(StateField::NextSyncCommittee),
            24 => Some(StateField::LatestExecutionPayloadHeader),
            25 => Some(StateField::NextWithdrawalIndex),
            26 => Some(StateField::NextWithdrawalValidatorIndex),
            27 => Some(StateField::HistoricalSummaries),
            28 => Some(StateField::DepositRequestsStartIndex),
            29 => Some(StateField::DepositBalanceToConsume),
            30 => Some(StateField::ExitBalanceToConsume),
            31 => Some(StateField::EarliestExitEpoch),
            32 => Some(StateField::ConsolidationBalanceToConsume),
            33 => Some(StateField::EarliestConsolidationEpoch),
            34 => Some(StateField::PendingDeposits),
            35 => Some(StateField::PendingPartialWithdrawals),
            36 => Some(StateField::PendingConsolidations),
            _ => None,
        }
    }

    /// The table is in step with itself: a field stands where it is found,
    /// and nowhere else.
    pub proof fn lemma_index_round_trip(self, index: int)
        ensures
            Self::spec_at(self.spec_generalized_index()) == Some(self),
            Self::spec_at(index) == Some(self) ==> index == self.spec_generalized_index(),
    {
    }

    /// The indices that stand for a field are those of the first
    /// `STATE_FIELD_COUNT` leaves of the state's tree.
    pub proof fn lemma_known_indices(index: int)
        ensures
            Self::spec_at(index) is Some <==> is_field_index(
                index,
                STATE_TREE_DEPTH as nat,
                STATE_FIELD_COUNT as nat,
            ),
    {
        lemma2_to64();
    }

    /// The slot and the slashings stand where the named constants say.
    pub proof fn lemma_named_indices()
        ensures
            StateField::Slot.spec_generalized_index() == SLOT_GENERALIZED_INDEX,
            StateField::Slashings.spec_generalized_index() == SLASHINGS_GENERALIZED_INDEX,
    {
    }
}

} // verus!
