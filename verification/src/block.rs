//! Verification of a block.

use crate::types::RequestSuccessBlock;
use vstd::prelude::*;

verus! {

/// What the chain has found out about a valid header.
#[derive(Debug)]
pub enum HeaderVerifySuccess {
    /// The block can be inserted.
    Insert {
        /// Height of the block.
        block_height: u64,
        /// Whether the block would be the new best block.
        is_new_best: bool,
    },
    /// The chain holds the block already.
    Duplicate,
}

/// The chain has refused a header or a justification.
#[derive(Debug)]
pub struct VerifyError;

/// What has to be done with the chain after a verification.
#[derive(Debug, PartialEq, Eq, Structural)]
pub enum ChainAction {
    /// Insert the block whose header has been verified.
    Insert,
    /// Apply the justification that has been verified.
    Apply,
    /// Leave the chain as it is.
    Keep,
    /// Drop the block or the justification, and remove all the non-finalized blocks.
    Clear,
}

/// What has to be verified next.
#[derive(Debug)]
pub enum VerificationStep<'a> {
    /// Verify this header.
    Header(&'a Vec<u8>),
    /// Verify this justification of the block whose header has been verified last.
    Justification(&'a Vec<u8>),
    /// Nothing more. The state of the chain has to be reported.
    Report,
}

/// How far the verification of a block is.
#[derive(Debug, PartialEq, Eq, Structural)]
pub enum BlockStage {
    /// The header is next.
    Header,
    /// The header is in order, and the justification is next.
    Justification,
    /// There is nothing left to verify.
    Finished,
}

/// Block that is being verified.
#[derive(Debug)]
pub struct BlockInProgress {
    /// The block. There is none where the response was empty.
    pub block: Option<RequestSuccessBlock>,
    /// Height that the block should have.
    pub expected_height: u64,
    /// Slot of the source that has sent the block, unless that source is gone.
    pub sender: Option<usize>,
    pub stage: BlockStage,
}

impl BlockInProgress {
    /// The stage has something to apply to.
    pub open spec fn valid(self) -> bool {
        match self.stage {
            BlockStage::Header => self.block is Some,
            BlockStage::Justification => {
                self.block is Some && self.block->0.scale_encoded_justification is Some
            },
            BlockStage::Finished => true,
        }
    }

    /// What has to be verified next.
    pub open spec fn is_step(self, step: VerificationStep<'_>) -> bool {
        match self.stage {
            BlockStage::Header => step == VerificationStep::Header(
                &self.block->0.scale_encoded_header,
            ),
            BlockStage::Justification => step == VerificationStep::Justification(
                &self.block->0.scale_encoded_justification->0,
            ),
            BlockStage::Finished => step == VerificationStep::Report,
        }
    }

    /// The header outcome lets the verification go on: the block is either known already, or it is
    /// a new best block at the height that was asked for.
    pub open spec fn accepts(self, outcome: Result<HeaderVerifySuccess, VerifyError>) -> bool {
        match outcome {
            Ok(HeaderVerifySuccess::Insert { block_height, is_new_best }) => {
                is_new_best && block_height == self.expected_height
            },
            Ok(HeaderVerifySuccess::Duplicate) => true,
            Err(_) => false,
        }
    }

    /// The block at another stage.
    pub open spec fn at(self, stage: BlockStage) -> Self {
        BlockInProgress { stage, ..self }
    }

    /// The stage after the verification of the header.
    pub open spec fn after_header(
        self,
        outcome: Result<HeaderVerifySuccess, VerifyError>,
    ) -> Self {
        if self.accepts(outcome) && self.block->0.scale_encoded_justification is Some {
            self.at(BlockStage::Justification)
        } else {
            self.at(BlockStage::Finished)
        }
    }

    /// What becomes of the block after the verification of its header.
    pub open spec fn header_action(
        self,
        outcome: Result<HeaderVerifySuccess, VerifyError>,
    ) -> ChainAction {
        if !self.accepts(outcome) {
            ChainAction::Clear
        } else if outcome->Ok_0 is Duplicate {
            ChainAction::Keep
        } else {
            ChainAction::Insert
        }
    }

    /// What becomes of the justification after its verification.
    pub open spec fn justification_action(self, outcome: Result<(), VerifyError>) -> ChainAction {
        if outcome is Ok {
            ChainAction::Apply
        } else {
            ChainAction::Clear
        }
    }

    pub(crate) fn new(
        block: Option<RequestSuccessBlock>,
        expected_height: u64,
        sender: Option<usize>,
    ) -> (progress: Self)
        ensures
            progress.valid(),
            progress.block == block,
            progress.expected_height == expected_height,
            progress.sender == sender,
            progress.stage == if block is Some {
                BlockStage::Header
            } else {
                BlockStage::Finished
            },
    {
        let stage = if block.is_some() {
            BlockStage::Header
        } else {
            BlockStage::Finished
        };
        BlockInProgress { block, expected_height, sender, stage }
    }

    /// What has to be verified next.
    pub(crate) fn step(&self) -> (step: VerificationStep<'_>)
        requires
            self.valid(),
        ensures
            self.is_step(step),
            self.stage is Header ==> step is Header && step->Header_0@
                == self.block->0.scale_encoded_header@,
            self.stage is Justification ==> step is Justification && step->Justification_0@
                == self.block->0.scale_encoded_justification->0@,
            self.stage is Finished ==> step is Report,
    {
        match &self.block {
            Some(block) => match self.stage {
                BlockStage::Header => VerificationStep::Header(&block.scale_encoded_header),
                BlockStage::Justification => match &block.scale_encoded_justification {
                    Some(justification) => VerificationStep::Justification(justification),
                    None => VerificationStep::Report,
                },
                BlockStage::Finished => VerificationStep::Report,
            },
            None => VerificationStep::Report,
        }
    }

    /// Takes the outcome of the verification of the header into account.
    pub(crate) fn header_verified(
        &mut self,
        outcome: Result<HeaderVerifySuccess, VerifyError>,
    ) -> (action: ChainAction)
        requires
            old(self).valid(),
            old(self).stage is Header,
        ensures
            final(self).valid(),
            *final(self) == old(self).after_header(outcome),
            action == old(self).header_action(outcome),
    {
        let action = match outcome {
            Ok(HeaderVerifySuccess::Insert { block_height, is_new_best }) => {
                if is_new_best && block_height == self.expected_height {
                    ChainAction::Insert
                } else {
                    ChainAction::Clear
                }
            },
            Ok(HeaderVerifySuccess::Duplicate) => ChainAction::Keep,
            Err(_) => ChainAction::Clear,
        };
        let justified = match &self.block {
            Some(block) => block.scale_encoded_justification.is_some(),
            None => false,
        };
        self.stage = if action != ChainAction::Clear && justified {
            BlockStage::Justification
        } else {
            BlockStage::Finished
        };
        action
    }

    /// Takes the outcome of the verification of the justification into account.
    pub(crate) fn justification_verified(&mut self, outcome: Result<(), VerifyError>) -> (action:
        ChainAction)
        requires
            old(self).valid(),
            old(self).stage is Justification,
        ensures
            final(self).valid(),
            *final(self) == old(self).at(BlockStage::Finished),
            action == old(self).justification_action(outcome),
    {
        self.stage = BlockStage::Finished;
        match outcome {
            Ok(_) => ChainAction::Apply,
            Err(_) => ChainAction::Clear,
        }
    }
}

} // verus!
