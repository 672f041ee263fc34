//! Typed failures of the core. Every error aborts the whole operation with
//! zero mutation; the exact condition for each variant is stated in the
//! `ensures` of the operation that returns it.

use vstd::prelude::*;

verus! {

#[derive(Clone, Copy, PartialEq, Eq, Structural, Debug)]
pub enum Error {
    TaskDuplicated,
    TaskCheckAddFail,
    TaskChangeStatusFail,
    TaskNotWaitForRecv,
    TaskNotInBoard,
    TaskTeamLeaderRepeatSetting,
    TaskNotFoundAtIndex,
    TaskNotFoundAtHash,
    TaskPlayerIsInvalid,
    TaskInWrongBoard,
    TaskInvalid,
    TaskKindInvalid,
    TaskRecvEmpty,
    TaskParticipantInvalid,
    TaskProcessing,
    BoardDuplicated,
    FundsRecvRewardWrongTime,
    FundsIssuserBackWrongTime,
    PermissionError,
    JudgeKindInvalid,
    JudgeVerifyFaild,
    JudgementNotFound,
    JudgeAlreadyDone,
    JudgeSizeFull,
    JudgeRepeat,
    JudgeProcessing,
    /// The ledger could not cover a withdrawal.
    InsufficientFunds,
    /// A deposit was directed at an account the ledger does not know.
    AccountMissing,
    /// A deposit would push a balance past the representable maximum.
    BalanceOverflow,
    /// The caller is not the issuer of the subject.
    Unauthorized,
    /// The credential to revoke or verify was never issued.
    CredentialNotIssued,
}

impl Error {
    /// Short name of the variant, for hosts that render failures as text.
    pub fn as_str(&self) -> &'static str {
        match self {
            Error::TaskDuplicated => "TaskDuplicated",
            Error::TaskCheckAddFail => "TaskCheckAddFail",
            Error::TaskChangeStatusFail => "TaskChangeStatusFail",
            Error::TaskNotWaitForRecv => "TaskNotWaitForRecv",
            Error::TaskNotInBoard => "TaskNotInBoard",
            Error::TaskTeamLeaderRepeatSetting => "TaskTeamLeaderRepeatSetting",
            Error::TaskNotFoundAtIndex => "TaskNotFoundAtIndex",
            Error::TaskNotFoundAtHash => "TaskNotFoundAtHash",
            Error::TaskPlayerIsInvalid => "TaskPlayerIsInvalid",
            Error::TaskInWrongBoard => "TaskInWrongBoard",
            Error::TaskInvalid => "TaskInvalid",
            Error::TaskKindInvalid => "TaskKindInvalid",
            Error::TaskRecvEmpty => "TaskRecvEmpty",
            Error::TaskParticipantInvalid => "TaskParticipantInvalid",
            Error::TaskProcessing => "TaskProcessing",
            Error::BoardDuplicated => "BoardDuplicated",
            Error::FundsRecvRewardWrongTime => "FundsRecvRewardWrongTime",
            Error::FundsIssuserBackWrongTime => "FundsIssuserBackWrongTime",
            Error::PermissionError => "PermissionError",
            Error::JudgeKindInvalid => "JudgeKindInvalid",
            Error::JudgeVerifyFaild => "JudgeVerifyFaild",
            Error::JudgementNotFound => "JudgementNotFound",
            Error::JudgeAlreadyDone => "JudgeAlreadyDone",
            Error::JudgeSizeFull => "JudgeSizeFull",
            Error::JudgeRepeat => "JudgeRepeat",
            Error::JudgeProcessing => "JudgeProcessing",
            Error::InsufficientFunds => "InsufficientFunds",
            Error::AccountMissing => "AccountMissing",
            Error::BalanceOverflow => "BalanceOverflow",
            Error::Unauthorized => "Unauthorized",
            Error::CredentialNotIssued => "CredentialNotIssued",
        }
    }
}

} // verus!
