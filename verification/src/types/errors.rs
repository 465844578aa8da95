use vstd::prelude::*;

use crate::types::methods::ExecutionConditionError;

verus! {

/// Every error the service reports.
#[derive(Debug, PartialEq, Eq)]
pub enum PythiaError {
    NotAController,
    ChainAlreadyExists,
    ChainDoesNotExist,
    SubscriptionDoesNotExist,
    BalanceDoesNotExist,
    BalanceAlreadyExists,
    NonceAlreadyExists,
    TxDoesNotExist,
    TxHasFailed,
    TxNotExecuted,
    UserIsNotWhitelisted,
    TxWithoutReceiver,
    TxWasNotSentToPma,
    UnableToRecoverAddress,
    UnableToAddNewBalance,
    UnableToGetTx,
    UnableToSaveNonce,
    UnableToIncreaseBalance,
    UnableToGetGasPrice,
    UnableToGetValueForWithdraw,
    UnableToAddNewChain,
    UnableToRemoveChain,
    InvalidChainRPC,
    UnableToUpdateChain,
    UnableToGetChainRPC,
    FeedDoesNotExist,
    InvalidABIFunctionName,
    InvalidABIParameters,
    InvalidABIParametersNumber,
    InvalidABIParameterTypes,
    TotalSubscriptionsLimitReached,
    WalletSubscriptionsLimitReached,
    TimerFrequencyIsGreaterThanSubscriptionFrequency,
    TimerFrequencyIsNotDivisibleBySubscriptionFrequency,
    InvalidSubscriptionFrequency,
    InsufficientBalance,
    UnableToAddSubscription,
    UnableToStopSubscription,
    UnableToStartSubscription,
    InvalidAddressFormat,
    UnableToUpdateSubscription,
    UnableToStopSubscriptions,
    UnableToRemoveSubscriptions,
    InvalidContractABI,
    UnableToGetPMA,
    UnableToSignContractCall,
    UnableToExecuteRawTx,
    WaitingForSuccessConfirmationFailed,
    UnableToAddWithdrawRequest,
    UnableToGetRandom,
    UnableToStopInsufficientSubscriptions,
    UnableToExecuteMulticall,
    UnableToFormCallData,
    UnableToDecodeOutputs,
    InvalidMulticallResult,
    UnableToTransferFunds,
    UnableToGetBalance,
    UnableToGetAssetData,
    UnableToReduceBalance,
    ChainAlreadyInitializedInBalances,
    ChainAlreadyInitializedInSubscriptions,
    ChainAlreadyInitializedInWithdrawalRequests,
    UnableToActivateTimer,
    UnableToDeactivateTimer,
    UnableToUpdateTimer,
    TimerIsNotInitialized,
    TxTimeout,
    UnableToGetTxReceipt,
    SubscriptionFrequencyIsTooLow,
    UnableToGetInput,
    UnableToEncodeCall,
    UnableToClearBalance,
    UnableToGetSybilRate,
    UnsupportedAssetDataType,
    ExecutionConditionError(ExecutionConditionError),
    UnableToEstimateGas,
    SignError(String),
    /// A pair feed that a subscription names is unknown to the oracle.
    PairDoesNotExist,
    /// A balance too small to pay the gas of the withdrawal transfer.
    NotEnoughFundsForGas,
    /// A subscription request that names no execution condition.
    ExecConditionIsRequired,
    /// A condition checked as a frequency condition is not one.
    ExecConditionIsNotFrequency,
    /// A condition checked as a price mutation condition is not one.
    ExecConditionIsNotPriceMutation,
    /// No gas price was fetched for a chain that needed one.
    GasPriceNotFound,
    /// No fee was fetched for a chain that needed one.
    FeeNotFound,
}

} // verus!
