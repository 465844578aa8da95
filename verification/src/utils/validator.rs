use vstd::prelude::*;

use crate::types::errors::PythiaError;

verus! {

/// The error that a subscription frequency gets, if any: at least 60 seconds, at least
/// the timer frequency, and a multiple of it.
pub open spec fn spec_subscription_frequency_error(frequency: u64, timer_frequency: u64) -> Option<PythiaError> {
    if frequency < 60 {
        Some(PythiaError::SubscriptionFrequencyIsTooLow)
    } else if frequency < timer_frequency {
        Some(PythiaError::TimerFrequencyIsGreaterThanSubscriptionFrequency)
    } else if frequency % timer_frequency != 0 {
        Some(PythiaError::TimerFrequencyIsNotDivisibleBySubscriptionFrequency)
    } else {
        None
    }
}

/// Checks a subscription frequency against the timer frequency.
pub fn subscription_frequency(frequency: u64, timer_frequency: u64) -> (res: Result<(), PythiaError>)
    requires
        frequency >= 60 ==> timer_frequency > 0,
    ensures
        match spec_subscription_frequency_error(frequency, timer_frequency) {
            Some(e) => res == Err::<(), PythiaError>(e),
            None => res is Ok,
        },
{
    if frequency < 60 {
        return Err(PythiaError::SubscriptionFrequencyIsTooLow);
    }
    if frequency < timer_frequency {
        return Err(PythiaError::TimerFrequencyIsGreaterThanSubscriptionFrequency);
    }
    if frequency % timer_frequency != 0 {
        return Err(PythiaError::TimerFrequencyIsNotDivisibleBySubscriptionFrequency);
    }
    Ok(())
}

/// Lets only a controller of the canister through; whether the caller is one is asked
/// of the platform.
pub fn caller(is_controller: bool) -> (res: Result<(), PythiaError>)
    ensures
        is_controller ==> res is Ok,
        !is_controller ==> res == Err::<(), PythiaError>(PythiaError::NotAController),
{
    if is_controller {
        return Ok(());
    }
    Err(PythiaError::NotAController)
}

} // verus!
