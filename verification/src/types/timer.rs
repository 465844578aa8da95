use vstd::prelude::*;

use crate::types::errors::PythiaError;
use crate::utils::text::{decimal_value, parse_u64};

verus! {

/// The publisher's timer: the serialized id of the platform timer, and whether the
/// publisher job is running.
pub struct Timer {
    pub id: String,
    pub is_active: bool,
}

impl Default for Timer {
    fn default() -> (res: Self)
        ensures
            res.id@ == Seq::<char>::empty(),
            !res.is_active,
    {
        Timer { id: String::new(), is_active: false }
    }
}

impl Timer {
    /// Records the id of a new platform timer, keeping whether it is active.
    pub fn update(timer: &mut Option<Timer>, id: String) -> (res: Result<(), PythiaError>)
        ensures
            *old(timer) is None ==> res == Err::<(), PythiaError>(PythiaError::TimerIsNotInitialized) && *final(timer) is None,
            *old(timer) matches Some(t) ==> (res is Ok && (*final(timer) matches Some(n) && n.id == id && n.is_active == t.is_active)),
    {
        match timer {
            Some(t) => {
                t.id = id;
                Ok(())
            },
            None => Err(PythiaError::TimerIsNotInitialized),
        }
    }

    /// Marks the timer active, keeping its id.
    pub fn activate(timer: &mut Option<Timer>) -> (res: Result<(), PythiaError>)
        ensures
            *old(timer) is None ==> res == Err::<(), PythiaError>(PythiaError::TimerIsNotInitialized) && *final(timer) is None,
            *old(timer) matches Some(t) ==> (res is Ok && (*final(timer) matches Some(n) && n.id == t.id && n.is_active)),
    {
        match timer {
            Some(t) => {
                t.is_active = true;
                Ok(())
            },
            None => Err(PythiaError::TimerIsNotInitialized),
        }
    }

    /// Marks the timer inactive, keeping its id, and gives back the key of the
    /// platform timer, which the caller clears; the id is the key in decimal, and
    /// a timer whose id is no such numeral is left as it is.
    pub fn deactivate(timer: &mut Option<Timer>) -> (res: Result<u64, PythiaError>)
        ensures
            *old(timer) is None ==> res == Err::<u64, PythiaError>(PythiaError::TimerIsNotInitialized) && *final(timer) is None,
            *old(timer) matches Some(t) ==> match decimal_value(t.id@) {
                Some(k) if k <= u64::MAX => res == Ok::<u64, PythiaError>(k as u64)
                    && (*final(timer) matches Some(n) && n.id == t.id && !n.is_active),
                _ => res == Err::<u64, PythiaError>(PythiaError::UnableToDeactivateTimer) && *final(timer) == *old(timer),
            },
    {
        match timer {
            Some(t) => {
                let key = match parse_u64(t.id.as_str()) {
                    Some(k) => k,
                    None => { return Err(PythiaError::UnableToDeactivateTimer); },
                };
                t.is_active = false;
                Ok(key)
            },
            None => Err(PythiaError::TimerIsNotInitialized),
        }
    }

    /// Whether the publisher job is running; the timer must exist.
    pub fn is_active(timer: &Option<Timer>) -> (res: bool)
        requires
            *timer is Some,
        ensures
            res == timer->0.is_active,
    {
        match timer {
            Some(t) => t.is_active,
            None => false,
        }
    }
}

} // verus!
