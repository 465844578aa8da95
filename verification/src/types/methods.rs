use vstd::prelude::*;

use crate::types::errors::PythiaError;
use crate::utils::text::str_to_string;

verus! {

/// Why an execution condition is refused or cannot be checked.
#[derive(Debug, PartialEq, Eq)]
pub enum ExecutionConditionError {
    FrequencyIsTooLow,
    FrequencyLowerThanTimerFrequency,
    InvalidFrequency(String),
    FrequencyIsNotMultipliableByTheTimerFrequency { frequency: u64, timer_frequency: u64 },
    InvalidChangeRate,
    PairDoesNotExist,
    Error(Box<PythiaError>),
}

/// Which way a price must move for a price mutation condition to fire.
#[derive(Debug, Clone, Copy, PartialEq, Eq)]
pub enum PriceMutationType {
    Increase,
    Decrease,
    Both,
}

/// When a subscription is due.
#[derive(Debug)]
pub enum ExecutionCondition {
    /// Every so many seconds.
    Frequency(u64),
    /// When the price of a pair has moved by a rate (in percent) since the last check.
    PriceMutation {
        mutation_rate: i64,
        pair_id: String,
        creation_price: u64,
        price_mutation_type: PriceMutationType,
    },
}

impl Clone for ExecutionCondition {
    fn clone(&self) -> (res: Self)
        ensures
            res == *self,
    {
        match self {
            ExecutionCondition::Frequency(f) => ExecutionCondition::Frequency(*f),
            ExecutionCondition::PriceMutation { mutation_rate, pair_id, creation_price, price_mutation_type } =>
                ExecutionCondition::PriceMutation {
                    mutation_rate: *mutation_rate,
                    pair_id: pair_id.clone(),
                    creation_price: *creation_price,
                    price_mutation_type: *price_mutation_type,
                },
        }
    }
}

impl Default for ExecutionCondition {
    fn default() -> (res: Self)
        ensures
            res == ExecutionCondition::Frequency(1800),
    {
        ExecutionCondition::Frequency(60 * 30)
    }
}

/// How far (in percent) a price has fallen from `creation_price` to `rate`:
/// `100 - rate * 100 / creation_price`, the division rounding toward zero.
pub open spec fn spec_mutation_rate(rate: u64, creation_price: u64) -> int {
    100 - (rate as int * 100) / (creation_price as int)
}

/// Whether a price mutation condition fires for a measured `current` rate.
pub open spec fn spec_mutation_fires(current: int, change_rate: i64, kind: PriceMutationType) -> bool {
    match kind {
        PriceMutationType::Increase => current >= change_rate,
        PriceMutationType::Decrease => current <= change_rate,
        PriceMutationType::Both => abs(current) >= abs(change_rate as int),
    }
}

/// The absolute value of `x`.
pub open spec fn abs(x: int) -> int {
    if x < 0 { -x } else { x }
}

/// Law: a `Both` price condition fires exactly when the measured rate has moved
/// at least as far as the condition's rate in either direction: when an
/// `Increase` condition or a `Decrease` condition of that size on the same side
/// would fire. So it fires on a price rise as on a price fall.
pub proof fn law_both_fires_either_way(rate: u64, creation_price: u64, change_rate: i64)
    requires
        creation_price > 0,
    ensures
        ({
            let cur = spec_mutation_rate(rate, creation_price);
            let size: int = if change_rate >= 0 { change_rate as int } else { -(change_rate as int) };
            &&& spec_mutation_fires(cur, change_rate, PriceMutationType::Both) <==> (cur >= size || cur <= -size)
            &&& change_rate > i64::MIN ==> (spec_mutation_fires(cur, change_rate, PriceMutationType::Both)
                <==> (spec_mutation_fires(cur, size as i64, PriceMutationType::Increase)
                    || spec_mutation_fires(cur, (-size) as i64, PriceMutationType::Decrease)))
            &&& (change_rate >= 0 && spec_mutation_fires(cur, change_rate, PriceMutationType::Increase))
                ==> spec_mutation_fires(cur, change_rate, PriceMutationType::Both)
            &&& (change_rate <= 0 && spec_mutation_fires(cur, change_rate, PriceMutationType::Decrease))
                ==> spec_mutation_fires(cur, change_rate, PriceMutationType::Both)
            &&& (rate as int * 100) / (creation_price as int) >= 100 + size
                ==> spec_mutation_fires(cur, change_rate, PriceMutationType::Both)
            &&& (rate as int * 100) / (creation_price as int) <= 100 - size
                ==> spec_mutation_fires(cur, change_rate, PriceMutationType::Both)
        }),
{
}

/// Law: the measured rate is how far, in percent, the price fell from the price
/// it is compared with: a fall of exactly `d` percent measures `d`, a rise of
/// exactly `d` percent measures `-d`, and an unchanged price measures zero.
pub proof fn law_mutation_rate_is_the_percent_fall(creation_price: u64, d: nat)
    requires
        creation_price > 0,
    ensures
        d <= 100 && creation_price * (100 - d) <= u64::MAX * 100 && (creation_price * (100 - d)) % 100 == 0
            ==> spec_mutation_rate(((creation_price * (100 - d)) / 100) as u64, creation_price) == d,
        (creation_price * (100 + d)) % 100 == 0 && (creation_price * (100 + d)) / 100 <= u64::MAX
            ==> spec_mutation_rate(((creation_price * (100 + d)) / 100) as u64, creation_price) == -(d as int),
        spec_mutation_rate(creation_price, creation_price) == 0,
{
    let c = creation_price as int;
    if d <= 100 && (c * (100 - d)) % 100 == 0 {
        let r = (c * (100 - d)) / 100;
        assert(r * 100 == c * (100 - d)) by (nonlinear_arith)
            requires (c * (100 - d)) % 100 == 0, r == (c * (100 - d)) / 100;
        assert((r * 100) / c == 100 - d) by (nonlinear_arith)
            requires r * 100 == c * (100 - d), c > 0, d <= 100;
        if c * (100 - d) <= u64::MAX * 100 {
            assert(0 <= r <= u64::MAX) by (nonlinear_arith)
                requires r * 100 == c * (100 - d), c * (100 - d) <= u64::MAX * 100, c > 0, d <= 100;
            assert(((r as u64) as int) == r);
        }
    }
    if (c * (100 + d)) % 100 == 0 && (c * (100 + d)) / 100 <= u64::MAX {
        let r = (c * (100 + d)) / 100;
        assert(r * 100 == c * (100 + d)) by (nonlinear_arith)
            requires (c * (100 + d)) % 100 == 0, r == (c * (100 + d)) / 100;
        assert((r * 100) / c == 100 + d) by (nonlinear_arith)
            requires r * 100 == c * (100 + d), c > 0;
        assert(r >= 0) by (nonlinear_arith)
            requires r * 100 == c * (100 + d), c > 0;
        assert(((r as u64) as int) == r);
    }
    assert((c * 100) / c == 100) by (nonlinear_arith)
        requires c > 0;
}

/// The error that the frequency checks give, if any: at least 60 seconds, at least the
/// timer frequency, and a multiple of it.
pub open spec fn spec_frequency_error(frequency: u64, timer_frequency: u64) -> Option<ExecutionConditionError> {
    if frequency < 60 {
        Some(ExecutionConditionError::FrequencyIsTooLow)
    } else if frequency < timer_frequency {
        Some(ExecutionConditionError::FrequencyLowerThanTimerFrequency)
    } else if frequency % timer_frequency != 0 {
        Some(ExecutionConditionError::FrequencyIsNotMultipliableByTheTimerFrequency { frequency, timer_frequency })
    } else {
        None
    }
}

impl ExecutionCondition {
    /// Whether a frequency condition is due: more than `frequency` seconds have passed
    /// since `last_update` at time `now`. Any other condition is not due.
    pub fn check_frequency(&self, last_update: u64, now: u64) -> (res: bool)
        ensures
            res == match *self {
                ExecutionCondition::Frequency(f) => now > last_update + f,
                _ => false,
            },
    {
        match self {
            ExecutionCondition::Frequency(frequency) => (now as u128) > (last_update as u128) + (*frequency as u128),
            _ => false,
        }
    }

    /// Checks a price mutation condition against the price `rate` just read from the
    /// oracle, and remembers `rate` as the price to compare with next time. Any other
    /// condition is not due and is left as it is.
    pub fn check_price_mutation(&mut self, rate: u64) -> (res: Result<bool, ExecutionConditionError>)
        requires
            *old(self) matches ExecutionCondition::PriceMutation { creation_price, .. } ==> creation_price != 0,
        ensures
            match *old(self) {
                ExecutionCondition::PriceMutation { mutation_rate, pair_id, creation_price, price_mutation_type } => {
                    &&& *final(self) == (ExecutionCondition::PriceMutation { mutation_rate, pair_id, creation_price: rate, price_mutation_type })
                    &&& res == Ok::<bool, ExecutionConditionError>(spec_mutation_fires(spec_mutation_rate(rate, creation_price), mutation_rate, price_mutation_type))
                },
                _ => res == Ok::<bool, ExecutionConditionError>(false) && *final(self) == *old(self),
            },
    {
        match self {
            ExecutionCondition::PriceMutation { mutation_rate, pair_id, creation_price, price_mutation_type } => {
                let scaled: i128 = (rate as i128) * 100;
                let quotient: i128 = scaled / (*creation_price as i128);
                let current: i128 = 100 - quotient;
                *creation_price = rate;
                let change: i128 = *mutation_rate as i128;
                let fires = match price_mutation_type {
                    PriceMutationType::Increase => current >= change,
                    PriceMutationType::Decrease => current <= change,
                    PriceMutationType::Both => {
                        let a: i128 = if current < 0 { -current } else { current };
                        let b: i128 = if change < 0 { -change } else { change };
                        a >= b
                    },
                };
                Ok(fires)
            },
            _ => Ok(false),
        }
    }

    /// Accepts a frequency condition of at least 60 seconds that is a multiple of the
    /// timer frequency, which is at least as long as it.
    pub fn validate_frequency(&self, timer_frequency: u64) -> (res: Result<(), ExecutionConditionError>)
        requires
            *self matches ExecutionCondition::Frequency(f) && f >= 60 ==> timer_frequency > 0,
        ensures
            match *self {
                ExecutionCondition::Frequency(f) => match spec_frequency_error(f, timer_frequency) {
                    Some(e) => res == Err::<(), ExecutionConditionError>(e),
                    None => res is Ok,
                },
                _ => res == Err::<(), ExecutionConditionError>(ExecutionConditionError::Error(Box::new(PythiaError::ExecConditionIsNotFrequency))),
            },
    {
        let frequency = match self {
            ExecutionCondition::Frequency(f) => *f,
            _ => { return Err(ExecutionConditionError::Error(Box::new(PythiaError::ExecConditionIsNotFrequency))); },
        };
        if frequency < 60 {
            return Err(ExecutionConditionError::FrequencyIsTooLow);
        }
        if frequency < timer_frequency {
            return Err(ExecutionConditionError::FrequencyLowerThanTimerFrequency);
        }
        if frequency % timer_frequency != 0 {
            return Err(ExecutionConditionError::FrequencyIsNotMultipliableByTheTimerFrequency { frequency, timer_frequency });
        }
        Ok(())
    }

    /// Accepts a price mutation condition whose rate lies in `1..100` and whose pair the
    /// oracle knows (`pair_exists`), and records `rate`, the pair's current price, as the
    /// price to compare with.
    pub fn validate_price_mutation(&mut self, pair_exists: bool, rate: u64) -> (res: Result<(), ExecutionConditionError>)
        ensures
            match *old(self) {
                ExecutionCondition::PriceMutation { mutation_rate, pair_id, creation_price, price_mutation_type } =>
                    if mutation_rate < 1 || mutation_rate >= 100 {
                        res == Err::<(), ExecutionConditionError>(ExecutionConditionError::InvalidChangeRate) && *final(self) == *old(self)
                    } else if !pair_exists {
                        res == Err::<(), ExecutionConditionError>(ExecutionConditionError::PairDoesNotExist) && *final(self) == *old(self)
                    } else {
                        res is Ok && *final(self) == (ExecutionCondition::PriceMutation { mutation_rate, pair_id, creation_price: rate, price_mutation_type })
                    },
                _ => res == Err::<(), ExecutionConditionError>(ExecutionConditionError::Error(Box::new(PythiaError::ExecConditionIsNotPriceMutation)))
                    && *final(self) == *old(self),
            },
    {
        match self {
            ExecutionCondition::PriceMutation { mutation_rate, creation_price, .. } => {
                if *mutation_rate < 1 || *mutation_rate >= 100 {
                    return Err(ExecutionConditionError::InvalidChangeRate);
                }
                if !pair_exists {
                    return Err(ExecutionConditionError::PairDoesNotExist);
                }
                *creation_price = rate;
                Ok(())
            },
            _ => Err(ExecutionConditionError::Error(Box::new(PythiaError::ExecConditionIsNotPriceMutation))),
        }
    }
}

/// What a subscribed method is called with.
#[derive(Debug)]
pub enum MethodType {
    /// A pair feed: the method takes the pair id, price, decimals and timestamp.
    Pair(String),
    /// A random value of the named ABI type.
    Random(String),
    /// No arguments.
    Empty,
}

impl Clone for MethodType {
    fn clone(&self) -> (res: Self)
        ensures
            res == *self,
    {
        match self {
            MethodType::Pair(p) => MethodType::Pair(p.clone()),
            MethodType::Random(t) => MethodType::Random(t.clone()),
            MethodType::Empty => MethodType::Empty,
        }
    }
}

/// The contract method a subscription calls.
#[derive(Debug)]
pub struct Method {
    pub name: String,
    pub abi: String,
    pub gas_limit: u128,
    pub chain_id: u64,
    pub method_type: MethodType,
    pub exec_condition: Option<ExecutionCondition>,
}

impl Clone for Method {
    fn clone(&self) -> (res: Self)
        ensures
            res == *self,
    {
        Method {
            name: self.name.clone(),
            abi: self.abi.clone(),
            gas_limit: self.gas_limit,
            chain_id: self.chain_id,
            method_type: self.method_type.clone(),
            exec_condition: match &self.exec_condition {
                Some(c) => Some(c.clone()),
                None => None,
            },
        }
    }
}

impl Default for Method {
    fn default() -> (res: Self)
        ensures
            res.name@ == Seq::<char>::empty() && res.abi@ == Seq::<char>::empty() && res.gas_limit == 0
                && res.chain_id == 0 && res.method_type == MethodType::Empty && res.exec_condition is None,
    {
        Method {
            name: String::new(),
            abi: String::new(),
            gas_limit: 0,
            chain_id: 0,
            method_type: MethodType::Empty,
            exec_condition: None,
        }
    }
}

/// A price mutation condition made from the fields of a request, its price not yet read.
pub fn price_mutation_condition(mutation_rate: i64, pair_id: &str, price_mutation_type: PriceMutationType) -> (res: ExecutionCondition)
    ensures
        res matches ExecutionCondition::PriceMutation { mutation_rate: r, pair_id: p, creation_price: c, price_mutation_type: t }
            && r == mutation_rate && p@ == pair_id@ && c == 0 && t == price_mutation_type,
{
    ExecutionCondition::PriceMutation {
        mutation_rate,
        pair_id: str_to_string(pair_id),
        creation_price: 0,
        price_mutation_type,
    }
}

} // verus!
