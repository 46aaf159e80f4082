use vstd::prelude::*;

verus! {

/// Integer comparisons supported by transition conditions.
#[derive(Clone, Copy, Debug, PartialEq, Eq, Structural)]
pub enum IntCondition {
    /// Passes when the parameter is less than the threshold.
    Less(i32),
    /// Passes when the parameter is greater than the threshold.
    Greater(i32),
    /// Passes when the parameter equals the threshold.
    Equal(i32),
    /// Passes when the parameter does not equal the threshold.
    NotEqual(i32),
}

/// Boolean comparisons supported by transition conditions.
#[derive(Clone, Copy, Debug, PartialEq, Eq, Structural)]
pub enum BoolCondition {
    /// Passes when the parameter is `true`.
    True,
    /// Passes when the parameter is `false`.
    False,
}

impl IntCondition {
    pub open spec fn holds_for(self, param: i32) -> bool {
        match self {
            IntCondition::Less(v) => param < v,
            IntCondition::Greater(v) => param > v,
            IntCondition::Equal(v) => param == v,
            IntCondition::NotEqual(v) => param != v,
        }
    }

    /// Whether an integer parameter with value `param` passes this condition.
    pub fn satisfied_by(self, param: i32) -> (r: bool)
        ensures
            r == self.holds_for(param),
    {
        match self {
            IntCondition::Less(v) => param < v,
            IntCondition::Greater(v) => param > v,
            IntCondition::Equal(v) => param == v,
            IntCondition::NotEqual(v) => param != v,
        }
    }
}

impl BoolCondition {
    pub open spec fn holds_for(self, param: bool) -> bool {
        match self {
            BoolCondition::True => param,
            BoolCondition::False => !param,
        }
    }

    /// Whether a boolean parameter with value `param` passes this condition.
    pub fn satisfied_by(self, param: bool) -> (r: bool)
        ensures
            r == self.holds_for(param),
    {
        match self {
            BoolCondition::True => param,
            BoolCondition::False => !param,
        }
    }
}

/// A runtime parameter value as the non-floating-point conditions read it:
/// a float parameter is only known to be one.
#[derive(Clone, Copy, Debug, PartialEq, Eq, Structural)]
pub enum DiscreteParameter {
    Float,
    Int(i32),
    Bool(bool),
    Trigger,
}

/// A transition condition whose float comparison (if any) is decided
/// elsewhere.
#[derive(Clone, Copy, Debug, PartialEq, Eq, Structural)]
pub enum DiscreteCondition {
    Unset,
    Float,
    Int(IntCondition),
    Bool(BoolCondition),
    Trigger,
}

/// How a condition turns out on a parameter.
#[derive(Clone, Copy, Debug, PartialEq, Eq, Structural)]
pub enum ConditionOutcome {
    /// The condition passes or fails.
    Decided(bool),
    /// A float parameter meets a float comparison: the comparison decides.
    FloatComparison,
}

/// A condition on a missing parameter fails; `Unset` (no condition chosen) never passes; an integer,
/// boolean or trigger condition on a parameter of the same kind compares;
/// a float comparison on a float parameter is left to the float values; any
/// other pairing fails.
pub open spec fn condition_outcome_spec(param: Option<DiscreteParameter>, cond: DiscreteCondition) -> ConditionOutcome {
    match param {
        None => ConditionOutcome::Decided(false),
        Some(p) => match (p, cond) {
            (_, DiscreteCondition::Unset) => ConditionOutcome::Decided(false),
            (DiscreteParameter::Float, DiscreteCondition::Float) => ConditionOutcome::FloatComparison,
            (DiscreteParameter::Int(v), DiscreteCondition::Int(c)) => ConditionOutcome::Decided(c.holds_for(v)),
            (DiscreteParameter::Bool(v), DiscreteCondition::Bool(c)) => ConditionOutcome::Decided(c.holds_for(v)),
            (DiscreteParameter::Trigger, DiscreteCondition::Trigger) => ConditionOutcome::Decided(true),
            _ => ConditionOutcome::Decided(false),
        },
    }
}

/// The outcome of condition `cond` on the parameter `param` (absent when the
/// animator has no such parameter).
pub fn condition_outcome(param: Option<DiscreteParameter>, cond: DiscreteCondition) -> (r: ConditionOutcome)
    ensures
        r == condition_outcome_spec(param, cond),
{
    match param {
        None => ConditionOutcome::Decided(false),
        Some(p) => match (p, cond) {
            (_, DiscreteCondition::Unset) => ConditionOutcome::Decided(false),
            (DiscreteParameter::Float, DiscreteCondition::Float) => ConditionOutcome::FloatComparison,
            (DiscreteParameter::Int(v), DiscreteCondition::Int(c)) => ConditionOutcome::Decided(c.satisfied_by(v)),
            (DiscreteParameter::Bool(v), DiscreteCondition::Bool(c)) => ConditionOutcome::Decided(c.satisfied_by(v)),
            (DiscreteParameter::Trigger, DiscreteCondition::Trigger) => ConditionOutcome::Decided(true),
            _ => ConditionOutcome::Decided(false),
        },
    }
}

/// The value halfway-blended towards `other` by a weight at least one half
/// (`at_least_half`): booleans switch at one half; integer and float blends
/// are computed on floats elsewhere; mismatched kinds take `other`.
pub open spec fn blend_discrete_spec(current: DiscreteParameter, other: DiscreteParameter, at_least_half: bool) -> Option<DiscreteParameter> {
    match (current, other) {
        (DiscreteParameter::Bool(a), DiscreteParameter::Bool(b)) => Some(
            DiscreteParameter::Bool(if at_least_half { b } else { a }),
        ),
        (DiscreteParameter::Float, DiscreteParameter::Float) => None,
        (DiscreteParameter::Int(_), DiscreteParameter::Int(_)) => None,
        (_, o) => Some(o),
    }
}

/// The blend of two parameter values where no float arithmetic is involved;
/// `None` when both are floats or both are integers.
pub fn blend_discrete(current: DiscreteParameter, other: DiscreteParameter, at_least_half: bool) -> (r: Option<DiscreteParameter>)
    ensures
        r == blend_discrete_spec(current, other, at_least_half),
{
    match (current, other) {
        (DiscreteParameter::Bool(a), DiscreteParameter::Bool(b)) => Some(
            DiscreteParameter::Bool(if at_least_half { b } else { a }),
        ),
        (DiscreteParameter::Float, DiscreteParameter::Float) => None,
        (DiscreteParameter::Int(_), DiscreteParameter::Int(_)) => None,
        (_, o) => Some(o),
    }
}

/// Principal axis used by collider shapes that need an orientation.
#[derive(Clone, Copy, Debug, PartialEq, Eq, Structural)]
pub enum Orientation {
    /// X axis.
    X,
    /// Y axis.
    Y,
    /// Z axis.
    Z,
}

/// A counter handing out consecutive numbers, starting over at zero after the
/// largest value.
pub struct Counter {
    next: u64,
}

impl Counter {
    pub closed spec fn peek(&self) -> u64 {
        self.next
    }

    /// A counter starting at zero.
    pub fn new() -> (r: Counter)
        ensures
            r.peek() == 0,
    {
        Counter { next: 0 }
    }

    /// The current number; the counter moves on by one, or back to zero after
    /// `u64::MAX`.
    pub fn next(&mut self) -> (r: u64)
        ensures
            r == old(self).peek(),
            final(self).peek() == (if old(self).peek() < u64::MAX {
                (old(self).peek() + 1) as u64
            } else {
                0
            }),
    {
        let value = self.next;
        self.next = match self.next.checked_add(1) {
            Some(n) => n,
            None => 0,
        };
        value
    }
}

/// One step of the particle emitter's xorshift generator.
pub open spec fn xorshift_step_spec(state: u64) -> u64 {
    let a = state ^ ((state << 13u64) as u64);
    let b = a ^ (a >> 7u64);
    b ^ ((b << 17u64) as u64)
}

/// Advances the particle emitter's random state by one xorshift step.
pub fn xorshift_step(state: u64) -> (r: u64)
    ensures
        r == xorshift_step_spec(state),
{
    let mut s = state;
    s = s ^ (s << 13u64);
    s = s ^ (s >> 7u64);
    s = s ^ (s << 17u64);
    s
}

/// The default seed mixed into particle random states.
pub const DEFAULT_RNG_SEED: u64 = 0x9e37_79b9_7f4a_7c15;

/// The random state an emitter starts from for a seed UUID: its low 64 bits
/// mixed with the default seed.
pub fn particle_seed(seed: u128) -> (r: u64)
    ensures
        r == ((seed % 0x1_0000_0000_0000_0000) as u64 ^ DEFAULT_RNG_SEED),
{
    ((seed % 0x1_0000_0000_0000_0000) as u64) ^ DEFAULT_RNG_SEED
}

/// Every parameter kind has conditions that pass on it: an integer equals
/// itself and is neither less nor greater than itself, a boolean passes the
/// condition on its own value and fails the other, a trigger passes a trigger
/// condition, and a float is left to the float comparison.
pub proof fn law_each_parameter_has_a_passing_condition(p: DiscreteParameter)
    ensures
        match p {
            DiscreteParameter::Int(v) => {
                &&& condition_outcome_spec(Some(p), DiscreteCondition::Int(IntCondition::Equal(v)))
                    == ConditionOutcome::Decided(true)
                &&& condition_outcome_spec(Some(p), DiscreteCondition::Int(IntCondition::NotEqual(v)))
                    == ConditionOutcome::Decided(false)
                &&& condition_outcome_spec(Some(p), DiscreteCondition::Int(IntCondition::Less(v)))
                    == ConditionOutcome::Decided(false)
                &&& condition_outcome_spec(Some(p), DiscreteCondition::Int(IntCondition::Greater(v)))
                    == ConditionOutcome::Decided(false)
            },
            DiscreteParameter::Bool(b) => {
                &&& condition_outcome_spec(Some(p), DiscreteCondition::Bool(BoolCondition::True))
                    == ConditionOutcome::Decided(b)
                &&& condition_outcome_spec(Some(p), DiscreteCondition::Bool(BoolCondition::False))
                    == ConditionOutcome::Decided(!b)
            },
            DiscreteParameter::Trigger => condition_outcome_spec(Some(p), DiscreteCondition::Trigger)
                == ConditionOutcome::Decided(true),
            DiscreteParameter::Float => condition_outcome_spec(Some(p), DiscreteCondition::Float)
                == ConditionOutcome::FloatComparison,
        },
{
}

/// A condition passes only on a parameter that exists and is of its own
/// kind; an unset condition never passes; and of the integer comparisons
/// with one threshold, exactly one of equal and not-equal passes, and less
/// and greater never both pass.
pub proof fn law_condition_passes_only_on_its_kind(p: Option<DiscreteParameter>, c: DiscreteCondition)
    ensures
        condition_outcome_spec(p, c) == ConditionOutcome::Decided(true) ==> match (p, c) {
            (Some(DiscreteParameter::Int(_)), DiscreteCondition::Int(_)) => true,
            (Some(DiscreteParameter::Bool(_)), DiscreteCondition::Bool(_)) => true,
            (Some(DiscreteParameter::Trigger), DiscreteCondition::Trigger) => true,
            _ => false,
        },
        p is None ==> condition_outcome_spec(p, c) == ConditionOutcome::Decided(false),
        condition_outcome_spec(p, DiscreteCondition::Unset) == ConditionOutcome::Decided(false),
        forall|v: i32, t: i32|
            #![trigger IntCondition::Equal(t).holds_for(v), IntCondition::NotEqual(t).holds_for(v)]
            IntCondition::Equal(t).holds_for(v) != IntCondition::NotEqual(t).holds_for(v),
        forall|v: i32, t: i32|
            #![trigger IntCondition::Less(t).holds_for(v), IntCondition::Greater(t).holds_for(v)]
            !(IntCondition::Less(t).holds_for(v) && IntCondition::Greater(t).holds_for(v)),
{
}

} // verus!
