//! What an upward message decodes to, and what it costs to execute.
//!
//! No message format has been settled on yet: [`Xcm`] has no values, so no message decodes and
//! none is executed.
use vstd::prelude::*;

use crate::weights::Weight;

verus! {

/// A decoded upward message. There is none: the format has no variant.
#[derive(Debug, PartialEq, Eq)]
pub struct Xcm {
    never: bool,
}

/// Why a message did not decode.
#[derive(Clone, Copy, Debug, PartialEq, Eq, Structural)]
pub enum DecodeError {
    /// The message ends before the byte that selects the variant.
    MissingVariant,
    /// The byte that selects the variant selects none.
    UnknownVariant(u8),
}

/// The error that the codec reports.
#[verifier::external_type_specification]
#[verifier::external_body]
pub struct ExCodecError(parity_scale_codec::Error);

/// Reads the first byte of an encoded value.
///
/// `parity_scale_codec::Input::read_byte`, on a slice of bytes, gives the first byte, and an
/// error exactly when there is none.
#[verifier::external_body]
fn read_byte(input: &[u8]) -> (byte: Result<u8, parity_scale_codec::Error>)
    ensures
        match byte {
            Ok(b) => input@.len() > 0 && b == input@[0],
            Err(_) => input@.len() == 0,
        },
{
    let mut rest: &[u8] = input;
    parity_scale_codec::Input::read_byte(&mut rest)
}

impl Xcm {
    /// No value of this type is ever built.
    #[verifier::type_invariant]
    spec fn exists_never(self) -> bool {
        false
    }

    /// What a message decodes to.
    pub open spec fn decoded(message: Seq<u8>) -> Result<Xcm, DecodeError> {
        if message.len() == 0 {
            Err(DecodeError::MissingVariant)
        } else {
            Err(DecodeError::UnknownVariant(message[0]))
        }
    }

    /// The weight that executing this is expected to use. Nothing is fixed of it, as there is no
    /// value to ask it of.
    pub open spec fn estimate(self) -> Weight {
        arbitrary()
    }

    /// What executing this comes to: the weight that it used, whether it went well or not.
    /// Nothing is fixed of it, as there is no value to ask it of.
    pub open spec fn outcome(self) -> Result<Weight, Weight> {
        arbitrary()
    }

    /// Decodes a message: its first byte selects the variant.
    pub fn decode(message: &[u8]) -> (xcm: Result<Xcm, DecodeError>)
        ensures
            xcm == Self::decoded(message@),
    {
        match read_byte(message) {
            Ok(variant) => Err(DecodeError::UnknownVariant(variant)),
            Err(_) => Err(DecodeError::MissingVariant),
        }
    }
}

impl Clone for Xcm {
    fn clone(&self) -> (xcm: Self)
        ensures
            xcm == *self,
    {
        proof {
            use_type_invariant(self);
        }
        vstd::pervasive::unreached()
    }
}

/// Executes a decoded message. `Ok` and `Err` both carry the weight that was used.
pub fn execute(xcm: Xcm) -> (outcome: Result<Weight, Weight>)
    ensures
        outcome == xcm.outcome(),
{
    proof {
        use_type_invariant(&xcm);
    }
    vstd::pervasive::unreached()
}

/// Estimates the weight of executing a decoded message.
pub fn estimate_weight(xcm: &Xcm) -> (weight: Weight)
    ensures
        weight == xcm.estimate(),
{
    proof {
        use_type_invariant(xcm);
    }
    vstd::pervasive::unreached()
}

/// The weight that an execution used, however it ended.
pub open spec fn used(outcome: Result<Weight, Weight>) -> Weight {
    match outcome {
        Ok(weight) => weight,
        Err(weight) => weight,
    }
}

/// What became of a message.
#[derive(Clone, Copy, Debug, PartialEq, Eq)]
pub enum DispatchOutcome {
    /// It did not decode.
    Undecodable(DecodeError),
    /// It was estimated, at the given weight, above the critical weight and not executed.
    TooHeavy(Weight),
    /// It was executed. `Ok` and `Err` both carry the weight that was used.
    Executed(Result<Weight, Weight>),
}

impl DispatchOutcome {
    /// The weight that was used up.
    pub open spec fn used_up(self) -> Weight {
        match self {
            DispatchOutcome::Executed(outcome) => used(outcome),
            _ => 0,
        }
    }

    /// Tells the weight that was used up.
    pub fn weight(&self) -> (weight: Weight)
        ensures
            weight == self.used_up(),
    {
        match self {
            DispatchOutcome::Executed(outcome) => used_weight(*outcome),
            DispatchOutcome::Undecodable(_) => 0,
            DispatchOutcome::TooHeavy(_) => 0,
        }
    }
}

/// What becomes of a message: it is executed if it decodes and its estimated weight is not above
/// the critical weight.
pub open spec fn outcome_of(message: Seq<u8>, critical_weight: Weight) -> DispatchOutcome {
    match Xcm::decoded(message) {
        Ok(xcm) => if xcm.estimate() <= critical_weight {
            DispatchOutcome::Executed(xcm.outcome())
        } else {
            DispatchOutcome::TooHeavy(xcm.estimate())
        },
        Err(error) => DispatchOutcome::Undecodable(error),
    }
}

/// The weight that a message uses up: that of its execution, or none if it is not executed.
pub open spec fn message_weight(message: Seq<u8>, critical_weight: Weight) -> Weight {
    outcome_of(message, critical_weight).used_up()
}

/// What messages cost, given what becomes of them.
pub open spec fn cost_of(outcomes: spec_fn(Seq<u8>) -> DispatchOutcome) -> spec_fn(Seq<u8>) -> nat {
    |message: Seq<u8>| outcomes(message).used_up() as nat
}

/// Tells whether a message with this estimated weight is executed.
pub fn may_execute(estimate: Weight, critical_weight: Weight) -> (r: bool)
    ensures
        r == (estimate <= critical_weight),
{
    estimate <= critical_weight
}

/// Tells the weight that an execution used, however it ended.
pub fn used_weight(outcome: Result<Weight, Weight>) -> (weight: Weight)
    ensures
        weight == used(outcome),
{
    match outcome {
        Ok(w) => w,
        Err(w) => w,
    }
}

/// Decides on a message of any format: if it decoded, its weight is estimated, and it is run unless
/// the estimate is above the critical weight.
pub fn dispatch_decoded<X, E: Fn(&X) -> Weight, R: FnOnce(X) -> Result<Weight, Weight>>(
    decoded: Result<X, DecodeError>,
    critical_weight: Weight,
    estimate: E,
    run: R,
) -> (outcome: DispatchOutcome)
    requires
        forall|x: &X| call_requires(estimate, (x,)),
        forall|x: X| call_requires(run, (x,)),
    ensures
        match decoded {
            Err(error) => outcome == DispatchOutcome::Undecodable(error),
            Ok(xcm) => match outcome {
                DispatchOutcome::Undecodable(_) => false,
                DispatchOutcome::TooHeavy(w) => w > critical_weight && call_ensures(
                    estimate,
                    (&xcm,),
                    w,
                ),
                DispatchOutcome::Executed(r) => call_ensures(run, (xcm,), r) && exists|w: Weight|
                    w <= critical_weight && #[trigger] call_ensures(estimate, (&xcm,), w),
            },
        },
{
    match decoded {
        Ok(xcm) => {
            let weight = estimate(&xcm);
            if may_execute(weight, critical_weight) {
                DispatchOutcome::Executed(run(xcm))
            } else {
                DispatchOutcome::TooHeavy(weight)
            }
        },
        Err(error) => DispatchOutcome::Undecodable(error),
    }
}

/// Handles one message and tells what became of it.
pub fn dispatch(message: &[u8], critical_weight: Weight) -> (outcome: DispatchOutcome)
    ensures
        outcome == outcome_of(message@, critical_weight),
{
    dispatch_decoded(Xcm::decode(message), critical_weight, estimate_weight, execute)
}

} // verus!
