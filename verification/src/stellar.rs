//! Stellar evolution: collapse of late-stage stars past the Chandrasekhar
//! limit into neutron stars or black holes.
use vstd::prelude::*;
use crate::components::BodyType;

verus! {

/// The evolutionary state of a star.
#[derive(Clone, Copy, PartialEq, Eq, Structural, Debug, Hash)]
pub enum StellarState {
    /// Hydrogen-burning core.
    MainSequence,
    /// Hydrogen shell burning or helium core burning.
    RedGiant,
    /// Degenerate electron core remnant.
    WhiteDwarf,
    /// Degenerate neutron core remnant.
    NeutronStar,
    /// Singularity behind an event horizon.
    BlackHole,
}

/// Where a star's mass lies relative to the collapse thresholds: the
/// Chandrasekhar limit and three solar masses.
#[derive(Clone, Copy, PartialEq, Eq, Structural, Debug)]
pub enum CoreMassClass {
    /// At most the Chandrasekhar limit: no collapse.
    BelowChandrasekhar,
    /// Above the Chandrasekhar limit, below three solar masses.
    NeutronStarRange,
    /// Above the Chandrasekhar limit, at least three solar masses.
    BlackHoleRange,
}

/// Result of evaluating the lifecycle of one star.
#[derive(Clone, Copy, PartialEq, Eq, Structural, Debug)]
pub struct LifecycleOutcome {
    /// The star's state afterwards.
    pub state: StellarState,
    /// The body classification afterwards.
    pub body_type: BodyType,
    /// The remnant type when a supernova happened.
    pub supernova: Option<StellarState>,
}

/// Only red giants and white dwarfs can collapse.
pub open spec fn can_collapse(state: StellarState) -> bool {
    state == StellarState::RedGiant || state == StellarState::WhiteDwarf
}

/// The lifecycle rule: a red giant or white dwarf above the Chandrasekhar
/// limit collapses into a neutron star (below three solar masses) or a black
/// hole, its body type follows, and a supernova is reported.  Everything else
/// is left as it is.
pub open spec fn lifecycle(state: StellarState, body_type: BodyType, mass: CoreMassClass) -> LifecycleOutcome {
    if can_collapse(state) && mass != CoreMassClass::BelowChandrasekhar {
        if mass == CoreMassClass::NeutronStarRange {
            LifecycleOutcome {
                state: StellarState::NeutronStar,
                body_type: BodyType::NeutronStar,
                supernova: Some(StellarState::NeutronStar),
            }
        } else {
            LifecycleOutcome {
                state: StellarState::BlackHole,
                body_type: BodyType::BlackHole,
                supernova: Some(StellarState::BlackHole),
            }
        }
    } else {
        LifecycleOutcome { state, body_type, supernova: None }
    }
}

/// Evaluates the lifecycle of one star (see [`lifecycle`]).
pub fn stellar_lifecycle_step(
    state: StellarState,
    body_type: BodyType,
    mass: CoreMassClass,
) -> (out: LifecycleOutcome)
    ensures
        out == lifecycle(state, body_type, mass),
        can_collapse(state) && mass == CoreMassClass::NeutronStarRange ==> out == (LifecycleOutcome {
            state: StellarState::NeutronStar,
            body_type: BodyType::NeutronStar,
            supernova: Some(StellarState::NeutronStar),
        }),
        can_collapse(state) && mass == CoreMassClass::BlackHoleRange ==> out == (LifecycleOutcome {
            state: StellarState::BlackHole,
            body_type: BodyType::BlackHole,
            supernova: Some(StellarState::BlackHole),
        }),
        mass == CoreMassClass::BelowChandrasekhar ==> out == (LifecycleOutcome {
            state,
            body_type,
            supernova: None,
        }),
{
    match state {
        StellarState::WhiteDwarf | StellarState::RedGiant => {
            match mass {
                CoreMassClass::BelowChandrasekhar => {
                    LifecycleOutcome { state, body_type, supernova: None }
                },
                CoreMassClass::NeutronStarRange => LifecycleOutcome {
                    state: StellarState::NeutronStar,
                    body_type: BodyType::NeutronStar,
                    supernova: Some(StellarState::NeutronStar),
                },
                CoreMassClass::BlackHoleRange => LifecycleOutcome {
                    state: StellarState::BlackHole,
                    body_type: BodyType::BlackHole,
                    supernova: Some(StellarState::BlackHole),
                },
            }
        },
        _ => LifecycleOutcome { state, body_type, supernova: None },
    }
}

/// A collapse is final: once a star has collapsed, evaluating its lifecycle
/// again, whatever its mass, changes nothing and reports no supernova.
pub proof fn lemma_collapse_is_final(
    state: StellarState,
    body_type: BodyType,
    mass: CoreMassClass,
    later_mass: CoreMassClass,
)
    requires
        lifecycle(state, body_type, mass).supernova is Some,
    ensures
        ({
            let first = lifecycle(state, body_type, mass);
            lifecycle(first.state, first.body_type, later_mass) == LifecycleOutcome {
                supernova: None,
                ..first
            }
        }),
{
}

/// A supernova leaves a neutron star or a black hole, the state names the
/// remnant, and the body type agrees with it.
pub proof fn lemma_supernova_remnant(state: StellarState, body_type: BodyType, mass: CoreMassClass)
    ensures
        ({
            let out = lifecycle(state, body_type, mass);
            out.supernova is Some ==> {
                &&& can_collapse(state)
                &&& out.supernova == Some(out.state)
                &&& (out.state == StellarState::NeutronStar <==> out.body_type
                    == BodyType::NeutronStar)
                &&& (out.state == StellarState::BlackHole <==> out.body_type
                    == BodyType::BlackHole)
                &&& (out.state == StellarState::NeutronStar || out.state
                    == StellarState::BlackHole)
            }
        }),
{
}

/// Main-sequence stars and remnants never change state.
pub proof fn lemma_only_late_stages_change(state: StellarState, body_type: BodyType, mass: CoreMassClass)
    requires
        !can_collapse(state),
    ensures
        lifecycle(state, body_type, mass) == (LifecycleOutcome { state, body_type, supernova: None }),
{
}

/// Above the Chandrasekhar limit, red giants and white dwarfs alike collapse
/// to the remnant their mass class names: below three solar masses a neutron
/// star, from three solar masses on a black hole, with a supernova naming it;
/// at or below the limit nothing changes.
pub proof fn lemma_remnant_by_mass_class(state: StellarState, body_type: BodyType, mass: CoreMassClass)
    requires
        state == StellarState::RedGiant || state == StellarState::WhiteDwarf,
    ensures
        mass == CoreMassClass::NeutronStarRange ==> lifecycle(state, body_type, mass) == (
        LifecycleOutcome {
            state: StellarState::NeutronStar,
            body_type: BodyType::NeutronStar,
            supernova: Some(StellarState::NeutronStar),
        }),
        mass == CoreMassClass::BlackHoleRange ==> lifecycle(state, body_type, mass) == (
        LifecycleOutcome {
            state: StellarState::BlackHole,
            body_type: BodyType::BlackHole,
            supernova: Some(StellarState::BlackHole),
        }),
        mass == CoreMassClass::BelowChandrasekhar ==> lifecycle(state, body_type, mass) == (
        LifecycleOutcome { state, body_type, supernova: None }),
{
}

/// The outcome of a collapse does not depend on whether the star was a red
/// giant or a white dwarf, nor on its body type before.
pub proof fn lemma_remnant_ignores_stage(
    body_type: BodyType,
    other_body_type: BodyType,
    mass: CoreMassClass,
)
    requires
        mass != CoreMassClass::BelowChandrasekhar,
    ensures
        lifecycle(StellarState::RedGiant, body_type, mass) == lifecycle(
            StellarState::WhiteDwarf,
            other_body_type,
            mass,
        ),
{
}

} // verus!
