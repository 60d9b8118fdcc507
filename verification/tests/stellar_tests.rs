use phys_rs::components::BodyType;
use phys_rs::stellar::{stellar_lifecycle_step, CoreMassClass, StellarState};

const CHANDRASEKHAR_LIMIT: f64 = 2.765e30_f64;
const SOLAR_MASS: f64 = 1.989e30_f64;

fn classify(mass: f64) -> CoreMassClass {
    if mass > CHANDRASEKHAR_LIMIT {
        if mass < 3.0 * SOLAR_MASS {
            CoreMassClass::NeutronStarRange
        } else {
            CoreMassClass::BlackHoleRange
        }
    } else {
        CoreMassClass::BelowChandrasekhar
    }
}

#[test]
fn test_chandrasekhar_collapse() {
    let out = stellar_lifecycle_step(StellarState::WhiteDwarf, BodyType::WhiteDwarf, classify(3.0e30));
    let events: Vec<StellarState> = out.supernova.into_iter().collect();
    assert_eq!(events.len(), 1);
    assert_eq!(events[0], StellarState::NeutronStar);
    assert_eq!(out.state, StellarState::NeutronStar);
    assert_eq!(out.body_type, BodyType::NeutronStar);
}

#[test]
fn heavy_red_giant_becomes_black_hole() {
    let out = stellar_lifecycle_step(StellarState::RedGiant, BodyType::Star, classify(1.0e31));
    assert_eq!(out.state, StellarState::BlackHole);
    assert_eq!(out.body_type, BodyType::BlackHole);
    assert_eq!(out.supernova, Some(StellarState::BlackHole));
}

#[test]
fn light_or_main_sequence_stars_are_unchanged() {
    let out = stellar_lifecycle_step(StellarState::WhiteDwarf, BodyType::WhiteDwarf, classify(1.0e30));
    assert_eq!(out.state, StellarState::WhiteDwarf);
    assert_eq!(out.supernova, None);
    let out = stellar_lifecycle_step(StellarState::MainSequence, BodyType::Star, CoreMassClass::BlackHoleRange);
    assert_eq!(out.state, StellarState::MainSequence);
    assert_eq!(out.body_type, BodyType::Star);
    assert_eq!(out.supernova, None);
}

#[test]
fn collapse_happens_once() {
    let first = stellar_lifecycle_step(StellarState::RedGiant, BodyType::Star, CoreMassClass::NeutronStarRange);
    let second = stellar_lifecycle_step(first.state, first.body_type, CoreMassClass::BlackHoleRange);
    assert_eq!(second.state, first.state);
    assert_eq!(second.body_type, first.body_type);
    assert_eq!(second.supernova, None);
    assert_eq!(BodyType::default(), BodyType::Planet);
}
