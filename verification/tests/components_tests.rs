use phys_rs::components::{BodyType, EntityName, IntegrationMethod, OrbitTrail};

#[test]
fn orbit_trail_point_counts() {
    assert_eq!(OrbitTrail::default().orbit_point_count, 128);
    assert_eq!(OrbitTrail::new(32).orbit_point_count, 32);
}

#[test]
fn identifiers() {
    let n = EntityName("Sol".to_string());
    assert_eq!(n.0, "Sol");
    assert_eq!(n.clone(), n);
    assert_ne!(n, EntityName("Luna".to_string()));
    assert_eq!(BodyType::default(), BodyType::Planet);
    assert_ne!(IntegrationMethod::VelocityVerlet, IntegrationMethod::RungeKutta4);
}
