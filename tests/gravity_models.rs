use orbit_propagator::gravity::{
    GravityError, GravityModel, JGrav, OtherGrav, SphHarmonicGrav, SphericalGrav, Term,
};

#[test]
fn order_at_most_one_selects_point_mass() {
    assert_eq!(GravityModel::select(0, 0), GravityModel::Spherical(SphericalGrav));
    assert_eq!(GravityModel::select(1, 0), GravityModel::Spherical(SphericalGrav));
    assert_eq!(GravityModel::select(1, 7), GravityModel::Spherical(SphericalGrav));
}

#[test]
fn zero_degree_selects_zonal_model() {
    assert_eq!(GravityModel::select(2, 0), GravityModel::J(JGrav));
    assert_eq!(GravityModel::select(6, 0), GravityModel::J(JGrav));
}

#[test]
fn positive_degree_selects_harmonics() {
    assert_eq!(GravityModel::select(2, 1), GravityModel::SphHarmonic(SphHarmonicGrav));
    assert_eq!(GravityModel::select(4, 4), GravityModel::SphHarmonic(SphHarmonicGrav));
}

#[test]
fn zonal_law_reduces_to_point_mass_below_order_two() {
    for order in 0..2 {
        let j = GravityModel::J(JGrav).terms(order);
        let pm = GravityModel::Spherical(SphericalGrav).terms(order);
        assert_eq!(j, pm);
        assert_eq!(j, Ok(vec![Term::CentralPointMass, Term::ThirdBodies]));
    }
}

#[test]
fn zonal_law_adds_j2_at_order_two() {
    assert_eq!(
        GravityModel::J(JGrav).terms(2),
        Ok(vec![Term::CentralPointMass, Term::ZonalJ2, Term::ThirdBodies])
    );
}

#[test]
fn zonal_orders_three_to_six_are_refused() {
    for order in 3..7 {
        assert_eq!(
            GravityModel::J(JGrav).terms(order),
            Err(GravityError::ZonalNotImplemented(order))
        );
    }
    assert_eq!(
        GravityModel::J(JGrav).terms(7),
        Ok(vec![Term::CentralPointMass, Term::ThirdBodies])
    );
}

#[test]
fn harmonic_and_third_body_laws() {
    assert_eq!(
        GravityModel::SphHarmonic(SphHarmonicGrav).terms(8),
        Ok(vec![Term::Harmonics, Term::ThirdBodies])
    );
    assert_eq!(
        GravityModel::OtherModel(OtherGrav).terms(8),
        Ok(vec![Term::CentralPointMass, Term::ThirdBodies])
    );
    assert!(GravityModel::SphHarmonic(SphHarmonicGrav).uses_harmonics());
    assert!(!GravityModel::J(JGrav).uses_harmonics());
}
