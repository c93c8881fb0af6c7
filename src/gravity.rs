use vstd::prelude::*;

verus! {

/// Force law: central point mass plus third-body attraction.
#[derive(Clone, Copy, Debug, PartialEq, Eq, Structural)]
pub struct SphericalGrav;

/// Force law: central point mass with the second zonal (oblateness) correction,
/// plus third-body attraction.
#[derive(Clone, Copy, Debug, PartialEq, Eq, Structural)]
pub struct JGrav;

/// Force law: full normalized spherical-harmonic expansion of the central body,
/// plus third-body attraction.
#[derive(Clone, Copy, Debug, PartialEq, Eq, Structural)]
pub struct SphHarmonicGrav;

/// Force law used for the massive perturbers themselves: central point mass plus
/// mutual third-body attraction, never harmonics.
#[derive(Clone, Copy, Debug, PartialEq, Eq, Structural)]
pub struct OtherGrav;

/// The closed set of force laws; chosen once per run.
#[derive(Clone, Copy, Debug, PartialEq, Eq, Structural)]
pub enum GravityModel {
    Spherical(SphericalGrav),
    J(JGrav),
    SphHarmonic(SphHarmonicGrav),
    OtherModel(OtherGrav),
}

/// One additive contribution to the acceleration of a state derivative.
/// A force law sums its terms in the order it lists them.
#[derive(Clone, Copy, Debug, PartialEq, Eq, Structural)]
pub enum Term {
    /// `-mu * x / |x|^3` of the central body.
    CentralPointMass,
    /// The second zonal (J2) oblateness correction.
    ZonalJ2,
    /// The spherical-harmonic expansion, evaluated in the rotating frame and
    /// rotated back; it contains the central point-mass term.
    Harmonics,
    /// `-mu_b * dx / |dx|^3` summed over the perturbers handed to the evaluation.
    ThirdBodies,
}

/// Why a force law cannot be evaluated.
#[derive(Clone, Copy, Debug, PartialEq, Eq, Structural)]
pub enum GravityError {
    /// The zonal model of this order (3 to 6) is declared but has no force law.
    ZonalNotImplemented(usize),
}

/// The model that a central body's declared order and degree select:
/// order at most 1 is a point mass, a higher order with degree 0 is the
/// zonal model, a higher order with a positive degree the full expansion.
pub open spec fn selected_model(max_order: nat, max_deg: nat) -> GravityModel {
    if max_order <= 1 {
        GravityModel::Spherical(SphericalGrav)
    } else if max_deg == 0 {
        GravityModel::J(JGrav)
    } else {
        GravityModel::SphHarmonic(SphHarmonicGrav)
    }
}

/// The terms that a force law adds up for a central body of the given order.
pub open spec fn force_terms(model: GravityModel, max_order: nat) -> Result<Seq<Term>, GravityError> {
    match model {
        GravityModel::Spherical(_) => Ok(seq![Term::CentralPointMass, Term::ThirdBodies]),
        GravityModel::OtherModel(_) => Ok(seq![Term::CentralPointMass, Term::ThirdBodies]),
        GravityModel::J(_) => {
            if max_order == 2 {
                Ok(seq![Term::CentralPointMass, Term::ZonalJ2, Term::ThirdBodies])
            } else if 3 <= max_order <= 6 {
                Err(GravityError::ZonalNotImplemented(max_order as usize))
            } else {
                Ok(seq![Term::CentralPointMass, Term::ThirdBodies])
            }
        },
        GravityModel::SphHarmonic(_) => Ok(seq![Term::Harmonics, Term::ThirdBodies]),
    }
}

impl GravityModel {
    /// Selects the force law from the central body's declared order and degree.
    pub fn select(max_order: usize, max_deg: usize) -> (r: GravityModel)
        ensures
            r == selected_model(max_order as nat, max_deg as nat),
    {
        if max_order <= 1 {
            GravityModel::Spherical(SphericalGrav)
        } else if max_deg == 0 {
            GravityModel::J(JGrav)
        } else {
            GravityModel::SphHarmonic(SphHarmonicGrav)
        }
    }

    /// The terms this force law sums, in order, or why it cannot be evaluated.
    pub fn terms(&self, max_order: usize) -> (r: Result<Vec<Term>, GravityError>)
        ensures
            match (r, force_terms(*self, max_order as nat)) {
                (Ok(v), Ok(t)) => v@ == t,
                (Err(e), Err(f)) => e == f,
                _ => false,
            },
    {
        match self {
            GravityModel::Spherical(_) | GravityModel::OtherModel(_) => {
                Ok(vec![Term::CentralPointMass, Term::ThirdBodies])
            },
            GravityModel::J(_) => {
                if max_order == 2 {
                    Ok(vec![Term::CentralPointMass, Term::ZonalJ2, Term::ThirdBodies])
                } else if 3 <= max_order && max_order <= 6 {
                    Err(GravityError::ZonalNotImplemented(max_order))
                } else {
                    Ok(vec![Term::CentralPointMass, Term::ThirdBodies])
                }
            },
            GravityModel::SphHarmonic(_) => Ok(vec![Term::Harmonics, Term::ThirdBodies]),
        }
    }

    /// Whether this law needs the central body's rotation and harmonic tables.
    pub fn uses_harmonics(&self) -> (r: bool)
        ensures
            r <==> *self == GravityModel::SphHarmonic(SphHarmonicGrav),
    {
        match self {
            GravityModel::SphHarmonic(_) => true,
            _ => false,
        }
    }
}

/// Below order 2 the zonal law and the point-mass law add up the same terms in
/// the same order, so they give identical derivatives for identical inputs;
/// and a central body of such an order selects the point-mass law.
pub proof fn point_mass_reduction(max_order: nat, max_deg: nat)
    requires
        max_order <= 1,
    ensures
        force_terms(GravityModel::J(JGrav), max_order)
            == force_terms(GravityModel::Spherical(SphericalGrav), max_order),
        selected_model(max_order, max_deg) == GravityModel::Spherical(SphericalGrav),
{
}

} // verus!
