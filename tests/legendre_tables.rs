use orbit_propagator::legendre::{norm_legendre, LegendreSeeds, Recurrence};
use std::f64::consts::PI;

fn tables(phi: f64, max_deg: usize, max_order: usize) -> (Vec<Vec<f64>>, Vec<Vec<f64>>) {
    let c = (PI / 2. - phi).cos();
    let s = (PI / 2. - phi).sin();
    let seeds = LegendreSeeds {
        zero: 0.,
        p00: 1.,
        p10: 3.0_f64.sqrt() * c,
        p11: 3.0_f64.sqrt() * s,
        scale10: 1.,
    };
    norm_legendre(seeds, max_deg, max_order, |kind, n, m, a, b| {
        let nf = n as f64;
        let mf = m as f64;
        match kind {
            Recurrence::Sectoral => ((2. * nf + 1.).sqrt() / (2. * nf).sqrt() * s * a, 0.),
            Recurrence::Zonal => (
                ((2. * nf + 1.).sqrt() / nf)
                    * ((2. * nf - 1.).sqrt() * c * a - (nf - 1.) / (2. * nf - 3.).sqrt() * b),
                ((nf + 1.) * nf / 2.).sqrt(),
            ),
            Recurrence::Tesseral => (
                (2. * nf + 1.).sqrt() / ((nf + mf).sqrt() * (nf - mf).sqrt())
                    * ((2. * nf - 1.).sqrt() * c * a
                        - (nf + mf - 1.).sqrt() * (nf - mf - 1.).sqrt() / (2. * nf - 3.).sqrt() * b),
                ((nf + mf + 1.) * (nf - mf)).sqrt(),
            ),
        }
    })
}

#[test]
fn p00_is_one_for_any_latitude() {
    for phi in [-1.5, -0.7, 0.0, 0.3, 1.2, PI / 2.] {
        let (p, _) = tables(phi, 4, 4);
        assert_eq!(p[0][0], 1.0);
    }
}

#[test]
fn tables_have_two_spare_rows_and_columns() {
    let (p, scale) = tables(0.4, 3, 5);
    assert_eq!(p.len(), 8);
    assert_eq!(scale.len(), 8);
    for row in p.iter().chain(scale.iter()) {
        assert_eq!(row.len(), 6);
    }
}

#[test]
fn degree_two_values_match_closed_forms() {
    let phi: f64 = 0.6;
    let sp = phi.sin();
    let cp = phi.cos();
    let (p, scale) = tables(phi, 2, 2);
    let p20 = 5.0_f64.sqrt() / 2. * (3. * sp * sp - 1.);
    let p21 = 15.0_f64.sqrt() * sp * cp;
    let p22 = 15.0_f64.sqrt() / 2. * cp * cp;
    assert!((p[2][0] - p20).abs() < 1e-12);
    assert!((p[2][1] - p21).abs() < 1e-12);
    assert!((p[2][2] - p22).abs() < 1e-12);
    assert!((scale[2][0] - 3.0_f64.sqrt()).abs() < 1e-12);
    assert!((scale[2][1] - 2.0).abs() < 1e-12);
    assert_eq!(scale[2][2], 0.);
    assert_eq!(scale[1][0], 1.);
}

#[test]
fn cells_above_diagonal_and_past_degree_stay_zero() {
    let (p, scale) = tables(0.25, 3, 3);
    assert_eq!(p[2][3], 0.);
    assert_eq!(scale[2][3], 0.);
    for n in 0..p.len() {
        assert_eq!(p[n][4], 0.);
        assert_eq!(p[n][5], 0.);
    }
    assert!(p[4][3].is_finite());
    assert!(p[5][3].is_finite());
}

#[test]
fn recurrence_schedule_visits_lower_triangle_row_by_row() {
    // each cell records how many cells were computed before it, plus one
    let seeds = LegendreSeeds { zero: 0u64, p00: 0, p10: 0, p11: 0, scale10: 0 };
    let counter = std::cell::Cell::new(0u64);
    let (p, scale) = norm_legendre(seeds, 2, 1, |kind, n, m, _a, _b| {
        counter.set(counter.get() + 1);
        let k = match kind {
            Recurrence::Sectoral => 1,
            Recurrence::Zonal => 2,
            Recurrence::Tesseral => 3,
        };
        (counter.get(), (n * 10 + m) as u64 * 10 + k)
    });
    // rows 2 and 3, columns 0..=2 on or below the diagonal
    assert_eq!(p[2][0..3], [1, 2, 3]);
    assert_eq!(p[3][0..3], [4, 5, 6]);
    assert_eq!(scale[2][0..3], [202, 213, 221]);
    assert_eq!(scale[3][0..3], [302, 313, 323]);
    assert_eq!(counter.get(), 6);
}
