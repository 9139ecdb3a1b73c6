use ferromagnetic::igrf::harmonics::{harmonic_terms, HarmonicTerm, Recurrence};

const TABLE_LEN: usize = 105;

/// Evaluates the field components (north, east, down) for two coefficient
/// vectors at one position, following the schedule of the library.
fn synthesize(
    flat: f64,
    flon: f64,
    elev: f64,
    nmax: usize,
    gha: &[f64],
    ghb: &[f64],
) -> ([f64; 3], [f64; 3]) {
    let earths_radius: f64 = 6371.2;
    let dtr: f64 = 0.01745329;
    let a2: f64 = 40680631.59;
    let b2: f64 = 40408299.98;

    let mut slat: f64 = (flat * dtr).sin();
    let mut clat = {
        let aa = if (90.0 - flat) < 0.001 {
            89.999
        } else if (90.0 + flat) < 0.001 {
            -89.999
        } else {
            flat
        };
        (aa * dtr).cos()
    };

    let mut sl = [0.0f64; 14];
    let mut cl = [0.0f64; 14];
    sl[1] = (flon * dtr).sin();
    cl[1] = (flon * dtr).cos();

    let aa = a2 * clat * clat;
    let bb = b2 * slat * slat;
    let cc = aa + bb;
    let dd = cc.sqrt();
    let r = (elev * (elev + 2.0 * dd) + (a2 * aa + b2 * bb) / cc).sqrt();
    let cd = (elev + dd) / r;
    let sd = (a2 - b2) / dd * slat * clat / r;
    {
        let old_slat = slat;
        slat = slat * cd - clat * sd;
        clat = clat * cd + old_slat * sd;
    }
    let ratio: f64 = earths_radius / r;

    let mut p = [0.0f64; TABLE_LEN];
    p[1] = 2.0 * slat;
    p[2] = 2.0 * clat;
    p[3] = 4.5 * slat * slat - 1.5;
    p[4] = 3.0 * 3.0f64.sqrt() * clat * slat;
    let mut q = [0.0f64; TABLE_LEN];
    q[1] = -clat;
    q[2] = slat;
    q[3] = -3.0 * clat * slat;
    q[4] = 3.0f64.sqrt() * (slat * slat - clat * clat);

    let mut out = [[0.0f64; 3]; 2];
    let mut rr: f64 = 0.0;
    let mut fnn: f64 = 0.0;
    for term in harmonic_terms(nmax) {
        let HarmonicTerm { position: k, degree: n, order: m, coeff: l, recurrence } = term;
        if m == 0 {
            rr = ratio.powf((n + 2) as f64);
            fnn = n as f64;
        }
        let fm = m as f64;
        match recurrence {
            Recurrence::Seed => {}
            Recurrence::Sectoral { diagonal: j } => {
                let aa = (1.0 - 0.5 / fm).sqrt();
                p[k] = (1.0 + 1.0 / fm) * aa * clat * p[j];
                q[k] = aa * (clat * q[j] + slat / fm * p[j]);
                sl[m] = sl[m - 1] * cl[1] + cl[m - 1] * sl[1];
                cl[m] = cl[m - 1] * cl[1] - sl[m - 1] * sl[1];
            }
            Recurrence::General { above: ii, above2: j } => {
                let aa = (fnn * fnn - fm * fm).sqrt();
                let bb = ((fnn - 1.0) * (fnn - 1.0) - (fm * fm)).sqrt() / aa;
                let cc = (2.0 * fnn - 1.0) / aa;
                p[k] = (fnn + 1.0) * (cc * slat / fnn * p[ii] - bb / (fnn - 1.0) * p[j]);
                q[k] = cc * (slat * q[ii] - clat / fnn * p[ii]) - bb * q[j];
            }
        }
        for (gh, pp) in [gha, ghb].iter().zip(out.iter_mut()) {
            if m == 0 {
                pp[0] += (rr * gh[l]) * q[k];
                pp[2] -= (rr * gh[l]) * p[k];
            } else {
                let b = rr * gh[l + 1];
                let c = (rr * gh[l]) * cl[m] + b * sl[m];
                pp[0] += c * q[k];
                pp[2] -= c * p[k];
                pp[1] += if clat > 0.0 {
                    ((rr * gh[l]) * sl[m] - b * cl[m]) * fm * p[k] / ((fnn + 1.0) * clat)
                } else {
                    ((rr * gh[l]) * sl[m] - b * cl[m]) * q[k] * slat
                };
            }
        }
    }
    for pp in out.iter_mut() {
        let old_x = pp[0];
        pp[0] = pp[0] * cd + pp[2] * sd;
        pp[2] = pp[2] * cd - old_x * sd;
    }
    (out[0], out[1])
}

fn assert_rel(actual: f64, expected: f64, tol: f64) {
    let scale = actual.abs().max(expected.abs());
    assert!(
        (actual - expected).abs() <= tol * scale,
        "actual={} expected={}",
        actual,
        expected
    );
}

#[test]
fn test_shval3() {
    let start_coeffs: [f64; 195] = [
        -31535.104326396497, -2298., 5920.7007119386635, -682.0972070098576,
        2907.2987404162104, -1063.498630887185, 935.6935925520263, 1115.4030668127054,
        1023.499178532311, -1471.498630887185, -332.6985213581599, 1254.3009309967142,
        6.09830230010953, 578.2965498357065, 518.7023548740416, 876.3997809419496,
        629.499178532311, 195.79956188389923, 659.3003833515882, -69.79956188389923,
        -362.89895947426066, -209.10049288061336, 135.19934282584884, -74.00054764512596,
        -184.79956188389923, 328., -208.30093099671413, 263.500273822563,
        53.29983570646221, 4.400328587075575, -32.900054764512596, -86.69961664841183,
        -124.09994523548741, -16.99945235487404, 3.7995618838992335, 62.900054764512596,
        60.900054764512596, -8.800109529025193, -11., 83.29983570646222,
        -217.39978094194961, 2.1998904709748084, -57.900054764512596, -34.70016429353779,
        58.80010952902519, 35.600219058050385, -90.19989047097481, -68.80010952902519,
        70., -54.900054764512596, -45.099945235487404, 0.,
        -13.099945235487404, 33.900054764512596, -10.099945235487404, -41.,
        -0.9000547645125958, -20.900054764512596, 28., 18.,
        -12., 6., -22., 11.,
        8., 8., -4., -14.099945235487404,
        -9., 7., 1., -13.,
        2., 5., -8.900054764512596, 16.,
        5., -5., 8., -18.,
        8., 10., -20., 1.,
        14., -11., 5., 12.,
        -3., 1., -2., -2.,
        8., 2., 10., -0.9000547645125958,
        -2., -1., 2., -3.,
        -4., 2., 2., 1.,
        -5., 2., -2., 6.,
        6., -4., 4., 0.,
        0., -2., 2., 4.,
        2., 0., 0., -6.,
        0., 0., 0., 0.,
        0., 0., 0., 0.,
        0., 0., 0., 0.,
        0., 0., 0., 0.,
        0., 0., 0., 0.,
        0., 0., 0., 0.,
        0., 0., 0., 0.,
        0., 0., 0., 0.,
        0., 0., 0., 0.,
        0., 0., 0., 0.,
        0., 0., 0., 0.,
        0., 0., 0., 0.,
        0., 0., 0., 0.,
        0., 0., 0., 0.,
        0., 0., 0., 0.,
        0., 0., 0., 0.,
        0., 0., 0., 0.,
        0., 0., 0., 0.,
        0., 0., 0.,
    ];

    let end_coeffs: [f64; 195] = [
        -31519.312979189486, -2298., 5918.1021358159915, -692.2916210295729,
        2911.896221248631, -1068.4958926615552, 959.0807776560789, 1104.209200438116,
        1026.4975355969332, -1476.4958926615552, -338.09556407447974, 1250.9027929901424,
        12.294906900328586, 590.8896495071194, 510.1070646221249, 877.1993428258488,
        632.4975355969332, 197.3986856516977, 657.9011500547645, -71.3986856516977,
        -366.69687842278205, -207.30147864184008, 137.59802847754656, -72.00164293537787,
        -186.3986856516977, 328., -204.9027929901424, 262.5008214676889,
        53.89950711938664, 3.2009857612267254, -32.70016429353779, -88.09884994523549,
        -124.29983570646222, -18.998357064622123, 5.3986856516977, 62.70016429353779,
        60.70016429353779, -8.400328587075576, -11., 83.89950711938664,
        -218.19934282584884, 2.599671412924425, -57.70016429353779, -34.10049288061336,
        58.40032858707558, 34.80065717415115, -90.59967141292442, -68.40032858707558,
        70., -54.70016429353779, -45.29983570646221, 0.,
        -13.299835706462213, 33.70016429353779, -10.299835706462213, -41.,
        -0.7001642935377875, -20.70016429353779, 28., 18.,
        -12., 6., -22., 11.,
        8., 8., -4., -14.299835706462213,
        -9., 7., 1., -13.,
        2., 5., -8.700164293537787, 16.,
        5., -5., 8., -18.,
        8., 10., -20., 1.,
        14., -11., 5., 12.,
        -3., 1., -2., -2.,
        8., 2., 10., -0.7001642935377875,
        -2., -1., 2., -3.,
        -4., 2., 2., 1.,
        -5., 2., -2., 6.,
        6., -4., 4., 0.,
        0., -2., 2., 4.,
        2., 0., 0., -6.,
        0., 0., 0., 0.,
        0., 0., 0., 0.,
        0., 0., 0., 0.,
        0., 0., 0., 0.,
        0., 0., 0., 0.,
        0., 0., 0., 0.,
        0., 0., 0., 0.,
        0., 0., 0., 0.,
        0., 0., 0., 0.,
        0., 0., 0., 0.,
        0., 0., 0., 0.,
        0., 0., 0., 0.,
        0., 0., 0., 0.,
        0., 0., 0., 0.,
        0., 0., 0., 0.,
        0., 0., 0., 0.,
        0., 0., 0., 0.,
        0., 0., 0., 0.,
        0., 0., 0.,
    ];
    let (a, b) = synthesize(59.9, -109.9, 1.1, 10, &start_coeffs, &end_coeffs);
    assert_rel(a[0], 7074.026894642207, 1e-12);
    assert_rel(a[1], 4596.188334222297, 1e-12);
    assert_rel(a[2], 62650.49087477549, 1e-12);
    assert_rel(b[0], 7080.6056093223815, 1e-12);
    assert_rel(b[1], 4593.347978266618, 1e-12);
    assert_rel(b[2], 62630.350967492595, 1e-12);
}

#[test]
fn both_vectors_share_the_geometry() {
    let coeffs: Vec<f64> = (0..195).map(|i| (i as f64) * 0.5 - 40.0).collect();
    let (a, b) = synthesize(-33.0, 151.0, 0.2, 13, &coeffs, &coeffs);
    assert_eq!(a, b);
}

#[test]
fn schedule_of_degree_two() {
    let terms = harmonic_terms(2);
    assert_eq!(
        terms,
        vec![
            HarmonicTerm { position: 1, degree: 1, order: 0, coeff: 0, recurrence: Recurrence::Seed },
            HarmonicTerm { position: 2, degree: 1, order: 1, coeff: 1, recurrence: Recurrence::Seed },
            HarmonicTerm { position: 3, degree: 2, order: 0, coeff: 3, recurrence: Recurrence::Seed },
            HarmonicTerm { position: 4, degree: 2, order: 1, coeff: 4, recurrence: Recurrence::Seed },
            HarmonicTerm {
                position: 5,
                degree: 2,
                order: 2,
                coeff: 6,
                recurrence: Recurrence::Sectoral { diagonal: 2 },
            },
        ]
    );
}

#[test]
fn schedule_of_degree_zero_is_empty() {
    assert!(harmonic_terms(0).is_empty());
}

#[test]
fn schedule_of_degree_three_uses_the_general_recurrence() {
    let terms = harmonic_terms(3);
    assert_eq!(terms.len(), 9);
    // (3, 0) from (2, 0) and (1, 0)
    assert_eq!(
        terms[5],
        HarmonicTerm {
            position: 6,
            degree: 3,
            order: 0,
            coeff: 8,
            recurrence: Recurrence::General { above: 3, above2: 1 },
        }
    );
    // (3, 2) from (2, 2); two rows above there is no term of order 2
    assert_eq!(
        terms[7],
        HarmonicTerm {
            position: 8,
            degree: 3,
            order: 2,
            coeff: 11,
            recurrence: Recurrence::General { above: 5, above2: 3 },
        }
    );
    // (3, 3) from (2, 2)
    assert_eq!(
        terms[8],
        HarmonicTerm {
            position: 9,
            degree: 3,
            order: 3,
            coeff: 13,
            recurrence: Recurrence::Sectoral { diagonal: 5 },
        }
    );
}

#[test]
fn schedule_counts_follow_the_degree() {
    for nmax in 0..=13usize {
        let terms = harmonic_terms(nmax);
        assert_eq!(terms.len(), nmax * (nmax + 3) / 2);
        if let Some(last) = terms.last() {
            assert_eq!(last.position, terms.len());
            assert_eq!(last.coeff + 2, nmax * (nmax + 2));
            assert_eq!((last.degree, last.order), (nmax, nmax));
        }
    }
    assert_eq!(harmonic_terms(13).len(), 104);
    assert_eq!(harmonic_terms(10).len(), 65);
}

#[test]
fn schedule_reads_every_coefficient_once_and_only_earlier_terms() {
    let nmax = 13usize;
    let terms = harmonic_terms(nmax);
    let mut next_coeff = 0usize;
    for (i, term) in terms.iter().enumerate() {
        assert_eq!(term.position, i + 1);
        assert_eq!(term.position, term.degree * (term.degree + 1) / 2 + term.order);
        assert!(term.order <= term.degree && term.degree <= nmax);
        assert_eq!(term.coeff, next_coeff);
        next_coeff += if term.order == 0 { 1 } else { 2 };
        match term.recurrence {
            Recurrence::Seed => assert!(term.position < 5),
            Recurrence::Sectoral { diagonal } => {
                assert_eq!(term.order, term.degree);
                let from = &terms[diagonal - 1];
                assert_eq!((from.degree, from.order), (term.degree - 1, term.order - 1));
            }
            Recurrence::General { above, above2 } => {
                assert!(term.order < term.degree);
                assert!(above2 < above && above < term.position);
                let from = &terms[above - 1];
                assert_eq!((from.degree, from.order), (term.degree - 1, term.order));
                if term.order + 2 <= term.degree {
                    let from2 = &terms[above2 - 1];
                    assert_eq!((from2.degree, from2.order), (term.degree - 2, term.order));
                }
            }
        }
    }
    assert_eq!(next_coeff, nmax * (nmax + 2));
}
