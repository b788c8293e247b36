use radiosim::antennaarray::AntennaArray;
use radiosim::beam::Beam;
use radiosim::complex::Cx;
use radiosim::fixed::FX;
use radiosim::pipeline::{synthesize_image, synthesize_signals, Observation, PipelineError};
use radiosim::point::{negate_all, Pt};

/// Turns raw kernel phases (scale FX*FX) into unit complex values.
fn to_unit(phases: &Vec<Vec<i64>>) -> Vec<Vec<Cx>> {
    let scale = (FX as f64) * (FX as f64);
    phases
        .iter()
        .map(|row| {
            row.iter()
                .map(|&raw| {
                    let angle = raw as f64 / scale;
                    Cx {
                        re: (angle.cos() * FX as f64).round() as i64,
                        im: (angle.sin() * FX as f64).round() as i64,
                    }
                })
                .collect()
        })
        .collect()
}

/// Fixed-point cosine and sine of the rotation angle for a number of
/// hours of earth rotation.
fn turn_coeff(hours: f64) -> (i64, i64) {
    let angle = hours / 24.0 * 2.0 * std::f64::consts::PI;
    (
        (angle.cos() * FX as f64).round() as i64,
        (angle.sin() * FX as f64).round() as i64,
    )
}

#[test]
fn record_refuses_mismatched_batches() {
    let mut obs = Observation::new();
    let bl = vec![Pt { x: 0, y: 0 }];
    let vis: Vec<Cx> = vec![];
    assert_eq!(obs.record(bl, vis), Err(PipelineError::ShapeMismatch));
    assert_eq!(obs.baselines.len(), 0);
    let ok = obs.record(vec![Pt { x: 1, y: 2 }], vec![Cx { re: 3, im: 4 }]);
    assert_eq!(ok, Ok(()));
    assert_eq!(obs.baselines.len(), 1);
    assert_eq!(obs.visibilities.len(), 1);
}

#[test]
fn single_antenna_scenario() {
    let wavelength: i64 = 860;
    let mut arr = AntennaArray { positions: vec![Pt { x: 40960, y: 0 }], dish_size: FX };
    let beam = Beam::from_beamwidth(4096, 2);
    let mut sky: Vec<Cx> = vec![Cx { re: 0, im: 0 }; beam.samples.len()];
    sky[0] = Cx { re: FX, im: 0 };
    let (c, s) = turn_coeff(1.0);
    let mut obs = Observation::new();
    for _ in 0..5 {
        arr.propagate(c, s);
        let uv = negate_all(&arr.as_uv(wavelength));
        let unit = to_unit(&beam.phases(&uv));
        let sig = synthesize_signals(&unit, &sky);
        let vis = sig.xcorr();
        let bl = arr.baselines(wavelength);
        // the one baseline is (0,0) at every time step
        assert_eq!(bl, vec![Pt { x: 0, y: 0 }]);
        // the one visibility is |signal|^2: real and non-negative
        let s0 = sig.signals[0];
        assert_eq!(vis.len(), 1);
        assert_eq!(vis[0].im, 0);
        assert!(vis[0].re >= 0);
        assert_eq!(vis[0].re, (s0.re * s0.re + s0.im * s0.im) / FX);
        obs.record(bl, vis).unwrap();
    }
    // with every baseline zero the synthesis kernel has phase zero
    // everywhere: the dirty image is flat, with no interference
    // structure
    let unit2 = to_unit(&beam.phases(&obs.baselines));
    let dirty = synthesize_image(&obs, &unit2, beam.samples.len());
    assert_eq!(dirty.len(), beam.samples.len());
    assert!(dirty[0] > 0);
    for &d in dirty.iter() {
        assert_eq!(d, dirty[0]);
    }
}

#[test]
fn two_antenna_point_source_peak() {
    let n: usize = 8;
    let wavelength: i64 = 4096;
    let beam = Beam::from_beamwidth(4096, n);
    let src_row: usize = 5;
    let src_col: usize = 3;
    let mut sky: Vec<Cx> = vec![Cx { re: 0, im: 0 }; n * n];
    sky[src_row * n + src_col] = Cx { re: FX, im: 0 };
    let mut arr = AntennaArray {
        positions: vec![Pt { x: 8192, y: 0 }, Pt { x: -4096, y: 4096 }],
        dish_size: 4096,
    };
    let (c, s) = turn_coeff(2.0);
    let mut obs = Observation::new();
    for _ in 0..12 {
        arr.propagate(c, s);
        let uv = negate_all(&arr.as_uv(wavelength));
        let unit = to_unit(&beam.phases(&uv));
        let sig = synthesize_signals(&unit, &sky);
        let vis = sig.xcorr();
        let bl = arr.baselines(wavelength);
        obs.record(bl, vis).unwrap();
    }
    let unit2 = to_unit(&beam.phases(&obs.baselines));
    let dirty = synthesize_image(&obs, &unit2, beam.samples.len());
    assert_eq!(dirty.len(), n * n);
    let mut best: usize = 0;
    for k in 0..dirty.len() {
        if dirty[k] > dirty[best] {
            best = k;
        }
    }
    let best_row = best / n;
    let best_col = best % n;
    assert!((best_row as i64 - src_row as i64).abs() <= 1, "peak row {} vs {}", best_row, src_row);
    assert!((best_col as i64 - src_col as i64).abs() <= 1, "peak col {} vs {}", best_col, src_col);
}
