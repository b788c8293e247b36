use radiosim::antennaarray::AntennaArray;
use radiosim::beam::Beam;
use radiosim::complex::{dot_scaled, magnitude, Cx};
use radiosim::fixed::FX;
use radiosim::point::{negate_all, Pt};
use radiosim::signals::AntennaSignals;

fn array_of(positions: Vec<Pt>) -> AntennaArray {
    AntennaArray { positions, dish_size: FX }
}

#[test]
fn propagate_quarter_turn() {
    let mut arr = array_of(vec![Pt { x: 40960, y: 8192 }]);
    arr.propagate(0, FX);
    assert_eq!(arr.positions, vec![Pt { x: -8192, y: 40960 }]);
}

#[test]
fn propagate_full_turn_is_identity() {
    let mut arr = array_of(vec![Pt { x: 40960, y: 8192 }, Pt { x: -12288, y: 4096 }]);
    let before = arr.positions.clone();
    arr.propagate(FX, 0);
    assert_eq!(arr.positions, before);
}

#[test]
fn propagate_composes_to_angle_sum() {
    // Two quarter turns land exactly where one half turn does.
    let start = vec![Pt { x: 40960, y: 8192 }, Pt { x: -12288, y: 4096 }];
    let mut twice = array_of(start.clone());
    twice.propagate(0, FX);
    twice.propagate(0, FX);
    let mut once = array_of(start);
    once.propagate(-FX, 0);
    assert_eq!(twice.positions, once.positions);
}

#[test]
fn propagate_preserves_distances() {
    let mut arr = array_of(vec![Pt { x: 40960, y: 0 }, Pt { x: 0, y: -8192 }]);
    arr.propagate(0, FX);
    let p0 = arr.positions[0];
    let p1 = arr.positions[1];
    assert_eq!(p0.x * p0.x + p0.y * p0.y, 40960i64 * 40960);
    assert_eq!(p1.x * p1.x + p1.y * p1.y, 8192i64 * 8192);
    let (dx, dy) = (p0.x - p1.x, p0.y - p1.y);
    assert_eq!(dx * dx + dy * dy, 40960i64 * 40960 + 8192i64 * 8192);
}

#[test]
fn as_uv_divides_by_wavelength() {
    let arr = array_of(vec![Pt { x: 8192, y: 4096 }]);
    let uv = arr.as_uv(8192);
    assert_eq!(uv, vec![Pt { x: 4096, y: 2048 }]);
}

#[test]
fn negate_all_flips_signs() {
    let v = vec![Pt { x: 5, y: -7 }, Pt { x: 0, y: 3 }];
    assert_eq!(negate_all(&v), vec![Pt { x: -5, y: 7 }, Pt { x: 0, y: -3 }]);
}

#[test]
fn baselines_antisymmetric_and_zero_diagonal() {
    let arr = array_of(vec![Pt { x: 8192, y: 4096 }, Pt { x: 4096, y: 12288 }]);
    let bl = arr.baselines(FX);
    assert_eq!(bl.len(), 4);
    assert_eq!(bl[0], Pt { x: 0, y: 0 });
    assert_eq!(bl[3], Pt { x: 0, y: 0 });
    assert_eq!(bl[1], Pt { x: 4096, y: -8192 });
    assert_eq!(bl[2], Pt { x: -4096, y: 8192 });
    assert_eq!(bl[1].x, -bl[2].x);
    assert_eq!(bl[1].y, -bl[2].y);
}

#[test]
fn random_array_within_bounds() {
    let arr = AntennaArray::random(25, 41, 7);
    assert_eq!(arr.positions.len(), 25);
    assert_eq!(arr.dish_size, 7);
    for p in arr.positions.iter() {
        assert!(p.x >= -20 && p.x < 21);
        assert!(p.y >= -20 && p.y < 21);
    }
}

#[test]
fn beam_grid_row_major() {
    let beam = Beam::from_beamwidth(FX, 2);
    assert_eq!(
        beam.samples,
        vec![
            Pt { x: -4096, y: -4096 },
            Pt { x: -4096, y: 0 },
            Pt { x: 0, y: -4096 },
            Pt { x: 0, y: 0 },
        ]
    );
}

#[test]
fn phases_exact_kernel_values() {
    let beam = Beam::from_beamwidth(FX, 2);
    let uv = vec![Pt { x: 4096, y: 0 }];
    let ph = beam.phases(&uv);
    assert_eq!(ph.len(), 1);
    assert_eq!(ph[0], vec![-33554432, -33554432, 0, 0]);
}

#[test]
fn xcorr_hermitian_and_real_diagonal() {
    let s = AntennaSignals { signals: vec![Cx { re: FX, im: 0 }, Cx { re: 0, im: FX }] };
    let x = s.xcorr();
    assert_eq!(x.len(), 4);
    // diagonal: real, non-negative, the squared magnitudes
    assert_eq!(x[0], Cx { re: FX, im: 0 });
    assert_eq!(x[3], Cx { re: FX, im: 0 });
    // off-diagonal pair: complex conjugates
    assert_eq!(x[1], Cx { re: 0, im: -FX });
    assert_eq!(x[2], Cx { re: 0, im: FX });
    assert_eq!(x[1].re, x[2].re);
    assert_eq!(x[1].im, -x[2].im);
}

#[test]
fn dot_scaled_exact_value() {
    let a = vec![Cx { re: FX, im: 0 }, Cx { re: 0, im: FX }];
    let b = vec![Cx { re: 2048, im: 0 }, Cx { re: 0, im: 1024 }];
    // (1)(0.5) + (i)(0.25i) = 0.5 - 0.25
    assert_eq!(dot_scaled(&a, &b), Cx { re: 1024, im: 0 });
}

#[test]
fn magnitude_exact_value() {
    assert_eq!(magnitude(Cx { re: 3, im: 4 }), 5);
    assert_eq!(magnitude(Cx { re: -30000, im: 40000 }), 50000);
    assert_eq!(magnitude(Cx { re: 0, im: 0 }), 0);
}
