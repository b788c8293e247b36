use radiosim::arrayimage::{starfield, ArrayImage, ImageError};
use radiosim::fixed::{div_trunc, isqrt, FX};
use radiosim::meshgrid::meshgrid;

#[test]
fn meshgrid_pairs() {
    let a: Vec<i64> = vec![1, 2];
    let b: Vec<i64> = vec![10, 20, 30];
    let (m1, m2) = meshgrid(&a, &b);
    assert_eq!(m1.len(), 2);
    assert_eq!(m2.len(), 2);
    for i in 0..2 {
        assert_eq!(m1[i].len(), 3);
        assert_eq!(m2[i].len(), 3);
        for j in 0..3 {
            assert_eq!(m1[i][j], a[i]);
            assert_eq!(m2[i][j], b[j]);
        }
    }
}

#[test]
fn meshgrid_empty_side() {
    let a: Vec<i64> = vec![];
    let b: Vec<i64> = vec![7];
    let (m1, m2) = meshgrid(&a, &b);
    assert!(m1.is_empty());
    assert!(m2.is_empty());
}

#[test]
fn div_trunc_rounds_toward_zero() {
    assert_eq!(div_trunc(7, 2), 3);
    assert_eq!(div_trunc(-7, 2), -3);
    assert_eq!(div_trunc(4096, 4096), 1);
    assert_eq!(div_trunc(-1, 4096), 0);
}

#[test]
fn isqrt_exact_floors() {
    assert_eq!(isqrt(0), 0);
    assert_eq!(isqrt(15), 3);
    assert_eq!(isqrt(16), 4);
    assert_eq!(isqrt(17), 4);
    assert_eq!(isqrt((1u128 << 62) * (1u128 << 62)), 1u64 << 62);
}

#[test]
fn from_vector_accepts_perfect_square() {
    let v: Vec<i64> = (0..9).collect();
    let img = ArrayImage::from_vector(&v).unwrap();
    assert_eq!(img.side, 3);
    assert_eq!(img.pixels, v);
}

#[test]
fn from_vector_rejects_other_lengths() {
    let v: Vec<i64> = (0..8).collect();
    assert_eq!(ArrayImage::from_vector(&v), Err(ImageError::NotPerfectSquare));
}

#[test]
fn round_trip_vector() {
    let v: Vec<i64> = vec![5, -3, 0, 12, 44, -1, 7, 7, 9];
    let img = ArrayImage::from_vector(&v).unwrap();
    assert_eq!(img.to_vector(), v);
}

#[test]
fn normalize_exact_values() {
    let v: Vec<i64> = vec![1024, 2048, 3072, 4096];
    let img = ArrayImage::from_vector(&v).unwrap();
    let norm = img.normalize().unwrap();
    assert_eq!(norm.to_vector(), vec![0, 1024, 2048, 3072]);
}

#[test]
fn normalize_empty_is_error() {
    let v: Vec<i64> = vec![];
    let img = ArrayImage::from_vector(&v).unwrap();
    assert_eq!(img.normalize().unwrap_err(), ImageError::Empty);
}

#[test]
fn normalize_nonpositive_max_is_error() {
    let v: Vec<i64> = vec![-4096, -8192, -1, -4096];
    let img = ArrayImage::from_vector(&v).unwrap();
    assert_eq!(img.normalize().unwrap_err(), ImageError::NonPositiveMax);
}

#[test]
fn gray_bytes_exact_values() {
    let v: Vec<i64> = vec![0, 1024, 2048, 4096];
    let img = ArrayImage::from_vector(&v).unwrap();
    let bytes = img.to_gray_bytes().unwrap();
    assert_eq!(bytes, vec![0u8, 63, 127, 255]);
}

#[test]
fn starfield_shape_and_values() {
    let img = starfield(3, 4);
    assert_eq!(img.side, 4);
    assert_eq!(img.pixels.len(), 16);
    let mut lit: usize = 0;
    for &p in img.pixels.iter() {
        assert!(p == 0 || p == FX);
        if p == FX {
            lit += 1;
        }
    }
    assert!(lit >= 1 && lit <= 3);
}
