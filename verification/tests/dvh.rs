use approx::{AbsDiffEq, UlpsEq};
use dvh::{DoseType, Dvh, Error, Reading, VolumeType};

fn bits(x: f64) -> u64 {
    x.to_bits()
}

fn all_bits(xs: &[f64]) -> Vec<u64> {
    xs.iter().map(|x| x.to_bits()).collect()
}

fn numbers(patterns: Vec<u64>) -> Vec<f64> {
    patterns.into_iter().map(f64::from_bits).collect()
}

fn linear_interpolation(x: f64, x0: f64, x1: f64, y0: f64, y1: f64) -> f64 {
    if x1 == x0 {
        return y0;
    }
    (x - x0) * (y1 - y0) / (x1 - x0) + y0
}

fn value(reading: Result<Reading, Error>) -> Result<f64, Error> {
    match reading? {
        Reading::Exact(y) => Ok(f64::from_bits(y)),
        Reading::Between(s) => Ok(linear_interpolation(
            f64::from_bits(s.x),
            f64::from_bits(s.x0),
            f64::from_bits(s.x1),
            f64::from_bits(s.y0),
            f64::from_bits(s.y1),
        )),
    }
}

fn ulps_eq(a: f64, b: f64) -> bool {
    UlpsEq::ulps_eq(&a, &b, f64::default_epsilon(), f64::default_max_ulps())
}

#[test]
fn dvh_test_dvh_new() {
    let dvh = Dvh::new(DoseType::Gy, VolumeType::Percent);
    assert!(dvh.is_empty());
    assert_eq!(dvh.len(), 0);
    assert!(dvh.is_sorted());
}

#[test]
fn dvh_test_dvh_new_cgy() {
    let dvh = Dvh::new(DoseType::CGy, VolumeType::Cc);
    assert!(dvh.is_empty());
    assert!(matches!(dvh.dose_type(), DoseType::CGy));
    assert!(matches!(dvh.volume_type(), VolumeType::Cc));
}

#[test]
fn dvh_test_dvh_len_and_is_empty() {
    let mut dvh = Dvh::new(DoseType::Gy, VolumeType::Percent);
    assert_eq!(dvh.len(), 0);
    assert!(dvh.is_empty());

    dvh.add(bits(1.0), bits(1.0));
    assert_eq!(dvh.len(), 1);
    assert!(!dvh.is_empty());

    dvh.add(bits(2.0), bits(0.9));
    assert_eq!(dvh.len(), 2);
    assert!(!dvh.is_empty());
}

#[test]
fn dvh_test_dvh_add_valid() {
    let mut dvh = Dvh::new(DoseType::Gy, VolumeType::Percent);
    assert!(dvh.add(bits(1.0), bits(1.0)));
    assert_eq!(dvh.len(), 1);
    assert!(!dvh.is_sorted());
}

#[test]
fn dvh_test_dvh_add_negative_dose() {
    let mut dvh = Dvh::new(DoseType::Gy, VolumeType::Percent);
    assert!(!dvh.add(bits(-1.0), bits(100.0)));
    assert_eq!(dvh.len(), 0);
}

#[test]
fn dvh_test_dvh_add_negative_volume() {
    let mut dvh = Dvh::new(DoseType::Gy, VolumeType::Percent);
    assert!(!dvh.add(bits(1.0), bits(-1.0)));
    assert_eq!(dvh.len(), 0);
}

#[test]
fn dvh_test_dvh_add_zero_values() {
    let mut dvh = Dvh::new(DoseType::Gy, VolumeType::Percent);
    assert!(dvh.add(bits(0.0), bits(0.0)));
    assert_eq!(dvh.len(), 1);
}

#[test]
fn dvh_test_dvh_add_slice_valid() {
    let mut dvh = Dvh::new(DoseType::Gy, VolumeType::Percent);
    let doses = vec![1.0, 2.0, 3.0];
    let volumes = vec![1.0, 0.9, 0.8];
    assert!(dvh.add_slice(&all_bits(&doses), &all_bits(&volumes)));
    assert_eq!(dvh.len(), 3);
    assert!(!dvh.is_sorted());
}

#[test]
fn dvh_test_dvh_add_slice_mismatched_length() {
    let mut dvh = Dvh::new(DoseType::Gy, VolumeType::Percent);
    let doses = vec![1.0, 2.0];
    let volumes = vec![100.0, 90.0, 80.0];
    assert!(!dvh.add_slice(&all_bits(&doses), &all_bits(&volumes)));
    assert_eq!(dvh.len(), 0);
}

#[test]
fn dvh_test_dvh_add_slice_negative_dose() {
    let mut dvh = Dvh::new(DoseType::Gy, VolumeType::Percent);
    let doses = vec![1.0, -2.0, 3.0];
    let volumes = vec![100.0, 90.0, 80.0];
    assert!(!dvh.add_slice(&all_bits(&doses), &all_bits(&volumes)));
    assert_eq!(dvh.len(), 0);
}

#[test]
fn dvh_test_dvh_add_slice_negative_volume() {
    let mut dvh = Dvh::new(DoseType::Gy, VolumeType::Percent);
    let doses = vec![1.0, 2.0, 3.0];
    let volumes = vec![1.0, -0.9, 0.8];
    assert!(!dvh.add_slice(&all_bits(&doses), &all_bits(&volumes)));
    assert_eq!(dvh.len(), 0);
}

#[test]
fn dvh_test_dvh_add_slice_empty() {
    let mut dvh = Dvh::new(DoseType::Gy, VolumeType::Percent);
    let doses: Vec<f64> = vec![];
    let volumes: Vec<f64> = vec![];
    assert!(dvh.add_slice(&all_bits(&doses), &all_bits(&volumes)));
    assert_eq!(dvh.len(), 0);
}

#[test]
fn dvh_test_dvh_sort() {
    let mut dvh = Dvh::new(DoseType::Gy, VolumeType::Percent);
    dvh.add(bits(3.0), bits(0.8));
    dvh.add(bits(1.0), bits(1.0));
    dvh.add(bits(2.0), bits(0.9));

    dvh.sort();

    assert!(dvh.is_sorted());
    assert_eq!(numbers(dvh.doses()), vec![1.0, 2.0, 3.0]);
    assert_eq!(numbers(dvh.volumes()), vec![1.0, 0.9, 0.8]);
}

#[test]
fn dvh_test_dvh_sort_already_sorted() {
    let mut dvh = Dvh::new(DoseType::Gy, VolumeType::Percent);
    dvh.add(bits(1.0), bits(1.0));
    dvh.add(bits(2.0), bits(0.9));
    dvh.sort();

    // Sort again should not change anything
    dvh.sort();

    assert!(dvh.is_sorted());
    assert_eq!(numbers(dvh.doses()), vec![1.0, 2.0]);
    assert_eq!(numbers(dvh.volumes()), vec![1.0, 0.9]);
}

#[test]
fn dvh_test_dvh_dx_negative_volume() {
    let mut dvh = Dvh::new(DoseType::Gy, VolumeType::Percent);
    dvh.add(bits(1.0), bits(1.0));
    dvh.add(bits(2.0), bits(0.9));
    dvh.sort();

    let result = value(dvh.dx(bits(-10.0)));
    assert!(result.is_err());
    assert!(matches!(result.unwrap_err(), Error::NegativeVolume));
}

#[test]
fn dvh_test_dvh_dx_empty() {
    let dvh = Dvh::new(DoseType::Gy, VolumeType::Percent);
    let result = value(dvh.dx(bits(50.0)));
    assert!(result.is_err());
    assert!(matches!(result.unwrap_err(), Error::DvhNoData));
}

#[test]
fn dvh_test_dvh_dx_insufficient_data() {
    let mut dvh = Dvh::new(DoseType::Gy, VolumeType::Percent);
    dvh.add(bits(1.0), bits(1.0));
    dvh.sort();

    let result = value(dvh.dx(bits(50.0)));
    assert!(result.is_err());
    assert!(matches!(result.unwrap_err(), Error::DvhInsufficientData));
}

#[test]
fn dvh_test_dvh_dx_unsorted() {
    let mut dvh = Dvh::new(DoseType::Gy, VolumeType::Percent);
    dvh.add(bits(1.0), bits(1.0));
    dvh.add(bits(2.0), bits(0.9));
    // Don't sort

    let result = value(dvh.dx(bits(0.95)));
    assert!(result.is_err());
    assert!(matches!(result.unwrap_err(), Error::DvhUnsorted));
}

#[test]
fn dvh_test_dvh_dx_interpolation() {
    let mut dvh = Dvh::new(DoseType::Gy, VolumeType::Percent);
    dvh.add(bits(0.0), bits(1.0));
    dvh.add(bits(10.0), bits(0.8));
    dvh.sort();

    let result = value(dvh.dx(bits(0.9)));
    assert!(result.is_ok());
    assert_eq!(result.unwrap(), 5.0);
}

#[test]
fn dvh_test_dvh_dx_below_minimum() {
    let mut dvh = Dvh::new(DoseType::Gy, VolumeType::Percent);
    dvh.add(bits(0.0), bits(1.0));
    dvh.add(bits(10.0), bits(0.8));
    dvh.sort();

    let result = value(dvh.dx(bits(0.7)));
    assert!(result.is_ok());
    assert_eq!(result.unwrap(), 10.0);
}

#[test]
fn dvh_test_dvh_dx_above_maximum() {
    let mut dvh = Dvh::new(DoseType::Gy, VolumeType::Percent);
    dvh.add(bits(0.0), bits(1.0));
    dvh.add(bits(10.0), bits(0.8));
    dvh.sort();

    let result = value(dvh.dx(bits(1.1)));
    assert!(result.is_ok());
    assert_eq!(result.unwrap(), 0.0);
}

#[test]
fn dvh_test_dvh_dx_exact_match() {
    let mut dvh = Dvh::new(DoseType::Gy, VolumeType::Percent);
    dvh.add(bits(0.0), bits(1.0));
    dvh.add(bits(5.0), bits(0.9));
    dvh.add(bits(10.0), bits(0.8));
    dvh.sort();

    let result = value(dvh.dx(bits(0.9)));
    assert!(result.is_ok());
    assert_eq!(result.unwrap(), 5.0);
}

#[test]
fn dvh_test_dvh_dx_multiple_points() {
    let mut dvh = Dvh::new(DoseType::Gy, VolumeType::Percent);
    dvh.add(bits(0.0), bits(1.0));
    dvh.add(bits(5.0), bits(0.9));
    dvh.add(bits(10.0), bits(0.8));
    dvh.add(bits(15.0), bits(0.7));
    dvh.sort();

    // Test interpolation between different segments
    let result = value(dvh.dx(bits(0.85)));
    assert!(result.is_ok());
    assert!(ulps_eq(result.unwrap(), 7.5));

    let result = value(dvh.dx(bits(0.79)));
    assert!(result.is_ok());
    assert!(ulps_eq(result.unwrap(), 10.5));

    let result = value(dvh.dx(bits(0.71)));
    assert!(result.is_ok());
    assert!(ulps_eq(result.unwrap(), 14.5));
}

#[test]
fn dvh_test_dvh_vx_negative_dose() {
    let mut dvh = Dvh::new(DoseType::Gy, VolumeType::Percent);
    dvh.add(bits(1.0), bits(1.0));
    dvh.add(bits(2.0), bits(0.9));
    dvh.sort();

    let result = value(dvh.vx(bits(-1.0)));
    assert!(result.is_err());
    assert!(matches!(result.unwrap_err(), Error::NegativeDose));
}

#[test]
fn dvh_test_dvh_vx_empty() {
    let dvh = Dvh::new(DoseType::Gy, VolumeType::Percent);
    let result = value(dvh.vx(bits(5.0)));
    assert!(result.is_err());
    assert!(matches!(result.unwrap_err(), Error::DvhNoData));
}

#[test]
fn dvh_test_dvh_vx_insufficient_data() {
    let mut dvh = Dvh::new(DoseType::Gy, VolumeType::Percent);
    dvh.add(bits(1.0), bits(1.0));
    dvh.sort();

    let result = value(dvh.vx(bits(1.0)));
    assert!(result.is_err());
    assert!(matches!(result.unwrap_err(), Error::DvhInsufficientData));
}

#[test]
fn dvh_test_dvh_vx_unsorted() {
    let mut dvh = Dvh::new(DoseType::Gy, VolumeType::Percent);
    dvh.add(bits(1.0), bits(1.0));
    dvh.add(bits(2.0), bits(0.9));
    // Don't sort

    let result = value(dvh.vx(bits(1.5)));
    assert!(result.is_err());
    assert!(matches!(result.unwrap_err(), Error::DvhUnsorted));
}

#[test]
fn dvh_test_dvh_vx_below_minimum() {
    let mut dvh = Dvh::new(DoseType::Gy, VolumeType::Percent);
    dvh.add(bits(5.0), bits(1.0));
    dvh.add(bits(10.0), bits(0.8));
    dvh.sort();

    let result = value(dvh.vx(bits(3.0)));
    assert!(result.is_ok());
    assert_eq!(result.unwrap(), 1.0);
}

#[test]
fn dvh_test_dvh_vx_above_maximum() {
    let mut dvh = Dvh::new(DoseType::Gy, VolumeType::Percent);
    dvh.add(bits(5.0), bits(1.0));
    dvh.add(bits(10.0), bits(0.8));
    dvh.sort();

    let result = value(dvh.vx(bits(15.0)));
    assert!(result.is_ok());
    assert!(ulps_eq(result.unwrap(), 0.8));
}

#[test]
fn dvh_test_dvh_vx_exact_match() {
    let mut dvh = Dvh::new(DoseType::Gy, VolumeType::Percent);
    dvh.add(bits(0.0), bits(1.0));
    dvh.add(bits(5.0), bits(0.9));
    dvh.add(bits(10.0), bits(0.8));
    dvh.sort();

    let result = value(dvh.vx(bits(5.0)));
    assert!(result.is_ok());
    assert!(ulps_eq(result.unwrap(), 0.9));
}

#[test]
fn dvh_test_dvh_vx_interpolation() {
    let mut dvh = Dvh::new(DoseType::Gy, VolumeType::Percent);
    dvh.add(bits(0.0), bits(1.0));
    dvh.add(bits(10.0), bits(0.8));
    dvh.sort();

    let result = value(dvh.vx(bits(5.0)));
    assert!(result.is_ok());
    assert!(ulps_eq(result.unwrap(), 0.9));

    let result = value(dvh.vx(bits(2.0)));
    assert!(result.is_ok());
    assert!(ulps_eq(result.unwrap(), 0.96));

    let result = value(dvh.vx(bits(8.0)));
    assert!(result.is_ok());
    assert!(ulps_eq(result.unwrap(), 0.84));
}

#[test]
fn dvh_test_dvh_vx_multiple_points() {
    let mut dvh = Dvh::new(DoseType::Gy, VolumeType::Percent);
    dvh.add(bits(0.0), bits(1.0));
    dvh.add(bits(5.0), bits(0.9));
    dvh.add(bits(10.0), bits(0.8));
    dvh.add(bits(15.0), bits(0.7));
    dvh.sort();

    // Test interpolation between different segments
    let result = value(dvh.vx(bits(7.5)));
    assert!(result.is_ok());
    assert!(ulps_eq(result.unwrap(), 0.85));
}

