use moremass::backend::calcs::get_maxima;
use moremass::backend::calcs::sort_in_place;
use moremass::backend::calcs::update_snrs;
use moremass::backend::Dataset;
use moremass::backend::DatasetError;
use moremass::backend::MSPoint;
use moremass::backend::Metadata;
use moremass::scalar::Scalar;

fn n(x: f64) -> Scalar {
    Scalar::from_bits(x.to_bits())
}

fn v(s: Scalar) -> f64 {
    f64::from_bits(s.to_bits())
}

fn meta() -> Metadata {
    Metadata {
        title: String::from("a spectrum"),
        operator: String::new(),
        contact: String::new(),
        institution: String::new(),
        instrument: String::new(),
        date: 0,
        path: String::new(),
    }
}

fn spectrum(intensities: &[f64]) -> Vec<MSPoint> {
    intensities
        .iter()
        .enumerate()
        .map(|(i, &y)| MSPoint { mz: n(10.0 * (i as f64 + 1.0)), int: n(y), snr: n(0.0) })
        .collect()
}

fn sorted(xs: &[f64]) -> Vec<f64> {
    let mut buf: Vec<Scalar> = xs.iter().map(|&x| n(x)).collect();
    sort_in_place(&mut buf);
    buf.into_iter().map(v).collect()
}

const TALL: [f64; 11] = [20.0, 60.0, 20.0, 50.0, 15.0, 100.0, 25.0, 15.0, 25.0, 20.0, 20.0];

#[test]
fn default_point_is_all_zero() {
    let p = MSPoint::default();
    assert_eq!((v(p.mz), v(p.int), v(p.snr)), (0.0, 0.0, 0.0));
}

#[test]
fn sort_puts_numbers_in_ascending_order() {
    assert_eq!(sorted(&[3.0, -1.0, 2.5, 0.0, 100.0, -7.0]), vec![-7.0, -1.0, 0.0, 2.5, 3.0, 100.0]);
    assert_eq!(sorted(&[]), Vec::<f64>::new());
    assert_eq!(sorted(&[4.0]), vec![4.0]);
    assert_eq!(sorted(&[2.0, 1.0, 2.0, 1.0]), vec![1.0, 1.0, 2.0, 2.0]);
}

#[test]
fn sort_keeps_equal_numbers_in_their_order() {
    let mut buf = vec![n(1.0), n(0.0), n(-0.0), n(-1.0), n(-0.0), n(0.0)];
    sort_in_place(&mut buf);
    let bits: Vec<u64> = buf.iter().map(|s| s.to_bits()).collect();
    let pz = 0.0f64.to_bits();
    let nz = (-0.0f64).to_bits();
    assert_eq!(bits, vec![(-1.0f64).to_bits(), pz, nz, nz, pz, 1.0f64.to_bits()]);
}

#[test]
fn maxima_of_the_example() {
    let pts = spectrum(&[1.0, 3.0, 2.0, 5.0, 5.0, 1.0, 4.0]);
    assert_eq!(get_maxima(&pts), vec![1, 4]);
}

#[test]
fn last_sample_is_never_a_maximum() {
    assert_eq!(get_maxima(&spectrum(&[1.0, 2.0, 3.0])), Vec::<usize>::new());
    assert_eq!(get_maxima(&spectrum(&[3.0, 1.0, 9.0])), vec![0]);
}

#[test]
fn first_sample_counts_when_it_is_not_below_zero() {
    assert_eq!(get_maxima(&spectrum(&[5.0, 1.0])), vec![0]);
    assert_eq!(get_maxima(&spectrum(&[0.0, -1.0])), vec![0]);
    assert_eq!(get_maxima(&spectrum(&[-1.0, -2.0])), Vec::<usize>::new());
    assert_eq!(get_maxima(&spectrum(&[-1.0, -2.0, -1.0, -3.0])), vec![2]);
}

#[test]
fn flat_top_is_recorded_at_its_last_sample() {
    assert_eq!(get_maxima(&spectrum(&[1.0, 4.0, 4.0, 4.0, 2.0, 1.0])), vec![3]);
}

#[test]
fn flat_shoulder_on_the_way_down_is_recorded_too() {
    assert_eq!(get_maxima(&spectrum(&[1.0, 4.0, 4.0, 4.0, 2.0, 2.0, 1.0])), vec![3, 5]);
}

#[test]
fn falling_run_records_only_its_start() {
    assert_eq!(get_maxima(&spectrum(&[9.0, 7.0, 5.0, 3.0, 4.0, 2.0])), vec![0, 4]);
}

#[test]
fn maxima_of_nothing_and_of_one() {
    assert_eq!(get_maxima(&Vec::new()), Vec::<usize>::new());
    assert_eq!(get_maxima(&spectrum(&[7.0])), Vec::<usize>::new());
}

#[test]
fn snr_stays_zero_without_width() {
    let mut pts = spectrum(&[1.0, 5.0, 2.0]);
    update_snrs(&mut pts, &vec![1], n(3.0), n(0.0));
    assert!(pts.iter().all(|p| v(p.snr) == 0.0));
    update_snrs(&mut pts, &vec![1], n(3.0), n(-2.0));
    assert!(pts.iter().all(|p| v(p.snr) == 0.0));
}

#[test]
fn snr_is_height_over_width() {
    let mut pts = spectrum(&[1.0, 5.0, 2.0]);
    update_snrs(&mut pts, &vec![1], n(3.0), n(2.0));
    assert_eq!(v(pts[1].snr), 1.0);
    assert_eq!(v(pts[0].snr), 0.0);
    assert_eq!(v(pts[2].snr), 0.0);
    assert_eq!(v(pts[1].int), 5.0);
    assert_eq!(v(pts[1].mz), 20.0);
}

#[test]
fn snr_is_negative_below_the_noise_level() {
    let mut pts = spectrum(&[0.0, 1.0, 0.5]);
    update_snrs(&mut pts, &vec![1], n(3.0), n(4.0));
    assert_eq!(v(pts[1].snr), -0.5);
}

#[test]
fn noise_model_of_the_example() {
    let d = Dataset::neww(meta(), spectrum(&[1.0, 2.0, 3.0, 4.0, 5.0]));
    assert_eq!(v(d.noise_level()), 3.0);
    assert_eq!(v(d.noise_width()), 2.0);
}

#[test]
fn median_of_an_even_run_is_the_upper_one() {
    let d = Dataset::neww(meta(), spectrum(&[4.0, 1.0, 3.0, 2.0]));
    assert_eq!(v(d.noise_level()), 3.0);
    // distances 1, 2, 0, 1: in order 0, 1, 1, 2
    assert_eq!(v(d.noise_width()), 2.0);
}

#[test]
fn noise_model_of_unordered_fractions() {
    let d = Dataset::neww(meta(), spectrum(&[0.5, 7.25, 0.75, 0.25, 1.5]));
    assert_eq!(v(d.noise_level()), 0.75);
    // distances 0.25, 6.5, 0, 0.5, 0.75: in order 0, 0.25, 0.5, 0.75, 6.5
    assert_eq!(v(d.noise_width()), 1.0);
}

#[test]
fn bounds_are_the_ends_and_the_extremes() {
    let d = Dataset::neww(meta(), spectrum(&[3.0, 9.0, 1.0, 4.0]));
    assert_eq!(v(d.mz_min()), 10.0);
    assert_eq!(v(d.mz_max()), 40.0);
    assert_eq!(v(d.int_min()), 1.0);
    assert_eq!(v(d.int_max()), 9.0);
}

#[test]
fn mz_bounds_follow_the_order_given() {
    let pts = vec![
        MSPoint { mz: n(7.0), int: n(1.0), snr: n(0.0) },
        MSPoint { mz: n(9.0), int: n(2.0), snr: n(0.0) },
        MSPoint { mz: n(3.0), int: n(3.0), snr: n(0.0) },
    ];
    let d = Dataset::neww(meta(), pts);
    assert_eq!(v(d.mz_min()), 7.0);
    assert_eq!(v(d.mz_max()), 3.0);
}

#[test]
fn new_dataset_is_shown_and_has_no_peaks() {
    let d = Dataset::neww(meta(), spectrum(&TALL));
    assert!(d.visible());
    assert!(d.peaks().is_empty());
    assert_eq!(d.metadata().title, "a spectrum");
    assert_eq!(d.points().len(), 11);
    assert_eq!(*d.maxima(), vec![1, 3, 5, 8]);
}

#[test]
fn construction_rates_the_maxima() {
    let d = Dataset::neww(meta(), spectrum(&TALL));
    assert_eq!(v(d.noise_level()), 20.0);
    assert_eq!(v(d.noise_width()), 10.0);
    let snrs: Vec<f64> = d.points().iter().map(|p| v(p.snr)).collect();
    assert_eq!(snrs, vec![0.0, 4.0, 0.0, 3.0, 0.0, 8.0, 0.0, 0.0, 0.5, 0.0, 0.0]);
    let ints: Vec<f64> = d.points().iter().map(|p| v(p.int)).collect();
    assert_eq!(ints, TALL.to_vec());
}

#[test]
fn flat_spectrum_has_no_width_and_no_snr() {
    let d = Dataset::neww(meta(), spectrum(&[2.0, 2.0, 2.0, 2.0]));
    assert_eq!(v(d.noise_level()), 2.0);
    assert_eq!(v(d.noise_width()), 0.0);
    assert!(d.maxima().is_empty());
    assert!(d.points().iter().all(|p| v(p.snr) == 0.0));
}

#[test]
fn maxima_without_width_fail_a_positive_ratio() {
    // more than half of the samples are at one height, so the width is zero
    let mut d = Dataset::neww(meta(), spectrum(&[1.0, 1.0, 9.0, 1.0, 1.0, 1.0, 1.0]));
    assert_eq!(v(d.noise_width()), 0.0);
    assert_eq!(*d.maxima(), vec![2]);
    assert_eq!(v(d.points()[2].snr), 0.0);
    d.find_peaks(n(0.5), n(0.0), n(0.0), true);
    assert!(d.peaks().is_empty());
    d.find_peaks(n(0.0), n(0.0), n(0.0), true);
    assert!(d.peaks().is_empty());
    d.find_peaks(n(-1.0), n(0.0), n(0.0), true);
    assert_eq!(*d.peaks(), vec![2]);
}

#[test]
fn construct_refuses_an_empty_run() {
    assert_eq!(Dataset::construct(meta(), Vec::new()).err(), Some(DatasetError::NoPoints));
}

#[test]
fn construct_accepts_one_sample() {
    let d = Dataset::construct(meta(), spectrum(&[6.0])).unwrap();
    assert_eq!(v(d.noise_level()), 6.0);
    assert_eq!(v(d.noise_width()), 0.0);
    assert_eq!(v(d.mz_min()), 10.0);
    assert_eq!(v(d.mz_max()), 10.0);
    assert_eq!(v(d.int_min()), 6.0);
    assert_eq!(v(d.int_max()), 6.0);
}

#[test]
fn find_peaks_applies_both_thresholds() {
    let mut d = Dataset::neww(meta(), spectrum(&TALL));
    assert_eq!(v(d.int_max()), 100.0);
    d.find_peaks(n(3.0), n(10.0), n(0.5), true);
    assert_eq!(*d.peaks(), vec![1, 5]);
    d.find_peaks(n(5.0), n(10.0), n(0.5), true);
    assert_eq!(*d.peaks(), vec![5]);
}

#[test]
fn find_peaks_leaves_out_a_sample_at_the_threshold() {
    let mut d = Dataset::neww(meta(), spectrum(&TALL));
    d.find_peaks(n(2.0), n(10.0), n(0.5), true);
    assert_eq!(*d.peaks(), vec![1, 5]);
    d.find_peaks(n(2.0), n(10.0), n(0.49), true);
    assert_eq!(*d.peaks(), vec![1, 3, 5]);
}

#[test]
fn find_peaks_leaves_out_a_sample_at_the_ratio() {
    let mut d = Dataset::neww(meta(), spectrum(&TALL));
    d.find_peaks(n(4.0), n(0.0), n(0.0), true);
    assert_eq!(*d.peaks(), vec![5]);
    d.find_peaks(n(3.9), n(0.0), n(0.0), true);
    assert_eq!(*d.peaks(), vec![1, 5]);
}

#[test]
fn find_peaks_takes_the_larger_threshold() {
    let mut d = Dataset::neww(meta(), spectrum(&TALL));
    d.find_peaks(n(0.0), n(70.0), n(0.5), true);
    assert_eq!(*d.peaks(), vec![5]);
    d.find_peaks(n(0.0), n(10.0), n(0.2), true);
    assert_eq!(*d.peaks(), vec![1, 3, 5, 8]);
}

#[test]
fn find_peaks_without_overwrite_adds_to_what_is_there() {
    let mut d = Dataset::neww(meta(), spectrum(&TALL));
    d.pushpeak(5);
    d.pushpeak(0);
    d.find_peaks(n(3.0), n(10.0), n(0.5), false);
    assert_eq!(*d.peaks(), vec![5, 0, 1]);
    d.find_peaks(n(3.0), n(10.0), n(0.5), false);
    assert_eq!(*d.peaks(), vec![5, 0, 1]);
    d.find_peaks(n(3.0), n(10.0), n(0.5), true);
    assert_eq!(*d.peaks(), vec![1, 5]);
}

#[test]
fn pushpeak_twice_lists_the_place_once() {
    let mut d = Dataset::neww(meta(), spectrum(&TALL));
    d.pushpeak(4);
    d.pushpeak(2);
    d.pushpeak(4);
    assert_eq!(*d.peaks(), vec![4, 2]);
    d.pushpeak(2);
    assert_eq!(*d.peaks(), vec![4, 2]);
}

#[test]
fn pushpeak_ignores_a_place_outside() {
    let mut d = Dataset::neww(meta(), spectrum(&TALL));
    d.pushpeak(11);
    d.pushpeak(usize::MAX);
    assert!(d.peaks().is_empty());
    d.pushpeak(10);
    assert_eq!(*d.peaks(), vec![10]);
}

#[test]
fn pushpeak_takes_a_place_that_is_no_maximum() {
    let mut d = Dataset::neww(meta(), spectrum(&TALL));
    assert!(!d.maxima().contains(&2));
    d.pushpeak(2);
    assert_eq!(*d.peaks(), vec![2]);
}

#[test]
fn removepeaks_takes_both_ends_of_the_range() {
    let mut d = Dataset::neww(meta(), spectrum(&[1.0, 2.0, 3.0]));
    d.pushpeak(0);
    d.pushpeak(1);
    d.pushpeak(2);
    // the peaks stand at 10, 20 and 30
    d.removepeaks(n(10.0), n(20.0));
    assert_eq!(*d.peaks(), vec![2]);
}

#[test]
fn removepeaks_keeps_the_order_of_the_rest() {
    let mut d = Dataset::neww(meta(), spectrum(&TALL));
    for i in [7, 2, 9, 0, 4] {
        d.pushpeak(i);
    }
    // places 2 and 4 stand at 30 and 50
    d.removepeaks(n(25.0), n(55.0));
    assert_eq!(*d.peaks(), vec![7, 9, 0]);
    d.removepeaks(n(200.0), n(300.0));
    assert_eq!(*d.peaks(), vec![7, 9, 0]);
    d.removepeaks(n(55.0), n(25.0));
    assert_eq!(*d.peaks(), vec![7, 9, 0]);
    d.removepeaks(n(0.0), n(1000.0));
    assert!(d.peaks().is_empty());
}

#[test]
fn set_visible_changes_nothing_else() {
    let mut d = Dataset::neww(meta(), spectrum(&TALL));
    d.pushpeak(1);
    d.set_visible(false);
    assert!(!d.visible());
    assert_eq!(*d.peaks(), vec![1]);
    assert_eq!(v(d.noise_level()), 20.0);
    d.set_visible(true);
    assert!(d.visible());
}
