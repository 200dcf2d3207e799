use orbital_time_server::spectrum::{
    ChannelStatus, EnvelopeWaveletSpurCanceller, Modulation, UtcInstant,
};

#[test]
fn power_of_two_sizes() {
    assert!(!EnvelopeWaveletSpurCanceller::is_power_of_two_len(0));
    assert!(EnvelopeWaveletSpurCanceller::is_power_of_two_len(1));
    assert!(EnvelopeWaveletSpurCanceller::is_power_of_two_len(1024));
    assert!(!EnvelopeWaveletSpurCanceller::is_power_of_two_len(1000));
    assert!(!EnvelopeWaveletSpurCanceller::is_power_of_two_len(6));
}

#[test]
fn carrier_bin_wraps() {
    assert_eq!(EnvelopeWaveletSpurCanceller::wrap_bin(5, 8), 5);
    assert_eq!(EnvelopeWaveletSpurCanceller::wrap_bin(-1, 8), 7);
    assert_eq!(EnvelopeWaveletSpurCanceller::wrap_bin(-8, 8), 0);
    assert_eq!(EnvelopeWaveletSpurCanceller::wrap_bin(17, 8), 1);
    assert_eq!(EnvelopeWaveletSpurCanceller::wrap_bin(i64::MIN, 8), 0);
}

#[test]
fn guard_and_distance() {
    assert_eq!(EnvelopeWaveletSpurCanceller::guard_width(0), 3);
    assert_eq!(EnvelopeWaveletSpurCanceller::guard_width(4), 7);
    assert_eq!(EnvelopeWaveletSpurCanceller::guard_width(50), 13);
    assert_eq!(EnvelopeWaveletSpurCanceller::circular_bin_distance(1, 255, 256), 2);
    assert_eq!(EnvelopeWaveletSpurCanceller::circular_bin_distance(200, 10, 256), 66);
}

#[test]
fn notch_leaves_guarded_spikes() {
    let mut mags: Vec<f32> = vec![1.0; 16];
    mags[2] = 50.0;
    mags[9] = 40.0;
    mags[15] = 30.0;
    let background: Vec<f32> = vec![0.5; 16];
    let spikes = vec![2, 9, 15];
    let done = EnvelopeWaveletSpurCanceller::notch_bins(&mut mags, &background, &spikes, 0, 3);
    assert_eq!(done, vec![9]);
    assert_eq!(mags[2], 50.0);
    assert_eq!(mags[9], 0.5);
    assert_eq!(mags[15], 30.0);
}

#[test]
fn enum_defaults() {
    assert_eq!(Modulation::default(), Modulation::Carrier);
    assert_ne!(ChannelStatus::Idle, ChannelStatus::Locked);
}

#[test]
fn test_pca_epoch_guard_whole_seconds() {
    let pca = UtcInstant { secs: 1_700_000_000, nanos: 0 };
    let within = UtcInstant { secs: 1_700_000_030, nanos: 999_999_999 };
    let beyond = UtcInstant { secs: 1_700_000_031, nanos: 0 };
    let before = UtcInstant { secs: 1_699_999_969, nanos: 500_000_000 };
    let before_far = UtcInstant { secs: 1_699_999_969, nanos: 0 };
    assert!(EnvelopeWaveletSpurCanceller::check_pca_epoch_guard(pca, pca));
    assert!(EnvelopeWaveletSpurCanceller::check_pca_epoch_guard(within, pca));
    assert!(!EnvelopeWaveletSpurCanceller::check_pca_epoch_guard(beyond, pca));
    assert!(EnvelopeWaveletSpurCanceller::check_pca_epoch_guard(before, pca));
    assert!(!EnvelopeWaveletSpurCanceller::check_pca_epoch_guard(before_far, pca));
}
