//! Type fingerprints distinguish layouts and agree on identical types.

use necsim::Fingerprint;
use necsim::is_small;

#[test]
fn test_fingerprint() {
    assert_eq!(Fingerprint::of::<usize>(), Fingerprint::of::<usize>());
    assert_eq!(Fingerprint::of::<&str>(), Fingerprint::of::<&'static str>());

    assert_ne!(Fingerprint::of::<u32>(), Fingerprint::of::<[u8; 4]>());
    assert_ne!(Fingerprint::of::<u32>(), Fingerprint::of::<[u32; 2]>());
}

#[test]
fn small_values_stay_inline() {
    assert!(is_small::<u64>());
    assert!(is_small::<(usize, usize)>());
    assert!(!is_small::<[usize; 3]>());
}
