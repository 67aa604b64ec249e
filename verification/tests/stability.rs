use adx::version::{SemVer, Version};

fn prerelease(major: u64, minor: u64, patch: u64, pre: &str) -> Version {
    Version::SemVer(SemVer::with_prerelease(major, minor, patch, pre).unwrap())
}

#[test]
fn stability_alpha_version() {
    let v = prerelease(1, 1, 0, "alpha01");
    assert!(v.is_alpha());
    assert!(!v.is_beta());
    assert!(!v.is_dev());
    assert!(v.is_prerelease());
    assert!(!v.is_rc());
    assert!(!v.is_stable());
}

#[test]
fn stability_beta_version() {
    let v = prerelease(1, 1, 0, "beta01");
    assert!(!v.is_alpha());
    assert!(v.is_beta());
    assert!(!v.is_dev());
    assert!(v.is_prerelease());
    assert!(!v.is_rc());
    assert!(!v.is_stable());
}

#[test]
fn stability_dev_version() {
    let v = prerelease(1, 1, 0, "dev01");
    assert!(!v.is_alpha());
    assert!(!v.is_beta());
    assert!(v.is_dev());
    assert!(v.is_prerelease());
    assert!(!v.is_rc());
    assert!(!v.is_stable());
}

#[test]
fn stability_rc_version() {
    let v = prerelease(1, 1, 0, "rc01");
    assert!(!v.is_alpha());
    assert!(!v.is_beta());
    assert!(!v.is_dev());
    assert!(v.is_prerelease());
    assert!(v.is_rc());
    assert!(!v.is_stable());
}

#[test]
fn stability_stable_version() {
    let v = Version::SemVer(SemVer::new(1, 1, 1));
    assert!(!v.is_alpha());
    assert!(!v.is_beta());
    assert!(!v.is_dev());
    assert!(!v.is_prerelease());
    assert!(!v.is_rc());
    assert!(v.is_stable());
}

#[test]
fn stability_of_a_calendar_version() {
    let v = Version::CalVer((2023, 4, 0));
    assert!(v.is_stable());
    assert!(!v.is_prerelease());
    assert!(!v.is_alpha());
}

#[test]
fn stability_of_an_unknown_label() {
    let v = prerelease(1, 0, 0, "snapshot");
    assert!(v.is_prerelease());
    assert!(!v.is_stable());
    assert!(!v.is_alpha() && !v.is_beta() && !v.is_dev() && !v.is_rc());
}
