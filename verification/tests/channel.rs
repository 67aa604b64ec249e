use adx::channel::{Channel, ChannelError};
use adx::version::{SemVer, Version};

fn prerelease(major: u64, minor: u64, patch: u64, pre: &str) -> Version {
    Version::SemVer(SemVer::with_prerelease(major, minor, patch, pre).unwrap())
}

#[test]
fn channel_alpha_version() {
    let v = prerelease(1, 1, 0, "alpha01");
    let channel = Channel::try_from(&v);
    assert_eq!(Channel::Alpha, channel.unwrap());
}

#[test]
fn channel_beta_version() {
    let v = prerelease(1, 1, 0, "beta01");
    let channel = Channel::try_from(&v);
    assert_eq!(Channel::Beta, channel.unwrap());
}

#[test]
fn channel_dev_version() {
    let v = prerelease(1, 1, 0, "dev01");
    let channel = Channel::try_from(&v);
    assert_eq!(Channel::Dev, channel.unwrap());
}

#[test]
fn channel_rc_version() {
    let v = prerelease(1, 1, 0, "rc01");
    let channel = Channel::try_from(&v);
    assert_eq!(Channel::Rc, channel.unwrap());
}

#[test]
fn channel_stable_version() {
    let v = Version::SemVer(SemVer::new(1, 1, 1));
    let channel = Channel::try_from(&v);
    assert_eq!(Channel::Stable, channel.unwrap());
}

#[test]
fn calver() {
    let v = Version::CalVer((2023, 4, 0));
    let channel = Channel::try_from(&v);
    assert_eq!(Channel::Stable, channel.unwrap());
}

#[test]
fn channel_cmp_channels() {
    assert!(Channel::Stable > Channel::Rc);
    assert!(Channel::Rc > Channel::Beta);
    assert!(Channel::Beta > Channel::Alpha);
    assert!(Channel::Alpha > Channel::Dev);
}

#[test]
fn cmp_parsed_versions() {
    let stable = Channel::try_from(&Version::from_text("1.1.0").unwrap()).unwrap();
    let rc = Channel::try_from(&Version::from_text("1.1.0-rc01").unwrap()).unwrap();
    let alpha = Channel::try_from(&Version::from_text("1.1.0-alpha01").unwrap()).unwrap();
    let beta = Channel::try_from(&Version::from_text("1.1.0-beta01").unwrap()).unwrap();
    assert!(Channel::Stable >= stable);
    assert!(Channel::Stable >= rc);
    assert!(Channel::Stable >= alpha);
    assert!(Channel::Stable >= beta);
    assert!(Channel::Rc >= rc);
    assert!(Channel::Rc >= beta);
    assert!(Channel::Rc >= alpha);
    assert!(Channel::Beta >= beta);
    assert!(Channel::Beta >= alpha);
    assert!(Channel::Alpha >= alpha);
}

#[test]
fn channel_order_is_strict_and_total() {
    let all = [Channel::Dev, Channel::Alpha, Channel::Beta, Channel::Rc, Channel::Stable];
    for (i, a) in all.iter().enumerate() {
        for (j, b) in all.iter().enumerate() {
            assert_eq!(a < b, i < j);
            assert_eq!(a > b, i > j);
            assert_eq!(a == b, i == j);
            assert_eq!(a.at_least(*b), i >= j);
        }
        assert_eq!(a.stability() as usize, i);
    }
}

#[test]
fn classification_fails_on_unknown_label_and_returns_the_version() {
    let v = prerelease(1, 0, 0, "snapshot");
    match Channel::try_from(&v) {
        Err(ChannelError::FailedToParseVersion(back)) => assert_eq!(back, v),
        other => panic!("unexpected {:?}", other),
    }
}

#[test]
fn classification_goes_by_the_prefix_of_the_label() {
    assert_eq!(Channel::try_from(&prerelease(1, 0, 0, "alpha")).unwrap(), Channel::Alpha);
    assert_eq!(Channel::try_from(&prerelease(1, 0, 0, "alpha.1")).unwrap(), Channel::Alpha);
    assert_eq!(Channel::try_from(&prerelease(1, 0, 0, "rc-2")).unwrap(), Channel::Rc);
    assert_eq!(Channel::try_from(&prerelease(1, 0, 0, "developer")).unwrap(), Channel::Dev);
    assert!(Channel::try_from(&prerelease(1, 0, 0, "Alpha01")).is_err());
    assert!(Channel::try_from(&prerelease(1, 0, 0, "1.alpha")).is_err());
}

#[test]
fn classifying_the_same_text_twice_gives_the_same_channel() {
    for text in ["1.1.0-alpha01", "2.0.0-beta.3", "0.1.0-dev05", "3.1.4-rc02", "1.0.0"] {
        let first = Channel::try_from(&Version::from_text(text).unwrap()).unwrap();
        let second = Channel::try_from(&Version::from_text(text).unwrap()).unwrap();
        assert_eq!(first, second);
    }
}

#[test]
fn channel_names_and_aliases() {
    assert_eq!(Channel::from_str("alpha").unwrap(), Channel::Alpha);
    assert_eq!(Channel::from_str("a").unwrap(), Channel::Alpha);
    assert_eq!(Channel::from_str("beta").unwrap(), Channel::Beta);
    assert_eq!(Channel::from_str("b").unwrap(), Channel::Beta);
    assert_eq!(Channel::from_str("dev").unwrap(), Channel::Dev);
    assert_eq!(Channel::from_str("d").unwrap(), Channel::Dev);
    assert_eq!(Channel::from_str("rc").unwrap(), Channel::Rc);
    assert_eq!(Channel::from_str("r").unwrap(), Channel::Rc);
    assert_eq!(Channel::from_str("stable").unwrap(), Channel::Stable);
    assert_eq!(Channel::from_str("s").unwrap(), Channel::Stable);
    assert!(matches!(Channel::from_str("Stable"), Err(ChannelError::NoMatchFound)));
    assert!(matches!(Channel::from_str(""), Err(ChannelError::NoMatchFound)));
    for c in [Channel::Dev, Channel::Alpha, Channel::Beta, Channel::Rc, Channel::Stable] {
        assert_eq!(Channel::from_str(c.name()).unwrap(), c);
    }
}

#[test]
fn the_default_channel_is_alpha() {
    assert_eq!(Channel::default(), Channel::Alpha);
}
