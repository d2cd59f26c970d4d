use eternal_monitor::updates::{newer_stable, stable_upgrade, Cache, Release, CHECK_INTERVAL};

#[test]
fn releases_use_semver_ignore_previews_and_ignore_build_metadata() {
    assert_eq!(newer_stable("v1.10.0", "1.9.9"), Some("1.10.0".into()));
    assert_eq!(newer_stable("v0.3.0", "0.3.0-rc.1"), Some("0.3.0".into()));
    for tag in [
        "v0.3.0",
        "v0.2.0",
        "v0.4.0-rc.1",
        "v0.3.0+new",
        "v0.4",
        "https://example.com",
        "garbage",
    ] {
        assert_eq!(newer_stable(tag, "0.3.0"), None, "{tag}");
    }
}

#[test]
fn daily_cache_reuses_success_and_throttles_failures() {
    let mut cache = Cache::default();
    assert!(cache.check(10, || Ok(Release {
        tag_name: "v0.4.0".into(),
        prerelease: false,
        draft: false
    })));
    assert!(!cache.check(10 + CHECK_INTERVAL - 1, || panic!("too early")));
    assert!(cache.check(10 + CHECK_INTERVAL, || Err("offline".into())));
    assert_eq!(cache.tag.as_deref(), Some("v0.4.0"));
    assert!(!cache.check(11 + CHECK_INTERVAL, || panic!("failure must also be cached")));
    let mut restored = Cache {
        checked_at: cache.checked_at,
        tag: cache.tag.clone(),
    };
    assert!(!restored.check(11 + CHECK_INTERVAL, || panic!("restart must reuse cache")));
    assert!(restored.check(10 + CHECK_INTERVAL * 2, || Ok(Release {
        tag_name: "v0.5.0".into(),
        prerelease: true,
        draft: false
    })));
    assert_eq!(restored.tag, None);
}

#[test]
fn newer_stable_accepts_tags_without_a_prefix_and_rejects_bad_current_versions() {
    assert_eq!(newer_stable("2.0.1", "1.99.0"), Some("2.0.1".into()));
    assert_eq!(newer_stable("v2.0.1+build.7", "2.0.0"), Some("2.0.1".into()));
    assert_eq!(newer_stable("v2.0.1", "not a version"), None);
    assert_eq!(newer_stable("vv2.0.1", "1.0.0"), None);
}

#[test]
fn stable_upgrade_compares_by_precedence() {
    assert_eq!(stable_upgrade((1, 2, 3, ""), (1, 2, 2, "")), Some("1.2.3".into()));
    assert_eq!(stable_upgrade((1, 2, 3, ""), (1, 2, 3, "rc.1")), Some("1.2.3".into()));
    assert_eq!(stable_upgrade((1, 2, 3, ""), (1, 2, 3, "")), None);
    assert_eq!(stable_upgrade((1, 2, 3, "beta"), (0, 0, 1, "")), None);
    assert_eq!(stable_upgrade((1, 0, 0, ""), (1, 10, 0, "")), None);
    assert_eq!(stable_upgrade((10, 0, 0, ""), (9, 99, 99, "")), Some("10.0.0".into()));
}

#[test]
fn a_draft_clears_the_cached_tag_and_a_clock_that_went_back_is_not_due() {
    let mut cache = Cache { checked_at: Some(1000), tag: Some("v1.0.0".into()) };
    assert!(!cache.due(500));
    assert!(cache.due(1000 + CHECK_INTERVAL));
    cache.record(2000, Ok(Release { tag_name: "v1.1.0".into(), prerelease: false, draft: true }));
    assert_eq!(cache.checked_at, Some(2000));
    assert_eq!(cache.tag, None);
}
