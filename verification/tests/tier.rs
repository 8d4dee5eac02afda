use vrift::manifest::AssetTier;
use vrift::tier::{classify_tier, is_immutable_candidate, TierClassifier};

#[test]
fn test_node_modules_tier1() {
    assert_eq!(classify_tier("node_modules/@types/node/index.d.ts"), AssetTier::Tier1Immutable);
    assert_eq!(classify_tier("/project/node_modules/lodash/lodash.js"), AssetTier::Tier1Immutable);
}

#[test]
fn test_cargo_registry_tier1() {
    assert_eq!(classify_tier(".cargo/registry/cache/some-crate.crate"), AssetTier::Tier1Immutable);
}

#[test]
fn test_rustup_tier1() {
    assert_eq!(
        classify_tier(".rustup/toolchains/stable-x86_64-apple-darwin/lib/libstd.rlib"),
        AssetTier::Tier1Immutable
    );
}

#[test]
fn test_target_tier2() {
    assert_eq!(classify_tier("target/release/my-app"), AssetTier::Tier2Mutable);
    assert_eq!(classify_tier("target/debug/deps/libfoo.rlib"), AssetTier::Tier2Mutable);
}

#[test]
fn test_dist_tier2() {
    assert_eq!(classify_tier("dist/bundle.js"), AssetTier::Tier2Mutable);
}

#[test]
fn test_source_files_tier2() {
    assert_eq!(classify_tier("src/main.rs"), AssetTier::Tier2Mutable);
    assert_eq!(classify_tier("lib/utils.js"), AssetTier::Tier2Mutable);
}

#[test]
fn test_is_immutable_candidate() {
    assert!(is_immutable_candidate("node_modules/foo/index.js"));
    assert!(!is_immutable_candidate("target/release/app"));
    assert!(!is_immutable_candidate("src/main.rs"));
}

#[test]
fn test_tier_classification() {
    assert_eq!(AssetTier::default(), AssetTier::Tier2Mutable);
}

#[test]
fn test_custom_classifier() {
    let c = TierClassifier::new(vec!["/vendor/".to_string()], vec![]);
    assert_eq!(c.classify("/app/vendor/x.js"), AssetTier::Tier1Immutable);
    assert_eq!(c.classify("vendor/x.js"), AssetTier::Tier1Immutable);
    assert_eq!(c.classify("/app/src/x.js"), AssetTier::Tier2Mutable);
    assert!(c.is_immutable_candidate("vendor/y"));
}
