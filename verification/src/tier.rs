//! Tier classification of assets by path: immutable registry and
//! toolchain content (tier 1) versus everything else (tier 2).
use vstd::prelude::*;
use vstd::string::StringSliceAdditionalSpecFns;
use vstd::utf8::encode_utf8;
use crate::bytes::{contains, contains_bytes, to_vec, prepend};
use crate::manifest::AssetTier;

verus! {

/// The path bytes as matched: a leading `/` is added when missing.
pub open spec fn normalized_for_match(b: Seq<u8>) -> Seq<u8> {
    if b.len() > 0 && b[0] == 0x2f { b } else { seq![0x2fu8] + b }
}

/// Tier of a path under tier-1 patterns `t1`: tier 1 if any pattern occurs
/// in the normalized path, tier 2 otherwise (tier-2 patterns are
/// informational and never change the outcome).
pub open spec fn classify_spec(t1: Seq<Seq<char>>, path: Seq<u8>) -> AssetTier {
    if exists|k: int| 0 <= k < t1.len() && contains_bytes(normalized_for_match(path), #[trigger] encode_utf8(t1[k])) {
        AssetTier::Tier1Immutable
    } else {
        AssetTier::Tier2Mutable
    }
}

/// The default tier-1 patterns.
pub open spec fn default_tier1_spec() -> Seq<Seq<char>> {
    seq![
        "node_modules/"@,
        ".cargo/registry/"@,
        ".rustup/"@,
        "/toolchains/"@,
        ".venv/lib/"@,
        "site-packages/"@,
        "/usr/lib/"@,
        "/usr/share/"@,
    ]
}

/// The default tier-2 patterns.
pub open spec fn default_tier2_spec() -> Seq<Seq<char>> {
    seq![
        "target/"@,
        "target/debug/"@,
        "target/release/"@,
        "dist/"@,
        "build/"@,
        ".next/"@,
        "__pycache__/"@,
        ".pytest_cache/"@,
        "*.egg-info/"@,
        ".cache/"@,
        "out/"@,
    ]
}

/// Configurable tier classifier.
#[derive(Debug, Clone)]
pub struct TierClassifier {
    tier1_patterns: Vec<String>,
    tier2_patterns: Vec<String>,
}

/// Views of a list of strings.
pub open spec fn string_views(v: Seq<String>) -> Seq<Seq<char>> {
    v.map_values(|s: String| s@)
}

fn strings_of(lits: &[&'static str]) -> (v: Vec<String>)
    ensures
        v@.len() == lits@.len(),
        forall|i: int| 0 <= i < lits@.len() ==> #[trigger] v@[i]@ == lits@[i]@,
{
    let mut v: Vec<String> = Vec::new();
    let mut i: usize = 0;
    while i < lits.len()
        invariant
            0 <= i <= lits@.len(),
            v@.len() == i,
            forall|j: int| 0 <= j < i ==> #[trigger] v@[j]@ == lits@[j]@,
        decreases lits@.len() - i,
    {
        v.push(String::from_str(lits[i]));
        i = i + 1;
    }
    v
}

impl TierClassifier {
    /// The tier-1 patterns.
    pub closed spec fn tier1(&self) -> Seq<Seq<char>> {
        string_views(self.tier1_patterns@)
    }

    /// The tier-2 patterns.
    pub closed spec fn tier2(&self) -> Seq<Seq<char>> {
        string_views(self.tier2_patterns@)
    }

    /// A classifier with custom patterns.
    pub fn new(tier1_patterns: Vec<String>, tier2_patterns: Vec<String>) -> (c: Self)
        ensures
            c.tier1() == string_views(tier1_patterns@),
            c.tier2() == string_views(tier2_patterns@),
    {
        TierClassifier { tier1_patterns, tier2_patterns }
    }

    /// Classify a path into its asset tier.
    pub fn classify(&self, path: &str) -> (t: AssetTier)
        ensures
            t == classify_spec(self.tier1(), path.spec_bytes()),
    {
        let pb = path.as_bytes();
        let normalized = if pb.len() > 0 && pb[0] == 0x2f {
            to_vec(pb)
        } else {
            prepend(0x2f, pb)
        };
        let ghost nb = normalized_for_match(path.spec_bytes());
        assert(normalized@ == nb);
        let ghost t1 = self.tier1();
        let mut k: usize = 0;
        while k < self.tier1_patterns.len()
            invariant
                normalized@ == nb,
                nb == normalized_for_match(path.spec_bytes()),
                t1 == self.tier1(),
                t1.len() == self.tier1_patterns@.len(),
                0 <= k <= t1.len(),
                forall|j: int| 0 <= j < k ==> !contains_bytes(nb, #[trigger] encode_utf8(t1[j])),
            decreases t1.len() - k,
        {
            let p = self.tier1_patterns[k].as_str();
            assert(t1[k as int] == p@);
            if contains(normalized.as_slice(), p.as_bytes()) {
                assert(contains_bytes(nb, encode_utf8(t1[k as int])));
                assert(exists|j: int| 0 <= j < t1.len() && contains_bytes(normalized_for_match(path.spec_bytes()), #[trigger] encode_utf8(t1[j])));
                return AssetTier::Tier1Immutable;
            }
            k = k + 1;
        }
        // Tier-2 patterns are informational: the default is tier 2 either way.
        assert(classify_spec(self.tier1(), path.spec_bytes()) == AssetTier::Tier2Mutable);
        let mut k2: usize = 0;
        while k2 < self.tier2_patterns.len()
            invariant
                classify_spec(self.tier1(), path.spec_bytes()) == AssetTier::Tier2Mutable,
                0 <= k2 <= self.tier2_patterns@.len(),
            decreases self.tier2_patterns@.len() - k2,
        {
            let p = self.tier2_patterns[k2].as_str();
            if contains(normalized.as_slice(), p.as_bytes()) {
                return AssetTier::Tier2Mutable;
            }
            k2 = k2 + 1;
        }
        AssetTier::Tier2Mutable
    }

    /// Whether a path is a candidate for tier-1 immutable storage.
    pub fn is_immutable_candidate(&self, path: &str) -> (r: bool)
        ensures
            r == (classify_spec(self.tier1(), path.spec_bytes()) == AssetTier::Tier1Immutable),
    {
        match self.classify(path) {
            AssetTier::Tier1Immutable => true,
            AssetTier::Tier2Mutable => false,
        }
    }
}

impl Default for TierClassifier {
    fn default() -> (c: Self)
        ensures
            c.tier1() == default_tier1_spec(),
            c.tier2() == default_tier2_spec(),
    {
        let t1 = strings_of(&["node_modules/", ".cargo/registry/", ".rustup/", "/toolchains/",
            ".venv/lib/", "site-packages/", "/usr/lib/", "/usr/share/"]);
        let t2 = strings_of(&["target/", "target/debug/", "target/release/", "dist/", "build/",
            ".next/", "__pycache__/", ".pytest_cache/", "*.egg-info/", ".cache/", "out/"]);
        let c = TierClassifier { tier1_patterns: t1, tier2_patterns: t2 };
        assert(c.tier1() =~= default_tier1_spec());
        assert(c.tier2() =~= default_tier2_spec());
        c
    }
}

/// Classify a path into its asset tier using the default patterns.
pub fn classify_tier(path: &str) -> (t: AssetTier)
    ensures
        t == classify_spec(default_tier1_spec(), path.spec_bytes()),
{
    TierClassifier::default().classify(path)
}

/// Whether a path is a tier-1 candidate under the default patterns.
pub fn is_immutable_candidate(path: &str) -> (r: bool)
    ensures
        r == (classify_spec(default_tier1_spec(), path.spec_bytes()) == AssetTier::Tier1Immutable),
{
    TierClassifier::default().is_immutable_candidate(path)
}

} // verus!
