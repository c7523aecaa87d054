use pwgen_rs::EntropyInfo;
use pwgen_rs::StrengthLevel;

#[test]
fn test_strength_very_weak() {
    let info = EntropyInfo::new(20000, "test");
    assert_eq!(info.strength(), StrengthLevel::VeryWeak);
}

#[test]
fn test_strength_weak() {
    let info = EntropyInfo::new(40000, "test");
    assert_eq!(info.strength(), StrengthLevel::Weak);
}

#[test]
fn test_strength_moderate() {
    let info = EntropyInfo::new(60000, "test");
    assert_eq!(info.strength(), StrengthLevel::Moderate);
}

#[test]
fn test_strength_strong() {
    let info = EntropyInfo::new(80000, "test");
    assert_eq!(info.strength(), StrengthLevel::Strong);
}

#[test]
fn test_strength_very_strong() {
    let info = EntropyInfo::new(120000, "test");
    assert_eq!(info.strength(), StrengthLevel::VeryStrong);
}

#[test]
fn test_percentage_capped() {
    let info = EntropyInfo::new(200000, "test");
    assert_eq!(info.percentage(), 100);
}

#[test]
fn test_percentage_half() {
    let info = EntropyInfo::new(64000, "test");
    assert_eq!(info.percentage(), 50);
}

#[test]
fn test_strength_labels() {
    assert_eq!(StrengthLevel::VeryWeak.label(), "Very Weak");
    assert_eq!(StrengthLevel::Strong.label(), "Strong");
}

#[test]
fn test_strength_emoji() {
    assert_eq!(StrengthLevel::VeryWeak.emoji(), "💀");
    assert_eq!(StrengthLevel::VeryStrong.emoji(), "🔒");
}

#[test]
fn test_strength_boundaries() {
    assert_eq!(EntropyInfo::new(24999, "test").strength(), StrengthLevel::VeryWeak);
    assert_eq!(EntropyInfo::new(25000, "test").strength(), StrengthLevel::Weak);
    assert_eq!(EntropyInfo::new(49999, "test").strength(), StrengthLevel::Weak);
    assert_eq!(EntropyInfo::new(50000, "test").strength(), StrengthLevel::Moderate);
    assert_eq!(EntropyInfo::new(75000, "test").strength(), StrengthLevel::Strong);
    assert_eq!(EntropyInfo::new(100000, "test").strength(), StrengthLevel::VeryStrong);
}

#[test]
fn test_percentage_zero() {
    assert_eq!(EntropyInfo::new(0, "test").percentage(), 0);
}

#[test]
fn test_log2_exact_powers() {
    assert_eq!(pwgen_rs::entropy::log2_milli(1, 1), 0);
    assert_eq!(pwgen_rs::entropy::log2_milli(2, 1), 1000);
    assert_eq!(pwgen_rs::entropy::log2_milli(1024, 1), 10000);
    assert_eq!(pwgen_rs::entropy::log2_milli(4, 2), 1000);
}

#[test]
fn test_log2_approximations() {
    // log2(10) = 3.3219, log2(62) = 5.9542, log2(86) = 6.4263.
    let l10 = pwgen_rs::entropy::log2_milli(10, 1);
    assert!(l10 >= 3315 && l10 <= 3325, "log2_milli(10) = {}", l10);
    let l62 = pwgen_rs::entropy::log2_milli(62, 1);
    assert!(l62 >= 5948 && l62 <= 5960, "log2_milli(62) = {}", l62);
    let l86 = pwgen_rs::entropy::log2_milli(86, 1);
    assert!(l86 >= 6420 && l86 <= 6432, "log2_milli(86) = {}", l86);
}
