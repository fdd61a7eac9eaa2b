use cargo_health::format_downloads;

#[test]
fn test_format_downloads_small() {
    assert_eq!(format_downloads(42), "42");
    assert_eq!(format_downloads(999), "999");
}

#[test]
fn test_format_downloads_thousands() {
    assert_eq!(format_downloads(1_000), "1.0K");
    assert_eq!(format_downloads(15_500), "15.5K");
}

#[test]
fn test_format_downloads_millions() {
    assert_eq!(format_downloads(1_000_000), "1.0M");
    assert_eq!(format_downloads(2_500_000), "2.5M");
}

fn float_text(downloads: u64) -> String {
    if downloads >= 1_000_000 {
        format!("{:.1}M", downloads as f64 / 1_000_000.0)
    } else if downloads >= 1_000 {
        format!("{:.1}K", downloads as f64 / 1_000.0)
    } else {
        downloads.to_string()
    }
}

#[test]
fn format_downloads_zero_and_boundaries() {
    assert_eq!(format_downloads(0), "0");
    assert_eq!(format_downloads(1), "1");
    assert_eq!(format_downloads(999_999), "1000.0K");
    assert_eq!(format_downloads(999_949), "999.9K");
    assert_eq!(format_downloads(u64::MAX), "18446744073709.6M");
}

#[test]
fn format_downloads_rounds_ties_as_binary64_does() {
    // 1.05 and 1.15 are not binary64 values: the quotient lies just above
    // and just below the tie; 1.25 is one, and the tie goes to even.
    assert_eq!(format_downloads(1_050), "1.1K");
    assert_eq!(format_downloads(1_150), "1.1K");
    assert_eq!(format_downloads(1_250), "1.2K");
    assert_eq!(format_downloads(1_350), "1.4K");
    assert_eq!(format_downloads(1_250_000), "1.2M");
}

#[test]
fn format_downloads_examples_of_the_readme() {
    assert_eq!(format_downloads(150_200_000), "150.2M");
    assert_eq!(format_downloads(45_300_000), "45.3M");
    assert_eq!(format_downloads(5_200), "5.2K");
    assert_eq!(format_downloads(120), "120");
}

#[test]
fn format_downloads_agrees_with_float_formatting_up_to_two_million() {
    for d in 0..2_000_000u64 {
        assert_eq!(format_downloads(d), float_text(d), "downloads = {}", d);
    }
}

#[test]
fn format_downloads_agrees_with_float_formatting_on_large_counts() {
    let mut x: u64 = 0x9E37_79B9_7F4A_7C15;
    for _ in 0..200_000 {
        x ^= x << 13;
        x ^= x >> 7;
        x ^= x << 17;
        for d in [x, x >> 11, x >> 23, x >> 35, (x >> 30) / 100_000 * 100_000 + 50_000] {
            assert_eq!(format_downloads(d), float_text(d), "downloads = {}", d);
        }
    }
    for k in 20..64u32 {
        let base: u64 = 1u64 << k;
        for j in 0..2_000u64 {
            for d in [base.wrapping_add(j * 7), base.wrapping_sub(j * 13)] {
                assert_eq!(format_downloads(d), float_text(d), "downloads = {}", d);
            }
        }
    }
}

use cargo_health::{
    has_critical, is_listed, repository_label, score_from_signals, tally, CategoryCounts, CrateInfo,
    Dependency, HealthCategory, HealthScore,
};

fn result(name: &str, score: HealthScore) -> (Dependency, CrateInfo, HealthScore) {
    (
        Dependency {
            name: name.to_string(),
            version: "1.0.0".to_string(),
            source: Some("registry+https://github.com/rust-lang/crates.io-index".to_string()),
        },
        CrateInfo {
            name: name.to_string(),
            updated_at: "2020-01-01T00:00:00Z".to_string(),
            downloads: score.downloads,
            repository: None,
            description: None,
            max_version: "1.0.0".to_string(),
        },
        score,
    )
}

#[test]
fn category_labels() {
    assert_eq!(HealthCategory::Healthy.label(), "HEALTHY");
    assert_eq!(HealthCategory::Warning.label(), "WARNING");
    assert_eq!(HealthCategory::Critical.label(), "CRITICAL");
}

#[test]
fn repository_labels() {
    assert_eq!(repository_label(true), "repo");
    assert_eq!(repository_label(false), "no repo");
}

#[test]
fn warn_only_hides_exactly_the_healthy() {
    assert!(!is_listed(HealthCategory::Healthy, true));
    assert!(is_listed(HealthCategory::Warning, true));
    assert!(is_listed(HealthCategory::Critical, true));
    assert!(is_listed(HealthCategory::Healthy, false));
    assert!(is_listed(HealthCategory::Warning, false));
    assert!(is_listed(HealthCategory::Critical, false));
}

#[test]
fn tally_counts_each_category() {
    let results = vec![
        result("serde", score_from_signals(12, 150_200_000, true)),
        result("clap", score_from_signals(30, 45_300_000, true)),
        result("old-crate", score_from_signals(400, 5_200, false)),
        result("abandoned", score_from_signals(900, 120, false)),
    ];
    assert_eq!(results[0].2.category, HealthCategory::Healthy);
    assert_eq!(results[2].2.category, HealthCategory::Warning);
    assert_eq!(results[3].2.category, HealthCategory::Critical);
    assert_eq!(tally(&results), CategoryCounts { healthy: 2, warning: 1, critical: 1 });
    assert!(has_critical(&results));
    assert!(!has_critical(&results[..3]));
    assert_eq!(tally(&[]), CategoryCounts { healthy: 0, warning: 0, critical: 0 });
    assert!(!has_critical(&[]));
}
