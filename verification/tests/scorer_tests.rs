use cargo_health::{
    compute_days_since_update, compute_download_score, compute_update_score, score_dependency,
    score_from_signals, CrateInfo, HealthCategory,
};
use chrono::Utc;

const HEALTHY_THRESHOLD: u32 = 60;
const WARNING_THRESHOLD: u32 = 30;

#[test]
fn test_healthy_score() {
    let info = CrateInfo {
        name: "popular-crate".to_string(),
        updated_at: Utc::now().to_rfc3339(),
        downloads: 5_000_000,
        repository: Some("https://github.com/example/repo".to_string()),
        description: Some("A popular crate".to_string()),
        max_version: "1.0.0".to_string(),
    };
    let score = score_dependency(&info);
    assert_eq!(score.category, HealthCategory::Healthy);
    assert!(score.score >= HEALTHY_THRESHOLD);
    assert!(score.has_repository);
}

#[test]
fn test_critical_score_old_no_repo() {
    let info = CrateInfo {
        name: "abandoned-crate".to_string(),
        updated_at: "2020-01-01T00:00:00Z".to_string(),
        downloads: 50,
        repository: None,
        description: None,
        max_version: "0.0.1".to_string(),
    };
    let score = score_dependency(&info);
    assert_eq!(score.category, HealthCategory::Critical);
    assert!(score.score < WARNING_THRESHOLD);
    assert!(!score.has_repository);
}

#[test]
fn test_warning_score() {
    // Moderately old, decent downloads, has repo
    let info = CrateInfo {
        name: "moderate-crate".to_string(),
        updated_at: "2025-01-01T00:00:00Z".to_string(),
        downloads: 10_000,
        repository: Some("https://github.com/example/repo".to_string()),
        description: Some("A moderate crate".to_string()),
        max_version: "0.5.0".to_string(),
    };
    let score = score_dependency(&info);
    // This should be in warning or healthy range depending on exact date
    assert!(score.score > 0);
}

#[test]
fn test_update_score_recent() {
    assert_eq!(compute_update_score(0), 50);
    assert_eq!(compute_update_score(45), 50);
    assert_eq!(compute_update_score(90), 50);
}

#[test]
fn test_update_score_old() {
    assert_eq!(compute_update_score(730), 0);
    assert_eq!(compute_update_score(1000), 0);
}

#[test]
fn test_update_score_mid() {
    let score = compute_update_score(410); // Midpoint of 90-730
    assert!(score > 0);
    assert!(score < 50);
}

#[test]
fn test_download_score_zero() {
    assert_eq!(compute_download_score(0), 0);
}

#[test]
fn test_download_score_million() {
    assert_eq!(compute_download_score(1_000_000), 30);
}

#[test]
fn test_download_score_scaling() {
    let low = compute_download_score(100);
    let mid = compute_download_score(10_000);
    let high = compute_download_score(1_000_000);
    assert!(low < mid);
    assert!(mid < high);
}

#[test]
fn test_repo_contributes_20_points() {
    let mut info = CrateInfo {
        name: "test".to_string(),
        updated_at: Utc::now().to_rfc3339(),
        downloads: 1_000_000,
        repository: None,
        description: None,
        max_version: "1.0.0".to_string(),
    };
    let without_repo = score_dependency(&info);

    info.repository = Some("https://github.com/test/test".to_string());
    let with_repo = score_dependency(&info);

    assert_eq!(with_repo.score - without_repo.score, 20);
}

#[test]
fn test_negative_days_handled() {
    assert_eq!(compute_update_score(-5), 50);
}

#[test]
fn test_unparseable_date_defaults_to_old() {
    let days = compute_days_since_update("not-a-date");
    assert_eq!(days, 999);
}

#[test]
fn test_category_boundaries() {
    // Exact boundary tests
    let info_healthy = CrateInfo {
        name: "test".to_string(),
        updated_at: Utc::now().to_rfc3339(),
        downloads: 1_000_000,
        repository: Some("https://github.com/t/t".to_string()),
        description: None,
        max_version: "1.0.0".to_string(),
    };
    assert_eq!(
        score_dependency(&info_healthy).category,
        HealthCategory::Healthy
    );
}

fn float_update_score(days: i64) -> u32 {
    if days < 0 {
        return 50;
    }
    if days <= 90 {
        50
    } else if days >= 730 {
        0
    } else {
        let remaining = 730 - days;
        let range = 730 - 90;
        ((remaining as f64 / range as f64) * 50.0) as u32
    }
}

fn float_download_score(downloads: u64) -> u32 {
    if downloads == 0 {
        return 0;
    }
    let log_downloads = (downloads as f64).log10();
    let score = (log_downloads / 6.0) * 30.0;
    score.min(30.0) as u32
}

#[test]
fn update_score_agrees_with_float_formula() {
    for days in -1_000..2_000i64 {
        assert_eq!(compute_update_score(days), float_update_score(days), "days = {}", days);
    }
    for days in [i64::MIN, i64::MIN + 1, -1, i64::MAX] {
        assert_eq!(compute_update_score(days), float_update_score(days));
    }
}

#[test]
fn update_score_exact_values() {
    assert_eq!(compute_update_score(91), 49);
    assert_eq!(compute_update_score(410), 25);
    assert_eq!(compute_update_score(717), 1);
    assert_eq!(compute_update_score(718), 0);
    assert_eq!(compute_update_score(729), 0);
}

#[test]
fn download_score_agrees_with_float_formula() {
    for d in 0..=2_000_000u64 {
        assert_eq!(compute_download_score(d), float_download_score(d), "downloads = {}", d);
    }
    for d in [u64::MAX, 1u64 << 40, 10_000_000_000] {
        assert_eq!(compute_download_score(d), float_download_score(d));
    }
}

#[test]
fn download_score_exact_values() {
    assert_eq!(compute_download_score(1), 0);
    assert_eq!(compute_download_score(9), 4);
    assert_eq!(compute_download_score(10), 5);
    assert_eq!(compute_download_score(50), 8);
    assert_eq!(compute_download_score(100), 10);
    assert_eq!(compute_download_score(999_999), 29);
}

#[test]
fn score_from_signals_adds_the_three_parts() {
    let s = score_from_signals(0, 1_000_000, true);
    assert_eq!(s.score, 100);
    assert_eq!(s.category, HealthCategory::Healthy);
    let s = score_from_signals(410, 10_000, false);
    assert_eq!(s.score, 25 + 20);
    assert_eq!(s.category, HealthCategory::Warning);
    assert_eq!(s.days_since_update, 410);
    assert_eq!(s.downloads, 10_000);
    assert!(!s.has_repository);
    let s = score_from_signals(999, 50, false);
    assert_eq!(s.score, 8);
    assert_eq!(s.category, HealthCategory::Critical);
}

#[test]
fn category_thresholds_are_sixty_and_thirty() {
    // 30 (downloads) + 30 via update: days where update gives 30 exist? use repo
    let s = score_from_signals(1_000, 1_000_000, true);
    assert_eq!(s.score, 50);
    assert_eq!(s.category, HealthCategory::Warning);
    let s = score_from_signals(1_000, 1_000_000, false);
    assert_eq!(s.score, 30);
    assert_eq!(s.category, HealthCategory::Warning);
    let s = score_from_signals(1_000, 999_999, false);
    assert_eq!(s.score, 29);
    assert_eq!(s.category, HealthCategory::Critical);
    let s = score_from_signals(0, 1, false);
    assert_eq!(s.score, 50);
    let s = score_from_signals(0, 100, false);
    assert_eq!(s.score, 60);
    assert_eq!(s.category, HealthCategory::Healthy);
}

#[test]
fn rfc3339_dates_give_days_from_now() {
    let now = Utc::now();
    assert_eq!(compute_days_since_update(&now.to_rfc3339()), 0);
    let ten_days_ago = now - chrono::Duration::days(10);
    assert_eq!(compute_days_since_update(&ten_days_ago.to_rfc3339()), 10);
    assert_eq!(compute_days_since_update(""), 999);
}
