//! Health scoring of a dependency from its maintenance signals.
use vstd::prelude::*;

use chrono::{DateTime, Utc};

use crate::api::CrateInfo;

verus! {

/// Health categories for dependencies.
#[derive(Debug, Clone, Copy, PartialEq, Eq, Structural)]
pub enum HealthCategory {
    Healthy,
    Warning,
    Critical,
}

/// A health score for a single dependency.
#[derive(Debug, Clone, Copy)]
pub struct HealthScore {
    /// Overall score from 0 (worst) to 100 (best).
    pub score: u32,
    /// The health category based on score thresholds.
    pub category: HealthCategory,
    /// Days since the crate was last updated.
    pub days_since_update: i64,
    /// Total download count.
    pub downloads: u64,
    /// Whether the crate has a repository URL.
    pub has_repository: bool,
}

/// Points for update recency: full 50 within 90 days (or for a date in the
/// future), nothing from 730 days on, and in between the share of 50 that the
/// remaining days make of the 640-day window, rounded down.
pub open spec fn update_points(days: int) -> int {
    if days <= 90 {
        50
    } else if days >= 730 {
        0
    } else {
        (730 - days) * 50 / 640
    }
}

/// Score based on recency of updates (0-50 points).
/// Full score within 90 days, linear decay to 0 at 730 days.
pub fn compute_update_score(days: i64) -> (points: u32)
    ensures
        points == update_points(days as int),
        points <= 50,
{
    if days < 0 {
        return 50;
    }
    if days <= 90 {
        50
    } else if days >= 730 {
        0
    } else {
        let remaining: i64 = 730 - days;
        (remaining * 50 / 640) as u32
    }
}

/// `10^k`.
pub open spec fn ten_to(k: nat) -> nat
    decreases k,
{
    if k == 0 {
        1
    } else {
        10 * ten_to((k - 1) as nat)
    }
}

/// The largest `k` in `from..=30` with `10^k <= p`, for `10^from <= p`.
pub open spec fn capped_log10_from(p: nat, from: nat) -> nat
    decreases 30 - from,
{
    if from < 30 && ten_to(from + 1) <= p {
        capped_log10_from(p, from + 1)
    } else {
        from
    }
}

/// Points for downloads: `5 * log10(downloads)` rounded down and capped at
/// 30, which is `30 * log10(downloads) / 6`; the largest `k <= 30` with
/// `10^k <= downloads^5`; none for no downloads.
pub open spec fn download_points(downloads: nat) -> nat {
    if downloads == 0 {
        0
    } else {
        capped_log10_from(downloads * downloads * downloads * downloads * downloads, 0)
    }
}

/// Points for a linked repository.
pub open spec fn repository_points(has_repository: bool) -> int {
    if has_repository {
        20
    } else {
        0
    }
}

/// The overall score of a dependency from its three signals.
pub open spec fn total_points(days: int, downloads: nat, has_repository: bool) -> int {
    update_points(days) + download_points(downloads) + repository_points(has_repository)
}

/// Score thresholds for categorization: healthy from 60, warning from 30.
pub open spec fn category_for(score: int) -> HealthCategory {
    if score >= 60 {
        HealthCategory::Healthy
    } else if score >= 30 {
        HealthCategory::Warning
    } else {
        HealthCategory::Critical
    }
}

proof fn lemma_ten_to_monotone(j: nat, k: nat)
    requires
        j <= k,
    ensures
        1 <= ten_to(j) <= ten_to(k),
    decreases k,
{
    if j < k {
        lemma_ten_to_monotone(j, (k - 1) as nat);
    } else if j > 0 {
        lemma_ten_to_monotone((j - 1) as nat, (j - 1) as nat);
    }
}

/// What `capped_log10_from` finds: the largest such `k`.
proof fn lemma_capped_log10_is_largest(p: nat, from: nat)
    requires
        from <= 30,
        ten_to(from) <= p,
    ensures
        from <= capped_log10_from(p, from) <= 30,
        ten_to(capped_log10_from(p, from)) <= p,
        capped_log10_from(p, from) < 30 ==> p < ten_to(capped_log10_from(p, from) + 1),
    decreases 30 - from,
{
    if from < 30 && ten_to(from + 1) <= p {
        lemma_capped_log10_is_largest(p, from + 1);
    }
}

proof fn lemma_capped_log10_monotone(p: nat, q: nat, from: nat)
    requires
        p <= q,
        from <= 30,
    ensures
        capped_log10_from(p, from) <= capped_log10_from(q, from),
    decreases 30 - from,
{
    if from < 30 && ten_to(from + 1) <= p {
        lemma_capped_log10_monotone(p, q, from + 1);
    } else if from < 30 && ten_to(from + 1) <= q {
        lemma_capped_log10_from_at_least(q, from + 1);
    }
}

proof fn lemma_capped_log10_from_at_least(p: nat, from: nat)
    requires
        from <= 30,
    ensures
        capped_log10_from(p, from) >= from,
    decreases 30 - from,
{
    if from < 30 && ten_to(from + 1) <= p {
        lemma_capped_log10_from_at_least(p, from + 1);
    }
}

proof fn lemma_capped_log10_full(p: nat, from: nat)
    requires
        from <= 30,
        ten_to(30) <= p,
    ensures
        capped_log10_from(p, from) == 30,
    decreases 30 - from,
{
    if from < 30 {
        lemma_ten_to_monotone(from + 1, 30);
        lemma_capped_log10_full(p, from + 1);
    }
}

proof fn lemma_ten_to_constants()
    ensures
        ten_to(1) == 10,
        ten_to(30) == 1_000_000_000_000_000_000_000_000_000_000,
        ten_to(31) == 10_000_000_000_000_000_000_000_000_000_000,
{
    reveal_with_fuel(ten_to, 32);
}

/// Score based on download count (0-30 points).
/// Uses logarithmic scaling: 30 points at 1M+.
pub fn compute_download_score(downloads: u64) -> (points: u32)
    ensures
        points == download_points(downloads as nat),
        points <= 30,
{
    if downloads == 0 {
        return 0;
    }
    let ghost d = downloads as nat;
    let ghost p5 = d * d * d * d * d;
    proof {
        lemma_ten_to_constants();
        assert(ten_to(0) == 1);
        assert(1 <= p5) by (nonlinear_arith)
            requires
                d >= 1,
                p5 == d * d * d * d * d,
        ;
        lemma_capped_log10_is_largest(p5, 0);
    }
    if downloads >= 1_000_000 {
        proof {
            assert(p5 >= 1_000_000_000_000_000_000_000_000_000_000) by (nonlinear_arith)
                requires
                    d >= 1_000_000,
                    p5 == d * d * d * d * d,
            ;
            lemma_capped_log10_full(p5, 0);
        }
        return 30;
    }
    let x = downloads as u128;
    assert(x * x < 1_000_000_000_000) by (nonlinear_arith)
        requires
            x < 1_000_000,
    ;
    let x2 = x * x;
    assert(x2 * x < 1_000_000_000_000_000_000) by (nonlinear_arith)
        requires
            x < 1_000_000,
            x2 < 1_000_000_000_000,
    ;
    let x3 = x2 * x;
    assert(x3 * x < 1_000_000_000_000_000_000_000_000) by (nonlinear_arith)
        requires
            x < 1_000_000,
            x3 < 1_000_000_000_000_000_000,
    ;
    let x4 = x3 * x;
    assert(x4 * x < 1_000_000_000_000_000_000_000_000_000_000) by (nonlinear_arith)
        requires
            x < 1_000_000,
            x4 < 1_000_000_000_000_000_000_000_000,
    ;
    let p = x4 * x;
    let mut k: u32 = 0;
    let mut next: u128 = 10;
    while k < 30 && next <= p
        invariant
            p == p5,
            k <= 30,
            next == ten_to((k + 1) as nat),
            next <= 10_000_000_000_000_000_000_000_000_000_000,
            capped_log10_from(p5, 0) == capped_log10_from(p5, k as nat),
        decreases 30 - k,
    {
        proof {
            lemma_ten_to_monotone((k + 2) as nat, 31);
            lemma_ten_to_constants();
        }
        k = k + 1;
        next = next * 10;
    }
    k
}

/// The score of a dependency whose last update was `days_since_update` days
/// ago, with `downloads` downloads and with or without a repository URL.
pub fn score_from_signals(days_since_update: i64, downloads: u64, has_repository: bool) -> (health: HealthScore)
    ensures
        health.score == total_points(days_since_update as int, downloads as nat, has_repository),
        health.category == category_for(health.score as int),
        health.category == HealthCategory::Healthy <==> health.score >= 60,
        health.category == HealthCategory::Warning <==> 30 <= health.score < 60,
        health.category == HealthCategory::Critical <==> health.score < 30,
        health.days_since_update == days_since_update,
        health.downloads == downloads,
        health.has_repository == has_repository,
{
    let update_score = compute_update_score(days_since_update);
    let download_score = compute_download_score(downloads);
    let repo_score: u32 = if has_repository { 20 } else { 0 };

    let score = update_score + download_score + repo_score;

    let category = if score >= 60 {
        HealthCategory::Healthy
    } else if score >= 30 {
        HealthCategory::Warning
    } else {
        HealthCategory::Critical
    };

    HealthScore { score, category, days_since_update, downloads, has_repository }
}

/// The whole days, rounded toward zero, that chrono counts from the instant it
/// reads in the RFC 3339 text `text` to the instant `now` (nanoseconds since
/// the Unix epoch, UTC); none when chrono does not read the text as RFC 3339.
pub uninterp spec fn rfc3339_days_until(text: Seq<char>, now: int) -> Option<int>;

/// Whether chrono reads the text as an RFC 3339 date and time (whether it
/// does depends on the text alone, not on the instant it is measured to).
pub open spec fn is_rfc3339(text: Seq<char>) -> bool {
    rfc3339_days_until(text, 0) is Some
}

/// `chrono::DateTime::parse_from_rfc3339`, then `chrono::Utc::now`, the
/// subtraction of the two instants in UTC and `TimeDelta::num_days`, with the
/// clock reading as `DateTime::timestamp` and `timestamp_subsec_nanos` give
/// it: the whole days (rounded toward zero) from the moment the text names to
/// now, and the instant that counted as now. It gives them exactly on the
/// texts that chrono reads as RFC 3339; the days are those that chrono counts
/// from the text's instant to the returned clock reading. Which instant the
/// clock gives is not stated (chrono panics on a clock set before 1970).
#[verifier::external_body]
fn days_from_rfc3339_to_now(text: &str) -> (measured: Option<(i64, i64, u32)>)
    ensures
        measured is Some <==> is_rfc3339(text@),
        measured matches Some(m) ==> rfc3339_days_until(text@, m.1 * 1_000_000_000 + m.2)
            == Some(m.0 as int),
{
    match DateTime::parse_from_rfc3339(text) {
        Ok(dt) => {
            let now = Utc::now();
            let days = (now - dt.with_timezone(&Utc)).num_days();
            Some((days, now.timestamp(), now.timestamp_subsec_nanos()))
        },
        Err(_) => None,
    }
}

/// Compute days since the last update from an ISO 8601 timestamp string:
/// the whole days from that moment to now, or 999 (very old) when the text
/// is not an RFC 3339 date and time.
pub fn compute_days_since_update(updated_at: &str) -> (days: i64)
    ensures
        !is_rfc3339(updated_at@) ==> days == 999,
        is_rfc3339(updated_at@) ==> exists|now: int|
            #[trigger] rfc3339_days_until(updated_at@, now) == Some(days as int),
{
    match days_from_rfc3339_to_now(updated_at) {
        Some(measured) => {
            assert(rfc3339_days_until(updated_at@, measured.1 * 1_000_000_000 + measured.2) == Some(
                measured.0 as int,
            ));
            measured.0
        },
        None => 999,
    }
}

/// Compute a health score for a dependency based on its crates.io metadata.
///
/// Scoring breakdown (total 100 points):
/// - **Update recency (50 points):** Full score if updated within 90 days,
///   linearly decreasing to 0 at 730 days (2 years).
/// - **Downloads (30 points):** Logarithmic scale. 30 points at 1M+ downloads,
///   scaled down for fewer.
/// - **Repository (20 points):** 20 if present, 0 if absent.
pub fn score_dependency(info: &CrateInfo) -> (health: HealthScore)
    ensures
        health.score == total_points(
            health.days_since_update as int,
            info.downloads as nat,
            info.repository is Some,
        ),
        health.category == category_for(health.score as int),
        health.category == HealthCategory::Healthy <==> health.score >= 60,
        health.category == HealthCategory::Warning <==> 30 <= health.score < 60,
        health.category == HealthCategory::Critical <==> health.score < 30,
        health.downloads == info.downloads,
        health.has_repository == info.repository is Some,
        !is_rfc3339(info.updated_at@) ==> health.days_since_update == 999,
        is_rfc3339(info.updated_at@) ==> exists|now: int|
            #[trigger] rfc3339_days_until(info.updated_at@, now) == Some(
                health.days_since_update as int,
            ),
{
    let days_since_update = compute_days_since_update(info.updated_at.as_str());
    let has_repository = info.repository.is_some();
    score_from_signals(days_since_update, info.downloads, has_repository)
}

proof fn lemma_capped_log10_at_most_thirty(p: nat, from: nat)
    requires
        from <= 30,
    ensures
        capped_log10_from(p, from) <= 30,
    decreases 30 - from,
{
    if from < 30 && ten_to(from + 1) <= p {
        lemma_capped_log10_at_most_thirty(p, from + 1);
    }
}

proof fn lemma_fifth_power_monotone(m: nat, n: nat)
    requires
        m <= n,
    ensures
        m * m * m * m * m <= n * n * n * n * n,
{
    assert(m * m <= n * n) by (nonlinear_arith)
        requires
            m <= n,
    ;
    assert(m * m * m <= n * n * n) by (nonlinear_arith)
        requires
            m <= n,
            m * m <= n * n,
    ;
    assert(m * m * m * m <= n * n * n * n) by (nonlinear_arith)
        requires
            m <= n,
            m * m * m <= n * n * n,
    ;
    assert(m * m * m * m * m <= n * n * n * n * n) by (nonlinear_arith)
        requires
            m <= n,
            m * m * m * m <= n * n * n * n,
    ;
}

/// Each part of the score stays within its share (50 for recency, 30 for
/// downloads, 20 for a repository), so the score stays within 0 to 100.
pub proof fn law_score_within_bounds(days: int, downloads: nat, has_repository: bool)
    ensures
        0 <= update_points(days) <= 50,
        0 <= download_points(downloads) <= 30,
        0 <= repository_points(has_repository) <= 20,
        0 <= total_points(days, downloads, has_repository) <= 100,
{
    lemma_capped_log10_at_most_thirty(
        downloads * downloads * downloads * downloads * downloads,
        0,
    );
    if 90 < days < 730 {
        assert(0 <= (730 - days) * 50 / 640 <= 50) by (nonlinear_arith)
            requires
                90 < days < 730,
        ;
    }
}

/// A linked repository adds exactly 20 points, whatever the other signals.
pub proof fn law_repository_adds_twenty_points(days: int, downloads: nat)
    ensures
        total_points(days, downloads, true) == total_points(days, downloads, false) + 20,
{
}

/// Recency points never grow with the age of the last update.
pub proof fn law_update_points_never_grow_with_age(days: int, older: int)
    requires
        days <= older,
    ensures
        update_points(older) <= update_points(days),
{
    law_score_within_bounds(days, 0, false);
    law_score_within_bounds(older, 0, false);
    if 90 < days && older < 730 {
        assert((730 - older) * 50 / 640 <= (730 - days) * 50 / 640) by (nonlinear_arith)
            requires
                days <= older,
                older < 730,
        ;
    }
}

/// Full recency points exactly for an update within 90 days (a date in the
/// future included), and none from 730 days on.
pub proof fn law_full_update_points_within_ninety_days(days: int)
    ensures
        update_points(days) == 50 <==> days <= 90,
        days >= 730 ==> update_points(days) == 0,
{
    if 90 < days < 730 {
        assert((730 - days) * 50 / 640 < 50) by (nonlinear_arith)
            requires
                90 < days < 730,
        ;
    }
}

/// Download points never shrink as the downloads grow.
pub proof fn law_download_points_never_shrink(downloads: nat, more: nat)
    requires
        downloads <= more,
    ensures
        download_points(downloads) <= download_points(more),
{
    if downloads > 0 {
        lemma_fifth_power_monotone(downloads, more);
        lemma_capped_log10_monotone(
            downloads * downloads * downloads * downloads * downloads,
            more * more * more * more * more,
            0,
        );
    }
}

/// The full 30 download points exactly from a million downloads on.
pub proof fn law_full_download_points_from_a_million(downloads: nat)
    ensures
        download_points(downloads) == 30 <==> downloads >= 1_000_000,
{
    lemma_ten_to_constants();
    let d = downloads;
    let p5 = d * d * d * d * d;
    if d >= 1_000_000 {
        assert(p5 >= 1_000_000_000_000_000_000_000_000_000_000) by (nonlinear_arith)
            requires
                d >= 1_000_000,
                p5 == d * d * d * d * d,
        ;
        lemma_capped_log10_full(p5, 0);
    } else if d > 0 {
        lemma_fifth_power_monotone(d, 999_999);
        assert(ten_to(0) == 1);
        assert(1 <= p5) by (nonlinear_arith)
            requires
                d >= 1,
                p5 == d * d * d * d * d,
        ;
        lemma_capped_log10_is_largest(p5, 0);
    }
}

/// The description of the download points: for a crate with downloads, the
/// points are the largest `k <= 30` with `10^k <= downloads^5`, which is
/// `5 * log10(downloads)` rounded down and capped at 30.
pub proof fn law_download_points_are_capped_log(downloads: nat)
    requires
        downloads >= 1,
    ensures
        download_points(downloads) <= 30,
        ten_to(download_points(downloads)) <= downloads * downloads * downloads * downloads
            * downloads,
        download_points(downloads) < 30 ==> downloads * downloads * downloads * downloads
            * downloads < ten_to(download_points(downloads) + 1),
{
    let d = downloads;
    assert(ten_to(0) == 1);
    assert(1 <= d * d * d * d * d) by (nonlinear_arith)
        requires
            d >= 1,
    ;
    lemma_capped_log10_is_largest(d * d * d * d * d, 0);
}

/// A newer update, at least as many downloads and a repository where the
/// other has one never give a lower score.
pub proof fn law_better_signals_never_score_lower(
    days: int,
    downloads: nat,
    has_repository: bool,
    newer_days: int,
    more_downloads: nat,
    now_has_repository: bool,
)
    requires
        newer_days <= days,
        downloads <= more_downloads,
        has_repository ==> now_has_repository,
    ensures
        total_points(days, downloads, has_repository) <= total_points(
            newer_days,
            more_downloads,
            now_has_repository,
        ),
{
    law_update_points_never_grow_with_age(newer_days, days);
    law_download_points_never_shrink(downloads, more_downloads);
}

/// The category follows the score: a higher score never has a worse category.
pub proof fn law_category_follows_score(score: int, higher: int)
    requires
        score <= higher,
    ensures
        category_for(score) == HealthCategory::Healthy ==> category_for(higher)
            == HealthCategory::Healthy,
        category_for(higher) == HealthCategory::Critical ==> category_for(score)
            == HealthCategory::Critical,
{
}

/// The category thresholds: HEALTHY from a score of 60, WARNING from 30 to
/// 59, CRITICAL below 30.
pub proof fn law_category_thresholds(score: int)
    ensures
        category_for(score) == HealthCategory::Healthy <==> score >= 60,
        category_for(score) == HealthCategory::Warning <==> 30 <= score < 60,
        category_for(score) == HealthCategory::Critical <==> score < 30,
{
}

/// Between 90 and 730 days the recency points decay linearly: they are the
/// whole part of 50 times the share of the 640-day window still remaining.
pub proof fn law_update_points_decay_linearly(days: int)
    requires
        90 < days < 730,
    ensures
        640 * update_points(days) <= 50 * (730 - days) < 640 * (update_points(days) + 1),
{
    let p = (730 - days) * 50 / 640;
    assert(640 * p <= 50 * (730 - days) < 640 * (p + 1)) by (nonlinear_arith)
        requires
            p == (730 - days) * 50 / 640,
            90 < days < 730,
    ;
}

} // verus!
