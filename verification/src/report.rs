//! The text and the tallies of the health report.
use vstd::prelude::*;

use crate::binary64::{
    binary64_div, binary64_of, lemma_tenths_of_exact_count, lemma_two_to_constants,
    lemma_two_to_monotone, lemma_two_to_product, scaled_tenths, tenths_of, two_to,
};
use crate::api::CrateInfo;
use crate::decimal::{decimal, decimal_string, digit_char, digit_str};
use crate::lockfile::Dependency;
use crate::scorer::{HealthCategory, HealthScore};

verus! {

/// A count of tenths shown with one decimal: `12.3` for 123.
pub open spec fn one_decimal(tenths: nat) -> Seq<char> {
    decimal(tenths / 10) + seq!['.', digit_char(tenths % 10)]
}

/// The text of a download count: the count itself below a thousand, else
/// the count divided by a thousand (`K`) or a million (`M`), as a binary64
/// quotient printed with one decimal.
pub open spec fn downloads_text(downloads: nat) -> Seq<char> {
    if downloads >= 1_000_000 {
        one_decimal(tenths_of(binary64_div(binary64_of(downloads), 1_000_000))).push('M')
    } else if downloads >= 1_000 {
        one_decimal(tenths_of(binary64_div(binary64_of(downloads), 1_000))).push('K')
    } else {
        decimal(downloads)
    }
}

/// Counts below a thousand show as they are; counts from a thousand to below
/// a million show in thousands, and counts from a million to below `2^53` in
/// millions, rounded to the nearest tenth. The one exception is a count
/// exactly halfway between two tenths: it goes the way the binary64 quotient
/// lies, which is the way `downloads_text` states.
pub proof fn law_downloads_shown_to_nearest_tenth(downloads: nat)
    ensures
        downloads < 1_000 ==> downloads_text(downloads) == decimal(downloads),
        1_000 <= downloads < 1_000_000 && downloads % 100 != 50 ==> downloads_text(downloads)
            == one_decimal((downloads + 50) / 100).push('K'),
        1_000_000 <= downloads < two_to(53) && downloads % 100_000 != 50_000 ==> downloads_text(
            downloads,
        ) == one_decimal((downloads + 50_000) / 100_000).push('M'),
{
    lemma_two_to_constants();
    reveal_with_fuel(two_to, 21);
    assert(two_to(10) == 1024);
    assert(two_to(20) == 0x10_0000);
    lemma_two_to_product(20, 14, 0x10_0000, two_to(14));
    assert(two_to(14) == 0x4000);
    lemma_two_to_monotone(10, 44);
    if 1_000 <= downloads < 1_000_000 && downloads % 100 != 50 {
        lemma_tenths_of_exact_count(downloads, 50, 10);
    }
    if 1_000_000 <= downloads < two_to(53) && downloads % 100_000 != 50_000 {
        lemma_tenths_of_exact_count(downloads, 50_000, 34);
    }
}

fn one_decimal_string(tenths: u64) -> (s: String)
    ensures
        s@ == one_decimal(tenths as nat),
{
    let mut s = decimal_string(tenths / 10);
    proof {
        reveal_strlit(".");
    }
    s.append(".");
    s.append(digit_str(tenths % 10));
    assert(s@ =~= one_decimal(tenths as nat));
    s
}

/// Format download count with K/M suffixes for readability.
pub fn format_downloads(downloads: u64) -> (text: String)
    ensures
        text@ == downloads_text(downloads as nat),
{
    if downloads >= 1_000_000 {
        let mut s = one_decimal_string(scaled_tenths(downloads, 1_000_000));
        proof {
            reveal_strlit("M");
        }
        s.append("M");
        assert(s@ =~= downloads_text(downloads as nat));
        s
    } else if downloads >= 1_000 {
        let mut s = one_decimal_string(scaled_tenths(downloads, 1_000));
        proof {
            reveal_strlit("K");
        }
        s.append("K");
        assert(s@ =~= downloads_text(downloads as nat));
        s
    } else {
        decimal_string(downloads)
    }
}

/// The name of a category as the report shows it.
pub open spec fn category_label(category: HealthCategory) -> Seq<char> {
    match category {
        HealthCategory::Healthy => "HEALTHY"@,
        HealthCategory::Warning => "WARNING"@,
        HealthCategory::Critical => "CRITICAL"@,
    }
}

impl HealthCategory {
    /// The name of the category as the report shows it.
    pub fn label(&self) -> (text: &'static str)
        ensures
            text@ == category_label(*self),
    {
        match self {
            HealthCategory::Healthy => "HEALTHY",
            HealthCategory::Warning => "WARNING",
            HealthCategory::Critical => "CRITICAL",
        }
    }
}

/// How the report marks whether a crate links a repository.
pub fn repository_label(has_repository: bool) -> (text: &'static str)
    ensures
        text@ == (if has_repository { "repo"@ } else { "no repo"@ }),
{
    if has_repository {
        "repo"
    } else {
        "no repo"
    }
}

/// Whether the report lists a dependency of this category: with `warn_only`
/// it leaves the healthy ones out.
pub fn is_listed(category: HealthCategory, warn_only: bool) -> (listed: bool)
    ensures
        listed == !(warn_only && category == HealthCategory::Healthy),
{
    !(warn_only && category == HealthCategory::Healthy)
}

/// The number of results, among the first `n`, that fall in `category`.
pub open spec fn count_in(
    results: Seq<(Dependency, CrateInfo, HealthScore)>,
    n: int,
    category: HealthCategory,
) -> nat
    decreases n,
{
    if n <= 0 {
        0
    } else {
        count_in(results, n - 1, category) + (if results[n - 1].2.category == category {
            1nat
        } else {
            0nat
        })
    }
}

/// The number of results of each category.
#[derive(Debug, Clone, Copy, PartialEq, Eq, Structural)]
pub struct CategoryCounts {
    pub healthy: u32,
    pub warning: u32,
    pub critical: u32,
}

proof fn lemma_counts_add_up(results: Seq<(Dependency, CrateInfo, HealthScore)>, n: int)
    requires
        0 <= n <= results.len(),
    ensures
        count_in(results, n, HealthCategory::Healthy) + count_in(results, n, HealthCategory::Warning)
            + count_in(results, n, HealthCategory::Critical) == n,
    decreases n,
{
    if n > 0 {
        lemma_counts_add_up(results, n - 1);
    }
}

/// Count the results of each category, as the summary of the report shows
/// them.
pub fn tally(results: &[(Dependency, CrateInfo, HealthScore)]) -> (counts: CategoryCounts)
    requires
        results@.len() <= u32::MAX,
    ensures
        counts.healthy == count_in(results@, results@.len() as int, HealthCategory::Healthy),
        counts.warning == count_in(results@, results@.len() as int, HealthCategory::Warning),
        counts.critical == count_in(results@, results@.len() as int, HealthCategory::Critical),
        counts.healthy + counts.warning + counts.critical == results@.len(),
        counts.healthy == results@.filter(|r: (Dependency, CrateInfo, HealthScore)| r.2.category
            == HealthCategory::Healthy).len(),
        counts.warning == results@.filter(|r: (Dependency, CrateInfo, HealthScore)| r.2.category
            == HealthCategory::Warning).len(),
        counts.critical == results@.filter(|r: (Dependency, CrateInfo, HealthScore)| r.2.category
            == HealthCategory::Critical).len(),
{
    let mut counts = CategoryCounts { healthy: 0, warning: 0, critical: 0 };
    let mut i: usize = 0;
    while i < results.len()
        invariant
            i <= results@.len() <= u32::MAX,
            counts.healthy == count_in(results@, i as int, HealthCategory::Healthy),
            counts.warning == count_in(results@, i as int, HealthCategory::Warning),
            counts.critical == count_in(results@, i as int, HealthCategory::Critical),
        decreases results@.len() - i,
    {
        proof {
            lemma_counts_add_up(results@, i as int);
        }
        match results[i].2.category {
            HealthCategory::Healthy => counts.healthy = counts.healthy + 1,
            HealthCategory::Warning => counts.warning = counts.warning + 1,
            HealthCategory::Critical => counts.critical = counts.critical + 1,
        }
        i = i + 1;
    }
    proof {
        lemma_counts_add_up(results@, i as int);
        law_count_is_filter_length(results@, results@.len() as int, HealthCategory::Healthy);
        law_count_is_filter_length(results@, results@.len() as int, HealthCategory::Warning);
        law_count_is_filter_length(results@, results@.len() as int, HealthCategory::Critical);
        assert(results@.take(results@.len() as int) =~= results@);
    }
    counts
}

/// Whether any result is critical, which makes the program fail.
pub fn has_critical(results: &[(Dependency, CrateInfo, HealthScore)]) -> (any: bool)
    ensures
        any == exists|i: int|
            0 <= i < results@.len() && #[trigger] results@[i].2.category
                == HealthCategory::Critical,
{
    let mut i: usize = 0;
    while i < results.len()
        invariant
            i <= results@.len(),
            forall|j: int| 0 <= j < i ==> #[trigger] results@[j].2.category != HealthCategory::Critical,
        decreases results@.len() - i,
    {
        if results[i].2.category == HealthCategory::Critical {
            return true;
        }
        i = i + 1;
    }
    false
}

/// The program fails exactly when the summary counts a critical dependency:
/// some result is critical if and only if the critical count is not zero.
pub proof fn law_critical_result_iff_critical_count(
    results: Seq<(Dependency, CrateInfo, HealthScore)>,
    n: int,
)
    requires
        0 <= n <= results.len(),
    ensures
        count_in(results, n, HealthCategory::Critical) > 0 <==> exists|i: int|
            0 <= i < n && #[trigger] results[i].2.category == HealthCategory::Critical,
    decreases n,
{
    if n > 0 {
        law_critical_result_iff_critical_count(results, n - 1);
        if results[n - 1].2.category == HealthCategory::Critical {
            assert(results[n - 1].2.category == HealthCategory::Critical);
        }
    }
}

/// What a category count counts: among the first `n` results, the number
/// of those in `category` is the length of the results of that category that
/// remain when the others are filtered out.
pub proof fn law_count_is_filter_length(
    results: Seq<(Dependency, CrateInfo, HealthScore)>,
    n: int,
    category: HealthCategory,
)
    requires
        0 <= n <= results.len(),
    ensures
        count_in(results, n, category) == results.take(n).filter(
            |r: (Dependency, CrateInfo, HealthScore)| r.2.category == category,
        ).len(),
    decreases n,
{
    let pred = |r: (Dependency, CrateInfo, HealthScore)| r.2.category == category;
    reveal(Seq::filter);
    if n == 0 {
        assert(results.take(0).len() == 0);
    } else {
        law_count_is_filter_length(results, n - 1, category);
        let prefix = results.take(n);
        assert(prefix.drop_last() =~= results.take(n - 1));
        assert(prefix.last() == results[n - 1]);
        assert(prefix.filter(pred) == if pred(prefix.last()) {
            prefix.drop_last().filter(pred).push(prefix.last())
        } else {
            prefix.drop_last().filter(pred)
        });
    }
}

/// Results all of one category are all counted in it.
pub proof fn law_uniform_results_all_count(
    results: Seq<(Dependency, CrateInfo, HealthScore)>,
    category: HealthCategory,
)
    requires
        forall|i: int| 0 <= i < results.len() ==> #[trigger] results[i].2.category == category,
    ensures
        count_in(results, results.len() as int, category) == results.len(),
{
    lemma_uniform_prefix(results, results.len() as int, category);
}

proof fn lemma_uniform_prefix(
    results: Seq<(Dependency, CrateInfo, HealthScore)>,
    n: int,
    category: HealthCategory,
)
    requires
        0 <= n <= results.len(),
        forall|i: int| 0 <= i < results.len() ==> #[trigger] results[i].2.category == category,
    ensures
        count_in(results, n, category) == n,
    decreases n,
{
    if n > 0 {
        lemma_uniform_prefix(results, n - 1, category);
        assert(results[n - 1].2.category == category);
    }
}

} // verus!
