use rustgym::search::{rank_folded, search, Category, ProblemSummary, SearchQuery, MAX_RESULTS};

fn record(id: u64, category: Category, title: &str) -> ProblemSummary {
    ProblemSummary::new(id, category, title.to_string(), format!("/p/{}", id))
}

fn ids(items: &[ProblemSummary]) -> Vec<u64> {
    items.iter().map(|p| p.id).collect()
}

fn sum_corpus() -> Vec<ProblemSummary> {
    vec![
        record(167, Category::Leetcode, "Two Sum II"),
        record(15, Category::Leetcode, "3Sum"),
        record(1, Category::Leetcode, "Two Sum"),
    ]
}

#[test]
fn ranking_exact_then_prefix() {
    let q = SearchQuery::new(1, "two sum".to_string(), None);
    let r = search(&q, &sum_corpus(), MAX_RESULTS);
    assert_eq!(ids(&r.items), vec![1, 167]);
}

#[test]
fn ranking_ignores_case() {
    let q = SearchQuery::new(1, "TWO SUM".to_string(), None);
    let r = search(&q, &sum_corpus(), MAX_RESULTS);
    assert_eq!(ids(&r.items), vec![1, 167]);
    assert_eq!(r.items[0].title, "Two Sum");
}

#[test]
fn empty_query_gives_empty_result() {
    let q = SearchQuery::new(1, String::new(), None);
    let r = search(&q, &sum_corpus(), MAX_RESULTS);
    assert!(r.items.is_empty());
}

#[test]
fn empty_corpus_gives_empty_result() {
    let q = SearchQuery::new(1, "sum".to_string(), None);
    let r = search(&q, &Vec::new(), MAX_RESULTS);
    assert!(r.items.is_empty());
}

#[test]
fn token_prefix_beats_substring() {
    let corpus = vec![
        record(2, Category::Leetcode, "Threesum"),
        record(9, Category::Leetcode, "Path Sum"),
        record(5, Category::Leetcode, "Sum of Squares"),
    ];
    let q = SearchQuery::new(1, "sum".to_string(), None);
    let r = search(&q, &corpus, MAX_RESULTS);
    assert_eq!(ids(&r.items), vec![5, 9, 2]);
}

#[test]
fn ties_broken_by_ascending_id() {
    let corpus = vec![
        record(30, Category::Google, "Alpha Beta"),
        record(10, Category::Google, "Alpha Gamma"),
        record(20, Category::Google, "Alpha Delta"),
    ];
    let q = SearchQuery::new(1, "alpha".to_string(), None);
    let r = search(&q, &corpus, MAX_RESULTS);
    assert_eq!(ids(&r.items), vec![10, 20, 30]);
}

#[test]
fn category_tag_matches_as_substring() {
    let corpus = vec![
        record(4, Category::Google, "Kickstart Round A"),
        record(3, Category::Leetcode, "Valid Parentheses"),
    ];
    let q = SearchQuery::new(1, "google".to_string(), None);
    let r = search(&q, &corpus, MAX_RESULTS);
    assert_eq!(ids(&r.items), vec![4]);
}

#[test]
fn category_filter_excludes_other_domains() {
    let corpus = vec![
        record(1, Category::Leetcode, "Two Sum"),
        record(2, Category::AdventOfCode, "Two Sum"),
    ];
    let q = SearchQuery::new(1, "two sum".to_string(), Some(Category::AdventOfCode));
    let r = search(&q, &corpus, MAX_RESULTS);
    assert_eq!(ids(&r.items), vec![2]);
    assert_eq!(r.items[0].category, Category::AdventOfCode);
}

#[test]
fn result_is_bounded_by_limit() {
    let corpus = vec![
        record(5, Category::Leetcode, "Sum A"),
        record(4, Category::Leetcode, "Sum B"),
        record(3, Category::Leetcode, "Sum C"),
    ];
    let q = SearchQuery::new(1, "sum".to_string(), None);
    let r = search(&q, &corpus, 2);
    assert_eq!(ids(&r.items), vec![3, 4]);
    let none = search(&q, &corpus, 0);
    assert!(none.items.is_empty());
}

#[test]
fn summary_fields_are_copied() {
    let q = SearchQuery::new(1, "3sum".to_string(), None);
    let r = search(&q, &sum_corpus(), MAX_RESULTS);
    assert_eq!(r.items.len(), 1);
    assert_eq!(r.items[0].id, 15);
    assert_eq!(r.items[0].link, "/p/15");
}

#[test]
fn category_tags() {
    assert_eq!(Category::Leetcode.tag().iter().collect::<String>(), "leetcode");
    assert_eq!(Category::AdventOfCode.tag().iter().collect::<String>(), "adventofcode");
    assert_eq!(Category::Google.tag().iter().collect::<String>(), "google");
}

#[test]
fn category_from_tag() {
    assert_eq!(Category::from_tag(&"leetcode".to_string()), Some(Category::Leetcode));
    assert_eq!(Category::from_tag(&"adventofcode".to_string()), Some(Category::AdventOfCode));
    assert_eq!(Category::from_tag(&"google".to_string()), Some(Category::Google));
    assert_eq!(Category::from_tag(&"Google".to_string()), None);
    assert_eq!(Category::from_tag(&"goog".to_string()), None);
    assert_eq!(Category::from_tag(&String::new()), None);
}

fn chars(s: &str) -> Vec<char> {
    s.chars().collect()
}

#[test]
fn case_variants_beyond_ascii_match() {
    let corpus = vec![record(3, Category::Leetcode, "é")];
    let lower = search(&SearchQuery::new(1, "é".to_string(), None), &corpus, MAX_RESULTS);
    let upper = search(&SearchQuery::new(1, "É".to_string(), None), &corpus, MAX_RESULTS);
    assert_eq!(ids(&lower.items), vec![3]);
    assert_eq!(ids(&upper.items), vec![3]);
}

#[test]
fn unicode_title_matches_lower_case_query() {
    let corpus = vec![
        record(8, Category::Google, "ÉCOLE Ünion"),
        record(2, Category::Google, "Straße"),
    ];
    let r = search(&SearchQuery::new(1, "école".to_string(), None), &corpus, MAX_RESULTS);
    assert_eq!(ids(&r.items), vec![8]);
    let r = search(&SearchQuery::new(1, "ünion".to_string(), None), &corpus, MAX_RESULTS);
    assert_eq!(ids(&r.items), vec![8]);
    let r = search(&SearchQuery::new(1, "STRASSE".to_string(), None), &corpus, MAX_RESULTS);
    assert!(r.items.is_empty());
}

#[test]
fn folded_ranks() {
    let tag = chars("leetcode");
    assert_eq!(rank_folded(&chars("two sum"), &chars("two sum"), &tag), 0);
    assert_eq!(rank_folded(&chars("two sum"), &chars("two sum ii"), &tag), 1);
    assert_eq!(rank_folded(&chars("sum"), &chars("path sum"), &tag), 1);
    assert_eq!(rank_folded(&chars("um"), &chars("path sum"), &tag), 2);
    assert_eq!(rank_folded(&chars("leet"), &chars("path sum"), &tag), 2);
    assert_eq!(rank_folded(&chars("two sum"), &chars("3sum"), &tag), 3);
    assert_eq!(rank_folded(&chars(""), &chars("3sum"), &tag), 3);
    assert_eq!(rank_folded(&chars("Two"), &chars("two"), &tag), 3);
}
