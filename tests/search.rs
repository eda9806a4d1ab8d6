use guideline_index::config::Config;
use guideline_index::search::{
    effective_limit, extract_search_results, normalize_query, similarity, summarize, SearchRow, MAX_SUMMARY_LEN,
    SCORE_SCALE,
};

fn row(id: &str, distance: Option<u32>, text: &str) -> SearchRow {
    SearchRow {
        id: id.to_string(),
        title: format!("title {id}"),
        category: "R".to_string(),
        text: text.to_string(),
        distance,
    }
}

#[test]
fn limits_default_and_cap() {
    assert_eq!(effective_limit(None), 10);
    assert_eq!(effective_limit(Some(5)), 5);
    assert_eq!(effective_limit(Some(50)), 50);
    assert_eq!(effective_limit(Some(51)), 50);
    assert_eq!(effective_limit(Some(0)), 0);
}

#[test]
fn blank_queries_are_rejected() {
    assert_eq!(normalize_query("  resource management \n"), Some("resource management".to_string()));
    assert_eq!(normalize_query("   "), None);
    assert_eq!(normalize_query(""), None);
}

#[test]
fn similarity_from_distance() {
    assert_eq!(similarity(Some(0)), SCORE_SCALE);
    assert_eq!(similarity(Some(250_000)), 750_000);
    assert_eq!(similarity(Some(1_000_000)), 0);
    assert_eq!(similarity(Some(3_000_000)), 0);
    assert_eq!(similarity(None), SCORE_SCALE);
}

#[test]
fn summaries_cut_at_characters() {
    assert_eq!(summarize("short"), "short");
    let exact = "a".repeat(MAX_SUMMARY_LEN);
    assert_eq!(summarize(&exact), exact);
    let long = "ü".repeat(MAX_SUMMARY_LEN + 1);
    let s = summarize(&long);
    assert_eq!(s, format!("{}...", "ü".repeat(MAX_SUMMARY_LEN)));
}

#[test]
fn search_results_ranked_and_bounded() {
    let rows = vec![
        row("R.1", Some(100_000), "resource acquisition is initialization"),
        row("R.3", Some(300_000), "owners"),
        row("R.5", Some(900_000), "scoped objects"),
        row("R.10", Some(1_200_000), "malloc"),
        row("R.11", Some(1_500_000), "new and delete"),
        row("R.12", Some(1_700_000), "explicit allocation"),
    ];
    let limit = effective_limit(Some(5));
    let results = extract_search_results(&rows, limit);
    assert!(results.len() <= 5);
    assert_eq!(results.len(), 5);
    for w in results.windows(2) {
        assert!(w[0].score >= w[1].score);
    }
    for r in &results {
        assert!(r.score <= SCORE_SCALE);
    }
    assert_eq!(results[0].id, "R.1");
    assert_eq!(results[0].score, 900_000);
    assert_eq!(results[3].score, 0);
    let again = extract_search_results(&rows, limit);
    let a: Vec<(String, u32, String)> = results.iter().map(|r| (r.id.clone(), r.score, r.summary.clone())).collect();
    let b: Vec<(String, u32, String)> = again.iter().map(|r| (r.id.clone(), r.score, r.summary.clone())).collect();
    assert_eq!(a, b);
}

#[test]
fn config_paths() {
    let c = Config {
        redis_url: None,
        lancedb_path: "/data/lancedb".to_string(),
        repo_path: "/data/cpp".to_string(),
        corpus_file: "CppCoreGuidelines.md".to_string(),
    };
    assert_eq!(c.guidelines_file_path(), "/data/cpp/CppCoreGuidelines.md");
    assert_eq!(c.repo_path(), "/data/cpp");
    let d = Config { repo_path: "/data/node/".to_string(), corpus_file: "README.md".to_string(), ..c.clone() };
    assert_eq!(d.guidelines_file_path(), "/data/node/README.md");
    let e = Config { corpus_file: "/abs/file.md".to_string(), ..c };
    assert_eq!(e.guidelines_file_path(), "/abs/file.md");
}

#[test]
fn trimming_follows_unicode_white_space() {
    assert_eq!(normalize_query("\t\u{3000} abc \u{a0}\r\n"), Some("abc".to_string()));
    assert_eq!(normalize_query("\u{2003}\u{85}"), None);
    assert_eq!(normalize_query("abc"), Some("abc".to_string()));
    assert_eq!(normalize_query(" a b "), Some("a b".to_string()));
}
