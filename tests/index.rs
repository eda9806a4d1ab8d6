use guideline_index::cache::{GuidelineCache, RedisCache, SEARCH_TTL_SECS};
use guideline_index::error::{AppError, CommonError};
use guideline_index::fingerprint::{decimal_text, hex_lower, search_fingerprint};
use guideline_index::generation::Generation;
use guideline_index::lookup::{resolve_guideline, to_api_guideline, ReindexGuard};
use guideline_index::model::{Guideline, GuidelineSection};
use guideline_index::update::{needs_update, staleness_step, CacheWrite, ReindexPlan, ServingState, StalenessStep, UpdateResult};

fn doc(id: &str, category: &str, title: &str) -> Guideline {
    Guideline {
        id: id.to_string(),
        anchor: id.to_lowercase(),
        title: title.to_string(),
        category: category.to_string(),
        sections: vec![GuidelineSection { heading: "Reason".to_string(), content: format!("why {id}") }],
        source_file: None,
        raw_markdown: format!("### {id}: {title}"),
    }
}

fn names() -> Vec<(String, String)> {
    vec![("P".to_string(), "Philosophy".to_string()), ("R".to_string(), "Resource management".to_string())]
}

fn cache() -> GuidelineCache {
    GuidelineCache::new(RedisCache::new(None), "cpg:v1:")
}

#[test]
fn hex_lower_encodes_each_byte() {
    assert_eq!(hex_lower(&[0x00, 0x0f, 0xa5, 0xff]), "000fa5ff");
    assert_eq!(hex_lower(&[]), "");
}

#[test]
fn fingerprint_is_sha256_of_query_and_limit() {
    assert_eq!(
        search_fingerprint("resource management", 5),
        "3380710b2142c2bfab5367900522dba24488075dc395182a349c00d0926700ce"
    );
    assert_eq!(search_fingerprint("", 0), "ef12efbd765f9ad308460dc13dd2d5d06784bbe91adb0bf5fa752eddf10a38eb");
}

#[test]
fn fingerprint_deterministic_and_distinct() {
    let a = search_fingerprint("resource management", 5);
    assert_eq!(a, search_fingerprint("resource management", 5));
    assert_ne!(a, search_fingerprint("resource management", 10));
    assert_ne!(a, search_fingerprint("resource managemenT", 5));
    assert_ne!(search_fingerprint("a|1", 2), search_fingerprint("a", 12));
}

#[test]
fn cache_keys_are_namespaced() {
    let c = cache();
    assert_eq!(c.guideline_key("P.1"), "cpg:v1:guideline:P.1");
    assert_eq!(c.categories_key(), "cpg:v1:categories");
    assert_eq!(c.category_key("SL"), "cpg:v1:category:SL");
    assert_eq!(c.repo_commit_key(), "cpg:v1:repo_commit");
    assert_eq!(
        c.search_key("resource management", 10),
        "cpg:v1:search:ad5107a7241597b6e8fd66fff756962da64d33d20c30471c5bccbf5c1a75d07a"
    );
    assert_eq!(SEARCH_TTL_SECS, 3600);
}

#[test]
fn cache_without_url_is_disabled() {
    assert!(!RedisCache::new(None).is_enabled());
    assert!(RedisCache::new(None).client().is_none());
    assert!(!RedisCache::new(Some("not a url")).is_enabled());
    assert!(RedisCache::new(Some("redis://127.0.0.1:6379")).is_enabled());
}

#[test]
fn generation_sorts_dedups_and_counts() {
    let docs = vec![
        doc("R.2", "R", "second"),
        doc("P.2", "P", "old title"),
        doc("P.1", "P", "first"),
        doc("P.2", "P", "new title"),
        doc("X.1", "X", "unnamed"),
    ];
    let g = Generation::new("abc".to_string(), docs, &names());
    let ids: Vec<&str> = g.guidelines().iter().map(|d| d.id.as_str()).collect();
    assert_eq!(ids, vec!["P.1", "P.2", "R.2", "X.1"]);
    assert_eq!(g.guidelines()[1].title, "new title");
    let cats: Vec<(&str, &str, usize)> =
        g.categories().iter().map(|c| (c.key.as_str(), c.display_name.as_str(), c.guideline_count)).collect();
    assert_eq!(cats, vec![("P", "Philosophy", 2), ("R", "Resource management", 1), ("X", "X", 1)]);
    let total: usize = g.categories().iter().map(|c| c.guideline_count).sum();
    assert_eq!(total, g.len());
    assert_eq!(g.category_keys(), vec!["P".to_string(), "R".to_string(), "X".to_string()]);
}

#[test]
fn empty_generation() {
    let g = Generation::new("none".to_string(), vec![], &names());
    assert_eq!(g.len(), 0);
    assert!(g.categories().is_empty());
    assert!(matches!(g.list_category("P"), Err(AppError::UnknownCategory(c)) if c == "P"));
}

#[test]
fn reindex_scenario_two_rules_in_p() {
    let plan = ReindexPlan::new("abc123".to_string(), vec![doc("P.2", "P", "b"), doc("P.1", "P", "a")], &names());
    assert_eq!(plan.texts().len(), 2);
    assert_eq!(plan.texts()[0], "a. why P.1");
    let c = cache();
    let writes = plan.cache_writes(&c);
    assert_eq!(writes.len(), 2 + 1 + 3);
    assert!(matches!(&writes[0], CacheWrite::InvalidateAll { prefix } if prefix == "cpg:v1:"));
    assert!(matches!(&writes[1], CacheWrite::Guideline { key, index: 0 } if key == "cpg:v1:guideline:P.1"));
    assert!(matches!(&writes[3], CacheWrite::Categories { key } if key == "cpg:v1:categories"));
    match &writes[4] {
        CacheWrite::CategoryIds { key, ids } => {
            assert_eq!(key, "cpg:v1:category:P");
            assert_eq!(ids, &vec!["P.1".to_string(), "P.2".to_string()]);
        }
        other => panic!("unexpected write {other:?}"),
    }
    assert!(matches!(&writes[5], CacheWrite::RepoCommit { key, commit } if key == "cpg:v1:repo_commit" && commit == "abc123"));

    let mut state = ServingState::new(Generation::new("old".to_string(), vec![], &names()));
    let result = state.install(plan, 2).unwrap();
    assert!(result.updated);
    assert_eq!(result.commit, "abc123");
    assert_eq!(result.guideline_count, 2);
    let listed = state.generation().list_category("P").unwrap();
    let ids: Vec<&str> = listed.guidelines.iter().map(|s| s.id.as_str()).collect();
    assert_eq!(ids, vec!["P.1", "P.2"]);
    assert_eq!(listed.category.guideline_count, 2);
    assert_eq!(listed.category.display_name, "Philosophy");
    assert_eq!(state.generation().commit(), "abc123");
}

#[test]
fn embedding_count_mismatch_keeps_served_generation() {
    let mut state = ServingState::new(Generation::new("v1".to_string(), vec![doc("P.1", "P", "old")], &names()));
    let plan = ReindexPlan::new("v2".to_string(), vec![doc("P.1", "P", "new"), doc("P.9", "P", "x")], &names());
    assert!(matches!(plan.check_embedding_count(1), Err(AppError::Common(CommonError::Embedding(_)))));
    assert!(plan.check_embedding_count(2).is_ok());
    let r = state.install(plan, 1);
    assert!(matches!(r, Err(AppError::Common(CommonError::Embedding(_)))));
    assert_eq!(state.generation().commit(), "v1");
    assert_eq!(state.generation().len(), 1);
    let d = resolve_guideline(None, state.generation(), "P.1").unwrap();
    assert_eq!(d.title, "old");
}

#[test]
fn get_document_matches_id_case_insensitively() {
    let g = Generation::new("abc".to_string(), vec![doc("P.1", "P", "first"), doc("SL.con.1", "SL", "x")], &names());
    assert_eq!(g.find_guideline("p.1").unwrap().id, "P.1");
    assert_eq!(g.find_guideline("sl.CON.1").unwrap().id, "SL.con.1");
    assert!(g.find_guideline("P.10").is_none());
    let d = resolve_guideline(None, &g, "p.1").unwrap();
    assert_eq!(d.id, "P.1");
    assert!(matches!(resolve_guideline(None, &g, "Q.7"), Err(AppError::NotFound(m)) if m == "Q.7"));
}

#[test]
fn cached_guideline_wins() {
    let g = Generation::new("abc".to_string(), vec![doc("P.1", "P", "served")], &names());
    let d = resolve_guideline(Some(doc("P.1", "P", "cached")), &g, "P.1").unwrap();
    assert_eq!(d.title, "cached");
}

#[test]
fn list_category_is_case_insensitive_and_rejects_unknown() {
    let g = Generation::new("abc".to_string(), vec![doc("ES.2", "ES", "b"), doc("ES.1", "ES", "a"), doc("P.1", "P", "p")], &names());
    let l = g.list_category("es").unwrap();
    assert_eq!(l.category.key, "ES");
    assert_eq!(l.guidelines.len(), 2);
    assert_eq!(l.guidelines[0].id, "ES.1");
    assert_eq!(l.guidelines[1].title, "b");
    assert!(matches!(g.list_category("Q"), Err(AppError::UnknownCategory(c)) if c == "Q"));
}

#[test]
fn api_detail_shows_sections_or_source_file() {
    let d = to_api_guideline(&doc("P.1", "P", "t"));
    assert_eq!(d.sections.as_ref().unwrap()[0].heading, "Reason");
    assert!(d.source_file.is_none());
    let mut f = doc("C-CASE", "Naming", "t");
    f.source_file = Some("src/naming.md".to_string());
    let d = to_api_guideline(&f);
    assert!(d.sections.is_none());
    assert_eq!(d.source_file.as_deref(), Some("src/naming.md"));
}

#[test]
fn staleness_decisions() {
    assert_eq!(staleness_step("abc", None), StalenessStep::Reindex);
    assert_eq!(staleness_step("abc", Some("abd")), StalenessStep::Reindex);
    assert_eq!(staleness_step("abc", Some("abc")), StalenessStep::ProbeIndex);
    assert!(needs_update("abc", None, true));
    assert!(needs_update("abc", Some("old"), true));
    assert!(needs_update("abc", Some("abc"), false));
    assert!(!needs_update("abc", Some("abc"), true));
}

#[test]
fn update_twice_reindexes_once() {
    let plan = ReindexPlan::new("abc123".to_string(), vec![doc("P.1", "P", "a")], &names());
    let writes = plan.cache_writes(&cache());
    let marker = match writes.last() {
        Some(CacheWrite::RepoCommit { commit, .. }) => commit.clone(),
        _ => panic!("last write must be the revision marker"),
    };
    assert!(needs_update("abc123", None, true));
    assert!(!needs_update("abc123", Some(marker.as_str()), true));
    let r = UpdateResult::up_to_date("abc123".to_string()).response(7);
    assert!(!r.updated);
    assert_eq!(r.guideline_count, 7);
}

#[test]
fn single_reindex_at_a_time() {
    let mut guard = ReindexGuard::new();
    assert!(guard.try_begin());
    assert!(!guard.try_begin());
    guard.finish();
    assert!(guard.try_begin());
}

#[test]
fn embedding_mismatch_reports_both_counts() {
    let plan = ReindexPlan::new("v2".to_string(), vec![doc("P.1", "P", "a"), doc("P.2", "P", "b")], &names());
    match plan.check_embedding_count(13) {
        Err(AppError::Common(CommonError::Embedding(m))) => {
            assert_eq!(m, "embedding count mismatch: expected 2, got 13")
        }
        other => panic!("unexpected {other:?}"),
    }
    let mut state = ServingState::new(Generation::new("v1".to_string(), vec![], &names()));
    match state.install(plan, 0) {
        Err(AppError::Common(CommonError::Embedding(m))) => assert_eq!(m, "embedding count mismatch: expected 2, got 0"),
        other => panic!("unexpected {other:?}"),
    }
}

#[test]
fn decimal_text_writes_numbers() {
    assert_eq!(decimal_text(0), "0");
    assert_eq!(decimal_text(10), "10");
    assert_eq!(decimal_text(18446744073709551615), "18446744073709551615");
}
