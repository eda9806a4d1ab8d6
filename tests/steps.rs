use guideline_index::cache::{after_delete, after_scan, first_scan, scan_pattern, ScanStep};
use guideline_index::model::GuidelineResult;
use guideline_index::parser::parse_guidelines;
use guideline_index::search::{after_cache_lookup, after_index_query, SearchRow, SearchStep, SCORE_SCALE};

#[test]
fn scan_pattern_escapes_glob_characters() {
    assert_eq!(scan_pattern("cpg:v1:"), "cpg:v1:*");
    assert_eq!(scan_pattern("a*b?[c]\\"), "a\\*b\\?\\[c\\]\\\\*");
    assert_eq!(scan_pattern(""), "*");
}

#[test]
fn prefix_delete_steps() {
    assert!(matches!(first_scan(), ScanStep::Scan { cursor: 0 }));
    assert!(matches!(after_scan(None), ScanStep::Done { ok: false }));
    match after_scan(Some((7, vec!["k1".to_string(), "k2".to_string()]))) {
        ScanStep::Delete { keys, next } => {
            assert_eq!(keys, vec!["k1".to_string(), "k2".to_string()]);
            assert_eq!(next, 7);
        }
        other => panic!("unexpected {other:?}"),
    }
    assert!(matches!(after_scan(Some((0, vec![]))), ScanStep::Done { ok: true }));
    assert!(matches!(after_scan(Some((9, vec![]))), ScanStep::Scan { cursor: 9 }));
    assert!(matches!(after_delete(false, 9), ScanStep::Done { ok: false }));
    assert!(matches!(after_delete(true, 0), ScanStep::Done { ok: true }));
    assert!(matches!(after_delete(true, 4), ScanStep::Scan { cursor: 4 }));
}

#[test]
fn search_steps_cache_through() {
    let cached = vec![GuidelineResult {
        id: "R.1".to_string(),
        title: "t".to_string(),
        category: "R".to_string(),
        score: 5,
        summary: "s".to_string(),
    }];
    match after_cache_lookup(Some(cached)) {
        SearchStep::Respond { results, write_back } => {
            assert!(!write_back);
            assert_eq!(results[0].id, "R.1");
        }
        other => panic!("unexpected {other:?}"),
    }
    assert!(matches!(after_cache_lookup(None), SearchStep::QueryIndex));
    let rows = vec![SearchRow {
        id: "R.2".to_string(),
        title: "t".to_string(),
        category: "R".to_string(),
        text: "x".to_string(),
        distance: Some(0),
    }];
    match after_index_query(&rows, 5) {
        SearchStep::Respond { results, write_back } => {
            assert!(write_back);
            assert_eq!(results.len(), 1);
            assert_eq!(results[0].score, SCORE_SCALE);
        }
        other => panic!("unexpected {other:?}"),
    }
}

#[test]
fn unterminated_last_line_keeps_carriage_return() {
    let content = "### <a name=\"a\"></a>P.1: T\r\nbody\r";
    let (guidelines, _) = parse_guidelines(content);
    assert_eq!(guidelines[0].raw_markdown, "### <a name=\"a\"></a>P.1: T\nbody\r");
}
