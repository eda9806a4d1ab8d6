use guideline_index::compose::compose_embedding_text;
use guideline_index::model::{Guideline, GuidelineSection};
use guideline_index::parser::{extract_category, guideline_anchor, slugify};

#[test]
fn test_extract_category() {
    assert_eq!(extract_category("P.1"), "P");
    assert_eq!(extract_category("SL.con.1"), "SL");
    assert_eq!(extract_category("ES.20"), "ES");
    assert_eq!(extract_category("In.0"), "In");
    assert_eq!(extract_category("C.20"), "C");
    assert_eq!(extract_category("NR.1"), "NR");
}

#[test]
fn extract_category_without_dot_keeps_id() {
    assert_eq!(extract_category("Intro"), "Intro");
    assert_eq!(extract_category(""), "");
}

#[test]
fn test_compose_embedding_text() {
    let g = Guideline {
        id: "P.1".to_string(),
        anchor: "rp-direct".to_string(),
        title: "Express ideas directly in code".to_string(),
        category: "P".to_string(),
        sections: vec![
            GuidelineSection {
                heading: "Reason".to_string(),
                content: "Compilers don't read comments.".to_string(),
            },
            GuidelineSection {
                heading: "Example".to_string(),
                content: "class Date {};".to_string(),
            },
        ],
        source_file: None,
        raw_markdown: String::new(),
    };
    let text = compose_embedding_text(&g);
    assert!(text.starts_with("Express ideas directly in code"));
    assert!(text.contains("Compilers don't read comments."));
    assert!(text.contains("class Date {};"));
}

#[test]
fn compose_sections_exact_text() {
    let g = Guideline {
        id: "P.1".to_string(),
        anchor: String::new(),
        title: "T".to_string(),
        category: "P".to_string(),
        sections: vec![
            GuidelineSection { heading: "Example, bad".to_string(), content: "E1".to_string() },
            GuidelineSection { heading: "Reason".to_string(), content: "R".to_string() },
            GuidelineSection { heading: "Example".to_string(), content: "E2".to_string() },
        ],
        source_file: None,
        raw_markdown: "ignored".to_string(),
    };
    assert_eq!(compose_embedding_text(&g), "T. R. E1");
}

#[test]
fn compose_header_style_for_file_corpora() {
    let g = Guideline {
        id: "C-CASE".to_string(),
        anchor: "c-case".to_string(),
        title: "Casing".to_string(),
        category: "Naming".to_string(),
        sections: vec![],
        source_file: Some("src/naming.md".to_string()),
        raw_markdown: "Body".to_string(),
    };
    assert_eq!(compose_embedding_text(&g), "C-CASE: Casing. Category: Naming. Body");
}

#[test]
fn compose_truncates_by_characters() {
    let long: String = "é".repeat(5000);
    let g = Guideline {
        id: "1.1".to_string(),
        anchor: String::new(),
        title: "x".to_string(),
        category: "1".to_string(),
        sections: vec![],
        source_file: Some("README.md".to_string()),
        raw_markdown: long.clone(),
    };
    assert_eq!(compose_embedding_text(&g).chars().count(), 3000);
    let h = Guideline { source_file: None, title: long, ..g };
    assert_eq!(compose_embedding_text(&h).chars().count(), 2000);
}

#[test]
fn slug_and_anchor() {
    assert_eq!(slugify("Structure your solution by business components"), "structure-your-solution-by-business-components");
    assert_eq!(slugify("  --Hello,  World!--  "), "hello-world");
    assert_eq!(
        guideline_anchor("1.1", "Structure your solution by business components"),
        "-11-structure-your-solution-by-business-components"
    );
}
