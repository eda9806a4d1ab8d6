use guideline_index::nodejs;
use guideline_index::parser::parse_guidelines;
use guideline_index::rust_api::{parse_category_file, parse_chapters};
use guideline_index::error::AppError;

#[test]
fn test_parse_single_rule() {
    let content = r#"# <a name="s-philosophy"></a>P: Philosophy

### <a name="rp-direct"></a>P.1: Express ideas directly in code

##### Reason

Compilers don't read comments.

##### Example

    class Date {};

##### Enforcement

Very hard in general.
"#;
    let (guidelines, categories) = parse_guidelines(content);
    assert_eq!(guidelines.len(), 1);

    let g = &guidelines[0];
    assert_eq!(g.id, "P.1");
    assert_eq!(g.anchor, "rp-direct");
    assert_eq!(g.title, "Express ideas directly in code");
    assert_eq!(g.category, "P");
    assert_eq!(g.sections.len(), 3);
    assert_eq!(g.sections[0].heading, "Reason");
    assert_eq!(g.sections[1].heading, "Example");
    assert_eq!(g.sections[2].heading, "Enforcement");

    assert_eq!(categories.len(), 1);
    let cat = categories.iter().find(|c| c.key == "P").unwrap();
    assert_eq!(cat.key, "P");
    assert_eq!(cat.display_name, "Philosophy");
    assert_eq!(cat.guideline_count, 1);
}

#[test]
fn parse_single_rule_section_contents() {
    let content = "### <a name=\"rp-direct\"></a>P.1: Express ideas\r\n\r\n##### Reason\r\n\r\nBecause.\r\n\r\n## Next chapter\r\n\r\nnot part of it\r\n";
    let (guidelines, categories) = parse_guidelines(content);
    assert_eq!(guidelines.len(), 1);
    assert_eq!(guidelines[0].sections[0].content, "Because.");
    assert_eq!(guidelines[0].raw_markdown, "### <a name=\"rp-direct\"></a>P.1: Express ideas\n\n##### Reason\n\nBecause.\n");
    assert_eq!(categories[0].display_name, "P");
}

#[test]
fn test_parse_compound_id() {
    let content = r#"### <a name="rsl-arrays"></a>SL.con.1: Prefer using STL `array` or `vector` instead of a C array

##### Reason

C arrays are less safe.
"#;
    let (guidelines, _) = parse_guidelines(content);
    assert_eq!(guidelines.len(), 1);
    assert_eq!(guidelines[0].id, "SL.con.1");
    assert_eq!(guidelines[0].category, "SL");
}

#[test]
fn test_parse_backtick_in_title() {
    let content = r#"### <a name="ri-global"></a>I.2: Avoid non-`const` global variables

##### Reason

Non-const global variables are bad.
"#;
    let (guidelines, _) = parse_guidelines(content);
    assert_eq!(guidelines.len(), 1);
    assert_eq!(guidelines[0].id, "I.2");
    assert_eq!(guidelines[0].title, "Avoid non-`const` global variables");
}

#[test]
fn parse_skips_headers_without_colon() {
    let content = "### <a name=\"x\"></a>No separator here\n\n### <a name=\"y\"></a>: empty id\n";
    let (guidelines, categories) = parse_guidelines(content);
    assert!(guidelines.is_empty());
    assert!(categories.is_empty());
}

#[test]
fn parse_minimal() {
    let content = r#"# `1. Project Architecture Practices`

## ![✔] 1.1 Structure your solution by business components

TL;DR text.

## ![✔] 1.2 Layer your components

More text.
"#;

    let (guidelines, categories) = nodejs::parse_guidelines(content, "README.md");
    assert_eq!(guidelines.len(), 2);
    assert!(categories.iter().any(|c| c.key == "1"));
    assert_eq!(guidelines[0].id, "1.1");
    assert_eq!(guidelines[0].category, "1");
    assert_eq!(guidelines[0].anchor, "-11-structure-your-solution-by-business-components");
    assert_eq!(guidelines[0].raw_markdown, "## ![✔] 1.1 Structure your solution by business components\n\nTL;DR text.");
    assert_eq!(categories[0].display_name, "Project Architecture Practices");
    assert_eq!(categories[0].guideline_count, 2);
    assert_eq!(guidelines[1].source_file.as_deref(), Some("README.md"));
}

#[test]
fn parse_single_category_file() {
    let content = r#"# Naming

<a id="c-case"></a>
## Casing conforms to RFC 430 (C-CASE)

Use Rust conventions.

<a id="c-conv"></a>
## Ad-hoc conversions follow conventions (C-CONV)

Use as_/to_/into_.
"#;

    let (category, guidelines) = parse_category_file(content, "src/naming.md").unwrap();
    assert_eq!(category, "Naming");
    assert_eq!(guidelines.len(), 2);
    assert_eq!(guidelines[0].id, "C-CASE");
    assert_eq!(guidelines[0].anchor, "c-case");
    assert_eq!(guidelines[1].id, "C-CONV");
    assert_eq!(guidelines[0].raw_markdown, "<a id=\"c-case\"></a>\n## Casing conforms to RFC 430 (C-CASE)\n\nUse Rust conventions.");
}

#[test]
fn chapter_without_anchor_and_without_title() {
    let (category, guidelines) = parse_category_file("# Docs\n## Examples use ? (C-QUESTION-MARK)\ntext\n", "src/documentation.md").unwrap();
    assert_eq!(category, "Docs");
    assert_eq!(guidelines[0].anchor, "c-question-mark");
    let err = parse_category_file("no title here\n", "src/x.md").unwrap_err();
    assert_eq!(err.line, 1);
    let files = vec![("src/x.md".to_string(), "no title\n".to_string())];
    assert!(matches!(parse_chapters(&files), Err(AppError::Parse { line: 1, message }) if message == "missing category heading in src/x.md"));
}

#[test]
fn chapters_become_categories() {
    let files = vec![
        ("src/naming.md".to_string(), "# Naming\n## A (C-A)\n## B (C-B)\n".to_string()),
        ("src/macros.md".to_string(), "# Macros\n## M (C-M)\n".to_string()),
    ];
    let (guidelines, categories) = parse_chapters(&files).unwrap();
    assert_eq!(guidelines.len(), 3);
    let cats: Vec<(&str, usize)> = categories.iter().map(|c| (c.key.as_str(), c.guideline_count)).collect();
    assert_eq!(cats, vec![("Macros", 1), ("Naming", 2)]);
}

#[test]
fn practice_before_any_chapter_uses_its_own_number() {
    let content = "## ![✔] 2.3 Handle errors centrally\nbody\n# `2. Error Handling Practices`\n## ![✔] 2.4 Test error flows\n";
    let (guidelines, categories) = nodejs::parse_guidelines(content, "README.md");
    assert_eq!(guidelines.len(), 2);
    assert_eq!(guidelines[0].category, "2");
    assert_eq!(guidelines[0].raw_markdown, "## ![✔] 2.3 Handle errors centrally\nbody");
    assert_eq!(categories.len(), 1);
    assert_eq!(categories[0].display_name, "2");
    assert_eq!(categories[0].guideline_count, 2);
}

#[test]
fn chapters_keep_file_order_and_titles() {
    let files = vec![
        ("src/naming.md".to_string(), "# Naming\n## Z (C-Z)\n## A (C-A)\n".to_string()),
        ("src/macros.md".to_string(), "# Macros\n<a id=\"c-m\"></a>\n## M (C-M)\n".to_string()),
        ("src/empty.md".to_string(), "# Empty\nno guidelines\n".to_string()),
    ];
    let (guidelines, categories) = parse_chapters(&files).unwrap();
    let ids: Vec<&str> = guidelines.iter().map(|g| g.id.as_str()).collect();
    assert_eq!(ids, vec!["C-Z", "C-A", "C-M"]);
    assert_eq!(guidelines[2].source_file.as_deref(), Some("src/macros.md"));
    assert_eq!(guidelines[2].anchor, "c-m");
    let total: usize = categories.iter().map(|c| c.guideline_count).sum();
    assert_eq!(total, guidelines.len());
    assert_eq!(categories[1].display_name, "Naming");
}
