use oxur::design::add::{
    determine_author_auto, determine_title_auto, new_document_text, prepare_document,
};
use oxur::design::doc::DocState;
use oxur::design::extract::ExtractedMetadata;
use oxur::design::validate::DateStamp;

fn extracted(title: Option<&str>, heading: Option<&str>, author: Option<&str>) -> ExtractedMetadata {
    ExtractedMetadata {
        title: title.map(|s| s.to_string()),
        author: author.map(|s| s.to_string()),
        state_hint: None,
        has_frontmatter: false,
        first_heading: heading.map(|s| s.to_string()),
    }
}

#[test]
fn title_prefers_named_then_heading_then_file_name() {
    assert_eq!(determine_title_auto(&extracted(Some("Named"), Some("Heading"), None), "x.md"), "Named");
    assert_eq!(determine_title_auto(&extracted(None, Some("Heading"), None), "x.md"), "Heading");
    assert_eq!(determine_title_auto(&extracted(None, None, None), "my-great-idea.md"), "My Great Idea");
}

#[test]
fn author_prefers_named() {
    assert_eq!(determine_author_auto(&extracted(None, None, Some("Ann")), "Git User"), "Ann");
    assert_eq!(determine_author_auto(&extracted(None, None, None), "Git User"), "Git User");
}

#[test]
fn prepared_document_has_frontmatter_and_body() {
    let today = DateStamp { year: 2024, month: 3, day: 5, text: "2024-03-05".to_string() };
    let content = "---\ntitle: Old\n---\n\n# My Doc\n\nBody text.\n\n\n";
    let p = prepare_document(content, true, 7, "My Doc", "Ann", DocState::Draft, &today);
    assert_eq!(p.filename, "0007-my-doc.md");
    assert_eq!(p.metadata.number, 7);
    assert_eq!(p.metadata.created.text, "2024-03-05");
    assert_eq!(
        p.content,
        "---\nnumber: 7\ntitle: \"My Doc\"\nauthor: \"Ann\"\ncreated: 2024-03-05\nupdated: 2024-03-05\nstate: Draft\nsupersedes: null\nsuperseded-by: null\n---\n\n# My Doc\n\nBody text.\n"
    );
    let empty = prepare_document("   \n", false, 8, "Empty", "Ann", DocState::Final, &today);
    assert!(empty.content.ends_with("---\n\n"));
    assert_eq!(empty.metadata.state, DocState::Final);
}

#[test]
fn new_document_template() {
    let (text, name) = new_document_text(12, "Cache Layer", "Bo", "2025-01-02");
    assert_eq!(name, "0012-cache-layer.md");
    assert!(text.starts_with("---\nnumber: 12\ntitle: \"Cache Layer\"\nauthor: \"Bo\"\ncreated: 2025-01-02\nupdated: 2025-01-02\nstate: Draft\nsupersedes: null\nsuperseded-by: null\n---\n\n# Cache Layer\n\n## Overview\n"));
    assert!(text.ends_with("## Success Criteria\n\n*How will we know this design is successful?*\n"));
}
