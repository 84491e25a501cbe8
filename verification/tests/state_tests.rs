use rustyrag::state::IndexState;

#[test]
fn mark_then_unchanged() {
    let mut s = IndexState::new();
    assert!(!s.is_unchanged("a.md", "h1"));
    s.mark_indexed("a.md".to_string(), "h1".to_string());
    assert!(s.is_unchanged("a.md", "h1"));
    assert!(!s.is_unchanged("a.md", "h2"));
    assert!(!s.is_unchanged("b.md", "h1"));
    s.mark_indexed("a.md".to_string(), "h2".to_string());
    assert!(s.is_unchanged("a.md", "h2"));
    assert!(!s.is_unchanged("a.md", "h1"));
    s.mark_indexed("b.md".to_string(), "h3".to_string());
    assert!(s.is_unchanged("a.md", "h2"));
    assert_eq!(s.entries().len(), 2);
}

#[test]
fn state_path() {
    assert_eq!(IndexState::path_for_pipeline("docs-index"), ".rustyrag/docs-index.json");
    assert_eq!(
        IndexState::path_for_pipeline("docs-index"),
        std::path::PathBuf::from(".rustyrag").join("docs-index.json").to_string_lossy()
    );
    assert_eq!(
        IndexState::path_for_pipeline("/tmp/x"),
        std::path::PathBuf::from(".rustyrag").join("/tmp/x.json").to_string_lossy()
    );
}
