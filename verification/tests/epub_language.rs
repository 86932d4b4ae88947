use rsspub::epub_gen::resolve_epub_language;

#[test]
fn uses_default_epub_language_when_env_missing() {
    assert_eq!(resolve_epub_language(None), "en");
}

#[test]
fn trims_configured_epub_language() {
    assert_eq!(resolve_epub_language(Some(" de ".to_string())), "de");
}

#[test]
fn ignores_empty_configured_epub_language() {
    assert_eq!(resolve_epub_language(Some("   ".to_string())), "en");
}
