use ifttt_lint::languages::{detect, detect_id, name, LanguageId};

#[test]
fn unknown_extension_falls_back_to_common_styles() {
    assert!(matches!(detect_id("notes/readme.unknownext"), LanguageId::Unknown));
    let lang = detect("notes/readme.unknownext");
    assert_eq!(lang.line_comments, vec![vec!['/', '/'], vec!['#']]);
    assert_eq!(lang.block_comments.len(), 1);
    assert_eq!(lang.block_comments[0].open, vec!['/', '*']);
    assert_eq!(lang.block_comments[0].close, vec!['*', '/']);
}

#[test]
fn python_uses_hash_comments() {
    let lang = detect("src/tool.py");
    assert_eq!(lang.line_comments, vec![vec!['#']]);
    assert_eq!(name(detect_id("src/tool.py")), "Python");
}

#[test]
fn language_display_names() {
    assert_eq!(name(LanguageId::CCpp), "C / C++");
    assert_eq!(name(LanguageId::Unknown), "Unknown");
}
