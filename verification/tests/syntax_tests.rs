use held::syntax::{has_plain_text, syntax_for};
use syntect::parsing::{SyntaxSet, SyntaxSetBuilder};

#[test]
fn default_syntaxes_have_plain_text() {
    assert!(has_plain_text(&SyntaxSet::load_defaults_newlines()));
    assert!(!has_plain_text(&SyntaxSetBuilder::new().build()));
}

#[test]
fn syntax_for_looks_up_the_extension() {
    let set = SyntaxSet::load_defaults_newlines();
    assert_eq!(syntax_for(&set, Some(&"/a/b.py".to_string())), "Python");
    assert_eq!(syntax_for(&set, Some(&"/a/b.PY".to_string())), "Python");
    assert_eq!(syntax_for(&set, Some(&"/a/.py".to_string())), "Plain Text");
    assert_eq!(syntax_for(&set, None), "Plain Text");
}
