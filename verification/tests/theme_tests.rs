use held::theme::{choose_theme, ThemeError};

fn names(list: &[&str]) -> Vec<String> {
    list.iter().map(|s| s.to_string()).collect()
}

#[test]
fn no_theme_loaded_is_an_error() {
    assert_eq!(choose_theme(None, &vec![]), Err(ThemeError::NoTheme));
    assert_eq!(choose_theme(Some(&"dark".to_string()), &vec![]), Err(ThemeError::NoTheme));
}

#[test]
fn without_a_name_the_first_theme_is_chosen() {
    assert_eq!(choose_theme(None, &names(&["base16", "dark"])), Ok(0));
}

#[test]
fn a_named_theme_is_chosen_or_missing() {
    let list = names(&["base16", "dark", "light"]);
    assert_eq!(choose_theme(Some(&"light".to_string()), &list), Ok(2));
    assert_eq!(choose_theme(Some(&"solar".to_string()), &list), Err(ThemeError::MissingTheme));
}
