use simpleio::{get_config, LookupError};

#[test]
fn config_is_home_plus_segment() {
    let config = get_config(Ok(String::from("/tmp/testhome")));
    assert_eq!(config, Ok(String::from("/tmp/testhome/.config")));
}

#[test]
fn config_keeps_trailing_separator() {
    let config = get_config(Ok(String::from("/home/user/")));
    assert_eq!(config, Ok(String::from("/home/user/.config")));
}

#[test]
fn config_of_empty_home_is_bare_segment() {
    let config = get_config(Ok(String::from("")));
    assert_eq!(config, Ok(String::from(".config")));
}

#[test]
fn config_propagates_not_present() {
    assert_eq!(get_config(Err(LookupError::NotPresent)), Err(LookupError::NotPresent));
}

#[test]
fn config_propagates_not_unicode() {
    assert_eq!(get_config(Err(LookupError::NotUnicode)), Err(LookupError::NotUnicode));
}
