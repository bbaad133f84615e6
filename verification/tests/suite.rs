use simpleio::{create_dir, get_config, DirStatus};

#[test]
fn it_works() {
    assert_eq!(2 + 2, 4);
}

#[test]
fn home_to_config_walkthrough() {
    let home = Ok(String::from("/tmp/testhome"));
    let config = get_config(home).unwrap();
    assert_eq!(config, "/tmp/testhome/.config");
    assert_eq!(create_dir(false, true), DirStatus::Created);
    assert_eq!(create_dir(true, false), DirStatus::Exists);
}
