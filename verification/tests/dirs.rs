use simpleio::{create_dir, DirStatus};

#[test]
fn create_reports_created_then_exists() {
    assert_eq!(create_dir(false, true), DirStatus::Created);
    assert_eq!(create_dir(true, false), DirStatus::Exists);
}

#[test]
fn existing_path_never_errors() {
    assert_eq!(create_dir(true, true), DirStatus::Exists);
    assert_eq!(create_dir(true, false), DirStatus::Exists);
}

#[test]
fn failed_creation_is_an_error() {
    assert_eq!(create_dir(false, false), DirStatus::Error);
}
