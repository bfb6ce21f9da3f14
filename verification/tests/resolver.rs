use ruby_exec_wrapper::errors::ResolveError;
use ruby_exec_wrapper::paths::join_path;
use ruby_exec_wrapper::resolver::get_appimage_directory;
use ruby_exec_wrapper::resolver::get_executable_path;
use ruby_exec_wrapper::resolver::parent_dir;

#[test]
fn parent_dir_of_nested_path() {
    assert_eq!(parent_dir("/usr/bin/launcher").unwrap().as_str(), "/usr/bin");
}

#[test]
fn parent_dir_of_entry_under_root() {
    assert_eq!(parent_dir("/launcher").unwrap().as_str(), "/");
}

#[test]
fn parent_dir_of_root_is_none() {
    assert!(parent_dir("/").is_none());
}

#[test]
fn parent_dir_without_separator_is_none() {
    assert!(parent_dir("launcher").is_none());
}

#[test]
fn appimage_directory_is_three_levels_up() {
    assert_eq!(
        get_appimage_directory("/opt/App/usr/bin/launcher").unwrap().as_str(),
        "/opt/App"
    );
}

#[test]
fn appimage_directory_missing_for_shallow_path() {
    assert!(get_appimage_directory("/launcher").is_none());
}

#[test]
fn join_path_inserts_separator() {
    assert_eq!(join_path("/opt/App", "cacert.pem").as_str(), "/opt/App/cacert.pem");
    assert_eq!(join_path("/opt/App/", "cacert.pem").as_str(), "/opt/App/cacert.pem");
}

#[test]
fn resolution_fails_without_directory() {
    assert!(matches!(
        get_executable_path("launcher"),
        Err(ResolveError::NoParent)
    ));
}

#[test]
fn resolution_reports_attempted_path() {
    match get_executable_path("/no_such_directory_zz/bin/launcher") {
        Err(ResolveError::NotFound { attempted }) => {
            assert_eq!(attempted.as_str(), "/no_such_directory_zz/bin/ruby");
        }
        other => panic!("unexpected resolution outcome: {:?}", other),
    }
}
