use ruby_exec_wrapper::environment::copy_environment;
use ruby_exec_wrapper::environment::create_new_environment;
use ruby_exec_wrapper::environment::disable_python_cache;
use ruby_exec_wrapper::environment::identify_as_appimage;
use ruby_exec_wrapper::environment::is_suppressed_name;
use ruby_exec_wrapper::environment::patch_variable;
use ruby_exec_wrapper::environment::patch_variables;
use ruby_exec_wrapper::environment::specify_ssl_cert_file;
use ruby_exec_wrapper::environment::Environment;
use ruby_exec_wrapper::string_map::StringMap;

fn snapshot(pairs: &[(&str, &str)]) -> Vec<(String, String)> {
    pairs.iter().map(|(k, v)| (k.to_string(), v.to_string())).collect()
}

fn build(pairs: &[(&str, &str)], root: &str) -> Environment {
    Environment {
        env: copy_environment(&snapshot(pairs)),
        root_dir: root.to_string(),
    }
}

#[test]
fn patched_path_prepends_root() {
    let mut environment = build(&[("PATH", "/bin")], "/opt/App");
    patch_variables(&mut environment);
    assert_eq!(
        environment.env.get("PATH").unwrap().as_str(),
        "/opt/App/usr/bin:/bin"
    );
}

#[test]
fn qt_plugin_path_becomes_empty() {
    let mut environment = build(&[("PATH", "/bin")], "/opt/App");
    patch_variables(&mut environment);
    assert_eq!(environment.env.get("QT_PLUGIN_PATH").unwrap().as_str(), "");
}

#[test]
fn ld_library_path_lists_all_suffixes() {
    let mut environment = build(&[], "/opt/App");
    patch_variable(
        "LD_LIBRARY_PATH",
        vec!["/usr/lib", "/usr/lib/x86_64-linux-gnu", "/usr/lib64"],
        &mut environment,
    );
    assert_eq!(
        environment.env.get("LD_LIBRARY_PATH").unwrap().as_str(),
        "/opt/App/usr/lib:/opt/App/usr/lib/x86_64-linux-gnu:/opt/App/usr/lib64"
    );
}

#[test]
fn suppressed_name_shadowed_but_not_bare() {
    let copied = copy_environment(&snapshot(&[("GEM_PATH", "/home/user/gems")]));
    assert_eq!(
        copied.get("OS_ENV_GEM_PATH").unwrap().as_str(),
        "/home/user/gems"
    );
    assert!(copied.get("GEM_PATH").is_none());
}

#[test]
fn plain_name_copied_twice() {
    let copied = copy_environment(&snapshot(&[("HOME", "/root")]));
    assert_eq!(copied.get("HOME").unwrap().as_str(), "/root");
    assert_eq!(copied.get("OS_ENV_HOME").unwrap().as_str(), "/root");
}

#[test]
fn markers_overwrite_inherited_values() {
    let mut environment = build(
        &[("PYTHONDONTWRITEBYTECODE", "0"), ("APPIMAGE", "older")],
        "/opt/App",
    );
    disable_python_cache(&mut environment);
    identify_as_appimage(&mut environment);
    assert_eq!(
        environment.env.get("PYTHONDONTWRITEBYTECODE").unwrap().as_str(),
        "1"
    );
    assert_eq!(environment.env.get("APPIMAGE").unwrap().as_str(), "1");
}

#[test]
fn inherited_certificate_wins() {
    let mut environment = build(&[("SSL_CERT_FILE", "/custom/ca.pem")], "/opt/App");
    specify_ssl_cert_file(&mut environment, true);
    assert_eq!(
        environment.env.get("SSL_CERT_FILE").unwrap().as_str(),
        "/custom/ca.pem"
    );
}

#[test]
fn bundled_certificate_used_when_absent() {
    let mut environment = build(&[], "/opt/App");
    specify_ssl_cert_file(&mut environment, true);
    assert_eq!(
        environment.env.get("SSL_CERT_FILE").unwrap().as_str(),
        "/opt/App/cacert.pem"
    );
}

#[test]
fn no_certificate_without_bundled_file() {
    let mut environment = build(&[], "/opt/App");
    specify_ssl_cert_file(&mut environment, false);
    assert!(environment.env.get("SSL_CERT_FILE").is_none());
}

#[test]
fn suppression_set_membership() {
    assert!(is_suppressed_name("GEM_PATH"));
    assert!(is_suppressed_name("GEM_HOME"));
    assert!(is_suppressed_name("GEM_ROOT"));
    assert!(!is_suppressed_name("PATH"));
    assert!(!is_suppressed_name("GEM_SPEC"));
}

#[test]
fn string_map_insert_overwrites() {
    let mut map = StringMap::new();
    map.insert("A".to_string(), "1".to_string());
    map.insert("A".to_string(), "2".to_string());
    map.insert("B".to_string(), "3".to_string());
    assert_eq!(map.get("A").unwrap().as_str(), "2");
    assert_eq!(map.get("B").unwrap().as_str(), "3");
    assert!(map.contains_key("A"));
    assert!(!map.contains_key("C"));
}

#[test]
fn full_build_produces_expected_lines() {
    let lines = create_new_environment(
        &snapshot(&[("PATH", "/bin"), ("HOME", "/root"), ("GEM_HOME", "/gems")]),
        "/opt/NoSuchAppRoot".to_string(),
    )
    .unwrap();
    let has = |want: &str| lines.iter().any(|line| line == want);
    assert!(has("PATH=/opt/NoSuchAppRoot/usr/bin:/bin"));
    assert!(has("OS_ENV_PATH=/bin"));
    assert!(has("HOME=/root"));
    assert!(has("OS_ENV_HOME=/root"));
    assert!(has("OS_ENV_GEM_HOME=/gems"));
    assert!(has("PYTHONDONTWRITEBYTECODE=1"));
    assert!(has("APPIMAGE=1"));
    assert!(has("QT_PLUGIN_PATH="));
    assert!(!lines.iter().any(|line| line.starts_with("GEM_HOME=")));
    assert!(!lines.iter().any(|line| line.starts_with("SSL_CERT_FILE=")));
}

#[test]
fn full_build_rejects_embedded_nul() {
    let result = create_new_environment(
        &snapshot(&[("HOME", "/ro\0ot")]),
        "/opt/NoSuchAppRoot".to_string(),
    );
    assert!(result.is_err());
}
