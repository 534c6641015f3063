use coffee::url::{get_repo_name_from_url, handle_incorrect_url, remove_dot_git_from_url, URL};

#[test]
fn url_test_remote() {
    let u = "https://github.com/lightningd/plugins";
    let url = URL::new("/tmp/", u, "lightningd_plugins");
    assert_eq!(url.repo_name, "plugins");
    assert_eq!(url.url_string, u);
}

#[test]
fn test_remote_git_prefix() {
    let u = "https://github.com/lightningd/plugins.git";
    let url = URL::new("/tmp/", u, "lightningd_plugins");
    assert_eq!(url.repo_name, "plugins");
    assert_eq!(url.url_string, remove_dot_git_from_url(u));
}

#[test]
fn url_trailing_slash_is_normalized() {
    assert_eq!(handle_incorrect_url("https://example.com/plugins/"), "https://example.com/plugins");
    assert_eq!(
        handle_incorrect_url("https://example.com/plugins.git"),
        "https://example.com/plugins"
    );
    assert_eq!(handle_incorrect_url("https://example.com/plugins"), "https://example.com/plugins");
}

#[test]
fn url_repo_name_without_slash_is_whole_url() {
    assert_eq!(get_repo_name_from_url("plugins.git"), "plugins");
    assert_eq!(get_repo_name_from_url("plugins"), "plugins");
}

#[test]
fn plugin_info_is_derived_from_the_file_path() {
    let (root, name) =
        coffee::utils::get_plugin_info_from_path("/clones/demo/foo/requirements.txt").unwrap();
    assert_eq!(root, "/clones/demo/foo");
    assert_eq!(name, "foo");
    assert!(coffee::utils::get_plugin_info_from_path("plain").is_err());
}

#[test]
fn url_local_path_is_deterministic() {
    let u = "https://example.com/plugins.git";
    let first = URL::new("/data/.coffee/bitcoin", u, "demo");
    let second = URL::new("/data/.coffee/bitcoin", u, "demo");
    assert_eq!(first.path_string, "/data/.coffee/bitcoin/repositories/demo");
    assert_eq!(first.path_string, second.path_string);
    assert_eq!(first.name, "demo");
}
