use coffee::cln_conf::CLNConf;
use coffee::config::CoffeeConf;
use coffee::errors::{CoffeeError, CODE_GENERIC};
use coffee::plugin::{Plugin, PluginLang};
use coffee::storage::FileStorage;

#[test]
fn conf_binds_network_and_paths() {
    let mut conf = CoffeeConf::new("/data/.coffee");
    assert_eq!(conf.network, "bitcoin");
    assert_eq!(conf.config_path, "/data/.coffee/bitcoin/coffee.conf");
    assert_eq!(conf.path(), "/data/.coffee/bitcoin");

    conf.bind_cmd_line_params(&Some("testnet".to_owned()), &None, false, false);
    assert_eq!(conf.network, "testnet");
    assert_eq!(conf.config_path, "/data/.coffee/testnet/coffee.conf");
    assert_eq!(conf.path(), "/data/.coffee/testnet");
    assert!(!conf.skip_verify);

    // an explicit configuration path wins, and the recovery command
    // skips the verification gate
    conf.bind_cmd_line_params(&None, &Some("/etc/coffee.conf".to_owned()), false, true);
    assert_eq!(conf.config_path, "/etc/coffee.conf");
    assert!(conf.skip_verify);
}

#[test]
fn networks_do_not_collide() {
    let mut mainnet = CoffeeConf::new("/data/.coffee");
    let mut testnet = CoffeeConf::new("/data/.coffee");
    mainnet.bind_cmd_line_params(&None, &None, false, false);
    testnet.bind_cmd_line_params(&Some("testnet".to_owned()), &None, false, false);
    assert_ne!(mainnet.path(), testnet.path());
    assert_ne!(mainnet.config_path, testnet.config_path);
}

#[test]
fn fragment_renders_one_line_per_directive() {
    let mut conf = CLNConf::new("bitcoin", "/data/.coffee/bitcoin/coffee.conf");
    assert_eq!(conf.render(), "");
    conf.add_conf("plugin", "/x/a.py");
    conf.add_conf("important-plugin", "/x/b.py");
    conf.add_conf("disable-plugin", "/x/a.py");
    assert_eq!(
        conf.render(),
        "plugin=/x/a.py\nimportant-plugin=/x/b.py\ndisable-plugin=/x/a.py\n"
    );
    assert!(conf.has_field("plugin", Some("/x/a.py")));
    assert!(!conf.has_field("plugin", Some("/x/b.py")));
    assert!(conf.has_field("important-plugin", None));

    conf.rm_conf("disable-plugin", Some("/x/a.py")).unwrap();
    assert_eq!(conf.render(), "plugin=/x/a.py\nimportant-plugin=/x/b.py\n");
    let err = conf.rm_conf("disable-plugin", Some("/x/a.py")).unwrap_err();
    assert_eq!(err.code, CODE_GENERIC);
}

#[test]
fn error_carries_code_and_message() {
    let err = CoffeeError::new(2, "the installer exited nonzero");
    assert_eq!(err.code(), 2);
    assert_eq!(err.message(), "the installer exited nonzero");
}

#[test]
fn language_defaults() {
    let recipe = PluginLang::PyPip.default_install("/data/plugins/foo", "foo").unwrap();
    assert_eq!(recipe.script, "pip3 install -r requirements.txt --break-system-packages");
    assert_eq!(recipe.exec_path, "/data/plugins/foo/foo.py");

    let recipe = PluginLang::PyPoetry.default_install("/data/plugins/foo", "foo").unwrap();
    assert_eq!(
        recipe.script,
        "pip3 install poetry\npoetry export -f requirements.txt --output requirements.txt\npip3 install -r requirements.txt"
    );

    // languages without a safe default fail explicitly
    assert!(PluginLang::Go.default_install("/p", "x").is_err());
    assert!(PluginLang::Rust.default_install("/p", "x").is_err());
    assert!(PluginLang::Unknown.default_install("/p", "x").is_err());

    assert!(PluginLang::from_manifest_lang("rust").is_ok());
    assert!(PluginLang::from_manifest_lang("rs").is_ok());
    assert!(PluginLang::from_manifest_lang("kotlin").is_ok());
    assert!(PluginLang::from_manifest_lang("cobol").is_err());
}

#[test]
fn plugin_accessors() {
    let p = Plugin::new(
        "foo",
        "/data/plugins/foo",
        "/data/plugins/foo/foo.py",
        PluginLang::PyPip,
        None,
        Some("c0ffee".to_owned()),
        None,
    );
    assert_eq!(p.name(), "foo");
    assert!(!p.important());
    assert!(p.tipping_info().is_none());
}

#[test]
fn storage_file_location_is_fixed() {
    let storage = FileStorage::new("/data/.coffee");
    assert_eq!(storage.get_path(), "/data/.coffee/storage.json");
}

#[test]
fn storage_records_round_trip() {
    let url = coffee::url::URL::new("/data/.coffee/bitcoin", "https://example.com/p.git", "demo");
    let mut repo = coffee::github::Github::new("demo", &url);
    repo.init("c0ffee", 1_431_648_000, true, &vec![]).unwrap();
    let record = coffee::storage::Repository::of_github(&repo);
    assert!(matches!(record.kind, coffee::storage::Kind::Git));
    let back = record.into_github();
    assert_eq!(back, repo);
}

#[test]
fn fragment_text_round_trips() {
    let mut conf = CLNConf::new("bitcoin", "/data/.coffee/bitcoin/coffee.conf");
    conf.add_conf("plugin", "/x/a.py");
    conf.add_conf("important-plugin", "/x/b.py");
    conf.add_conf("disable-plugin", "/x/a.py");
    let text = conf.render();
    let back = CLNConf::parse("bitcoin", "/data/.coffee/bitcoin/coffee.conf", &text);
    assert_eq!(back, conf);
}

#[test]
fn fragment_parse_skips_lines_without_a_directive() {
    let text = "plugin=/x/a.py\njust a note\n\nkey=value=with=equals\ntail";
    let conf = CLNConf::parse("bitcoin", "/tmp/coffee.conf", text);
    assert_eq!(conf.fields.len(), 2);
    assert_eq!(conf.fields[0].key, "plugin");
    assert_eq!(conf.fields[0].value, "/x/a.py");
    assert_eq!(conf.fields[1].key, "key");
    assert_eq!(conf.fields[1].value, "value=with=equals");
}
