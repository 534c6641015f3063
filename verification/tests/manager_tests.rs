use coffee::coffee::CoffeeManager;
use coffee::config::CoffeeConf;
use coffee::errors::CODE_NOT_FOUND;
use coffee::github::RepoDirEntry;
use coffee::plugin_conf::{Conf, Plugin as ManifestPlugin, Tipping};
use coffee::types::{Defect, NurseStatus};

fn manifest(name: &str, lang: &str, main: &str, install: Option<&str>, important: Option<bool>) -> Conf {
    Conf {
        plugin: ManifestPlugin {
            name: name.to_owned(),
            version: "0.1".to_owned(),
            lang: lang.to_owned(),
            deprecated: None,
            dependencies: None,
            install: install.map(|s| s.to_owned()),
            main: main.to_owned(),
            important,
        },
        tipping: None,
    }
}

/// A manager over `/data/.coffee` for the default network, tracking one
/// remote `demo` whose clone carries the plugin `foo`.
fn manager_with_demo_remote() -> CoffeeManager {
    let conf = CoffeeConf::new("/data/.coffee");
    let mut m = CoffeeManager::new(conf).unwrap();
    let mut repo = m.add_remote("demo", "https://example.com/plugins.git").unwrap();
    let entries = vec![RepoDirEntry {
        dir_name: "foo".to_owned(),
        manifest: Some(manifest(
            "foo",
            "pypip",
            "foo.py",
            Some("pip install -r requirements.txt"),
            None,
        )),
        files: vec![],
    }];
    repo.init("c0ffee", 1_431_648_000, true, &entries).unwrap();
    m.add_remote_commit(repo).unwrap();
    m
}

#[test]
fn add_remote_derives_the_clone_path() {
    let m = manager_with_demo_remote();
    // the clone lives at {root}/{network}/repositories/demo
    let repo = m.add_remote("other", "https://example.com/more-plugins").unwrap();
    assert_eq!(repo.url.path_string, "/data/.coffee/bitcoin/repositories/other");
    assert_eq!(m.repositories_home(), "/data/.coffee/bitcoin/repositories");

    let remotes = m.list_remotes().unwrap().remotes.unwrap();
    assert_eq!(remotes.len(), 1);
    assert_eq!(remotes[0].local_name, "demo");
    assert_eq!(remotes[0].url, "https://example.com/plugins");
    assert_eq!(remotes[0].plugins.len(), 1);
    assert_eq!(remotes[0].plugins[0].name(), "foo");

    // a second remote under the same name is refused
    let mut m = m;
    assert!(m.add_remote("demo", "https://example.com/other").is_err());
    let repo = coffee::github::Github::new(
        "demo",
        &coffee::url::URL::new("/data/.coffee/bitcoin", "https://example.com/other", "demo"),
    );
    assert!(m.add_remote_commit(repo).is_err());
}

#[test]
fn install_provisions_under_the_network_directory() {
    let mut m = manager_with_demo_remote();
    let plan = m.install_plan("foo", false).unwrap();
    // the manifest decides the script and the entry point
    assert_eq!(plan.script, "pip install -r requirements.txt");
    assert_eq!(plan.copy_from, "/data/.coffee/bitcoin/repositories/demo/foo");
    assert_eq!(plan.plugin.root_path, "/data/.coffee/bitcoin/plugins/foo");
    assert_eq!(plan.plugin.exec_path, "/data/.coffee/bitcoin/plugins/foo/foo.py");
    // the executable stays a strict sub-path of the root
    assert!(plan.plugin.exec_path.starts_with(plan.plugin.root_path.as_str()));

    m.install_commit(&plan.plugin, false).unwrap();
    let listed = m.list().unwrap().plugins;
    assert_eq!(listed.len(), 1);
    assert_eq!(listed[0].name(), "foo");
    assert_eq!(listed[0].enabled, Some(true));
    // one directive landed in the fragment
    assert_eq!(
        m.coffee_cln_config.render(),
        "plugin=/data/.coffee/bitcoin/plugins/foo/foo.py\n"
    );

    // installing the same name again is refused
    let again = m.install_plan("foo", false).unwrap_err();
    assert_eq!(again.msg, "Plugin with name `foo` already installed");
    // and an unknown name is not present in the repositories
    let missing = m.install_plan("nope", false).unwrap_err();
    assert_eq!(missing.msg, "plugin `nope` are not present inside the repositories");
}

#[test]
fn install_rejects_dynamic_important_plugin() {
    let conf = CoffeeConf::new("/data/.coffee");
    let mut m = CoffeeManager::new(conf).unwrap();
    let mut repo = m.add_remote("demo", "https://example.com/plugins").unwrap();
    let entries = vec![RepoDirEntry {
        dir_name: "guard".to_owned(),
        manifest: Some(manifest("guard", "pypip", "guard.py", Some("make"), Some(true))),
        files: vec![],
    }];
    repo.init("c0ffee", 1_431_648_000, true, &entries).unwrap();
    m.add_remote_commit(repo).unwrap();

    assert!(m.install_plan("guard", true).is_err());
    // statically the same plugin is fine, under the important key
    let plan = m.install_plan("guard", false).unwrap();
    m.install_commit(&plan.plugin, false).unwrap();
    assert_eq!(
        m.coffee_cln_config.render(),
        "important-plugin=/data/.coffee/bitcoin/plugins/guard/guard.py\n"
    );
}

#[test]
fn install_then_remove_restores_the_catalogue() {
    let mut m = manager_with_demo_remote();
    let fragment_before = m.coffee_cln_config.render();
    let plugins_before = m.list().unwrap().plugins;

    let plan = m.install_plan("foo", false).unwrap();
    m.install_commit(&plan.plugin, false).unwrap();
    let removed = m.remove("foo").unwrap();
    assert_eq!(removed.plugin.name(), "foo");

    assert_eq!(m.list().unwrap().plugins, plugins_before);
    assert_eq!(m.coffee_cln_config.render(), fragment_before);
    // the provisioned directory is no alias of the shared clones
    assert!(!removed.plugin.root_path.starts_with(m.repositories_home().as_str()));

    let err = m.remove("foo").unwrap_err();
    assert_eq!(err.msg, "plugin `foo` is already not installed");
}

#[test]
fn dynamic_install_joins_catalogue_without_directive() {
    let mut m = manager_with_demo_remote();
    let plan = m.install_plan("foo", true).unwrap();
    m.install_commit(&plan.plugin, true).unwrap();
    assert_eq!(m.list().unwrap().plugins.len(), 1);
    // no directive was written: a later remove has nothing to drop there
    assert_eq!(m.coffee_cln_config.render(), "");
    assert!(!m.coffee_cln_config.has_field("plugin", Some(plan.plugin.exec_path.as_str())));
    m.remove("foo").unwrap();
    assert_eq!(m.list().unwrap().plugins.len(), 0);
}

#[test]
fn rm_remote_uninstalls_its_plugins() {
    let mut m = manager_with_demo_remote();
    let plan = m.install_plan("foo", false).unwrap();
    m.install_commit(&plan.plugin, false).unwrap();
    assert_eq!(m.list().unwrap().plugins.len(), 1);

    m.rm_remote("demo").unwrap();
    // no plugin sourced from the remote stays installed
    assert_eq!(m.list().unwrap().plugins.len(), 0);
    assert_eq!(m.list_remotes().unwrap().remotes.unwrap().len(), 0);
    assert_eq!(m.coffee_cln_config.render(), "");

    let err = m.rm_remote("demo").unwrap_err();
    assert_eq!(err.msg, "repository with name: demo not found");
}

#[test]
fn search_and_readme_find_the_carrying_remote() {
    let m = manager_with_demo_remote();
    let hit = m.search("foo").unwrap();
    assert_eq!(hit.repository_url, "https://example.com/plugins");
    assert_eq!(hit.plugin.name(), "foo");
    assert_eq!(
        m.readme_path("foo").unwrap(),
        "/data/.coffee/bitcoin/repositories/demo/foo/README.md"
    );
    let err = m.search("nope").unwrap_err();
    assert_eq!(err.code, CODE_NOT_FOUND);

    let listed = m.get_plugins_in_remote("demo").unwrap();
    assert_eq!(listed.plugins.len(), 1);
    assert!(m.get_plugins_in_remote("nope").is_err());
}

#[test]
fn disable_then_enable_restores_the_fragment() {
    let mut m = manager_with_demo_remote();
    let plan = m.install_plan("foo", false).unwrap();
    m.install_commit(&plan.plugin, false).unwrap();
    let fragment_before = m.coffee_cln_config.render();

    m.disable("foo").unwrap();
    assert_eq!(m.list().unwrap().plugins[0].enabled, Some(false));
    assert!(m.coffee_cln_config.has_field(
        "disable-plugin",
        Some("/data/.coffee/bitcoin/plugins/foo/foo.py"),
    ));
    // disabling twice is refused
    assert!(m.disable("foo").is_err());

    m.enable("foo").unwrap();
    assert_eq!(m.list().unwrap().plugins[0].enabled, Some(true));
    assert_eq!(m.coffee_cln_config.render(), fragment_before);
    // enabling twice is refused
    assert!(m.enable("foo").is_err());
    assert!(m.disable("nope").is_err());
}

#[test]
fn upgrade_restamps_the_repository() {
    let mut m = manager_with_demo_remote();
    let up = m.upgrade("demo", "c0ffee", 1_431_648_000).unwrap();
    assert!(matches!(up.status, coffee::types::UpgradeStatus::UpToDate(_, _)));

    let plan = m.install_plan("foo", false).unwrap();
    m.install_commit(&plan.plugin, false).unwrap();
    let up = m.upgrade("demo", "deadbeef", 1_431_734_400).unwrap();
    assert!(matches!(up.status, coffee::types::UpgradeStatus::Updated(_, _)));
    assert_eq!(up.plugins_effected, vec!["foo".to_owned()]);

    let remotes = m.list_remotes().unwrap().remotes.unwrap();
    assert_eq!(remotes[0].commit_id, Some("deadbeef".to_owned()));
    assert_eq!(remotes[0].date, Some("16/05/2015".to_owned()));
    assert!(m.upgrade("nope", "c0ffee", 0).is_err());
}

#[test]
fn setup_binds_the_node_configuration() {
    let mut m = manager_with_demo_remote();
    m.setup("/home/node/.lightning");
    assert_eq!(m.config.cln_root, Some("/home/node/.lightning".to_owned()));
    assert_eq!(
        m.config.cln_config_path,
        Some("/home/node/.lightning/bitcoin/config".to_owned())
    );
}

#[test]
fn tipping_needs_an_installed_plugin_with_an_offer() {
    let conf = CoffeeConf::new("/data/.coffee");
    let mut m = CoffeeManager::new(conf).unwrap();
    let mut repo = m.add_remote("demo", "https://example.com/plugins").unwrap();
    let mut with_offer = manifest("foo", "pypip", "foo.py", Some("make"), None);
    with_offer.tipping = Some(Tipping { bolt12: "lno1qqqq".to_owned() });
    let entries = vec![RepoDirEntry {
        dir_name: "foo".to_owned(),
        manifest: Some(with_offer),
        files: vec![],
    }];
    repo.init("c0ffee", 1_431_648_000, true, &entries).unwrap();
    m.add_remote_commit(repo).unwrap();

    assert!(m.tipping_of("foo").is_err());
    let plan = m.install_plan("foo", false).unwrap();
    m.install_commit(&plan.plugin, false).unwrap();
    assert_eq!(m.tipping_of("foo").unwrap().bolt12, "lno1qqqq");
}

#[test]
fn nurse_detects_and_repairs_a_missing_clone() {
    // the clone of `demo` disappeared out-of-band
    let mut m = manager_with_demo_remote();
    let status = m.nurse_verify(&vec![false], false).unwrap();
    assert_eq!(
        status.defects,
        vec![Defect::RepositoryLocallyAbsent(vec!["demo".to_owned()])]
    );
    // with defects, startup is refused unless verification is skipped
    assert!(m.verify_gate(&status).is_err());

    // the re-clone fails: the repository leaves the catalogue
    let nurse = m.nurse(vec!["demo".to_owned()], &vec![false]).unwrap();
    assert_eq!(
        nurse.status,
        vec![NurseStatus::RepositoryLocallyRemoved(vec!["demo".to_owned()])]
    );
    assert!(!nurse.is_sane());
    assert_eq!(m.list_remotes().unwrap().remotes.unwrap().len(), 0);

    // a second run with no external change finds nothing to do
    let status = m.nurse_verify(&vec![], false).unwrap();
    assert_eq!(status.defects.len(), 0);
    assert!(m.verify_gate(&status).is_ok());
    let nurse = m.nurse(vec![], &vec![]).unwrap();
    assert!(nurse.is_sane());
}

#[test]
fn nurse_restores_a_recoverable_clone() {
    let mut m = manager_with_demo_remote();
    let nurse = m.nurse(vec!["demo".to_owned()], &vec![true]).unwrap();
    assert_eq!(
        nurse.status,
        vec![NurseStatus::RepositoryLocallyRestored(vec!["demo".to_owned()])]
    );
    // the repository stayed in the catalogue, and its restored clone
    // makes the next scan sane
    assert_eq!(m.list_remotes().unwrap().remotes.unwrap().len(), 1);
    let status = m.nurse_verify(&vec![true], false).unwrap();
    assert_eq!(status.defects.len(), 0);
}

#[test]
fn nurse_flags_the_legacy_global_directory() {
    let m = manager_with_demo_remote();
    let status = m.nurse_verify(&vec![true], true).unwrap();
    assert_eq!(
        status.defects,
        vec![Defect::CoffeeGlobalRepoCleanup(vec![(
            "bitcoin".to_owned(),
            "/data/.coffee/repositories".to_owned(),
        )])]
    );
}

#[test]
fn rehydrate_refuses_an_inconsistent_state() {
    let m = {
        let mut m = manager_with_demo_remote();
        let plan = m.install_plan("foo", false).unwrap();
        m.install_commit(&plan.plugin, false).unwrap();
        m
    };

    // the state as persisted round-trips
    let sane = CoffeeManager::rehydrate(
        m.config.clone(),
        m.repos.clone(),
        m.coffee_cln_config.clone(),
    );
    assert!(sane.is_ok());

    // a fragment directive pointing at nothing installed is refused
    let mut stale = m.coffee_cln_config.clone();
    stale.add_conf("plugin", "/elsewhere/bar.py");
    assert!(CoffeeManager::rehydrate(m.config.clone(), m.repos.clone(), stale).is_err());

    // a catalogue entry outside the network's plugins directory is
    // refused as well
    let mut conf = m.config.clone();
    conf.plugins[0].root_path = "/data/.coffee/bitcoin/repositories/demo/foo".to_owned();
    assert!(
        CoffeeManager::rehydrate(conf, m.repos.clone(), m.coffee_cln_config.clone()).is_err()
    );
}

#[test]
fn nurse_report_merges_entries_per_tag() {
    let mut report = coffee::types::CoffeeNurse {
        status: vec![
            NurseStatus::RepositoryLocallyRestored(vec!["a".to_owned()]),
            NurseStatus::RepositoryLocallyRemoved(vec!["b".to_owned()]),
            NurseStatus::RepositoryLocallyRestored(vec!["c".to_owned()]),
        ],
    };
    report.organize();
    assert_eq!(
        report.status,
        vec![
            NurseStatus::RepositoryLocallyRestored(vec!["a".to_owned(), "c".to_owned()]),
            NurseStatus::RepositoryLocallyRemoved(vec!["b".to_owned()]),
        ]
    );
}

#[test]
fn reconcile_repairs_the_crash_window() {
    let m = {
        let mut m = manager_with_demo_remote();
        let plan = m.install_plan("foo", false).unwrap();
        m.install_commit(&plan.plugin, false).unwrap();
        m
    };

    // a crash between the two writes left a stale directive and a flag
    // out of line with the fragment
    let mut conf = m.config.clone();
    conf.plugins[0].enabled = Some(false);
    let mut fragment = m.coffee_cln_config.clone();
    fragment.add_conf("plugin", "/elsewhere/bar.py");
    let repaired =
        CoffeeManager::reconcile(conf, m.repos.clone(), fragment).unwrap();

    // the stale directive is gone, the flag lines up again, and the
    // state is accepted afresh
    assert_eq!(
        repaired.coffee_cln_config.render(),
        "plugin=/data/.coffee/bitcoin/plugins/foo/foo.py\n"
    );
    assert_eq!(repaired.config.plugins[0].enabled, Some(true));
    let again = CoffeeManager::rehydrate(
        repaired.config.clone(),
        repaired.repos.clone(),
        repaired.coffee_cln_config.clone(),
    );
    assert!(again.is_ok());

    // a broken catalogue is beyond this repair
    let mut twin = m.config.clone();
    let mut double = twin.plugins[0].clone();
    double.root_path = "/data/.coffee/bitcoin/plugins/foo".to_owned();
    twin.plugins.push(double);
    assert!(
        CoffeeManager::reconcile(twin, m.repos.clone(), m.coffee_cln_config.clone()).is_err()
    );
}
