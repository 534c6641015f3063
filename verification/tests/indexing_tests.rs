use coffee::github::{index_dir_entry, Github, RepoDirEntry};
use coffee::plugin::PluginLang;
use coffee::plugin_conf::{Conf, Plugin as ManifestPlugin};
use coffee::url::URL;

fn manifest(name: &str, lang: &str, main: &str, install: Option<&str>, important: Option<bool>) -> Conf {
    Conf {
        plugin: ManifestPlugin {
            name: name.to_owned(),
            version: "0.1".to_owned(),
            lang: lang.to_owned(),
            deprecated: None,
            dependencies: None,
            install: install.map(|s| s.to_owned()),
            main: main.to_owned(),
            important,
        },
        tipping: None,
    }
}

fn demo_repo() -> Github {
    let url = URL::new("/data/.coffee/bitcoin", "https://example.com/plugins.git", "demo");
    Github::new("demo", &url)
}

#[test]
fn index_manifest_directory() {
    let entry = RepoDirEntry {
        dir_name: "foo".to_owned(),
        manifest: Some(manifest("foo", "pypip", "foo.py", None, None)),
        files: vec![],
    };
    let commit = Some("c0ffee".to_owned());
    let p = index_dir_entry("/clones/demo", &commit, &entry).unwrap().unwrap();
    assert_eq!(p.name, "foo");
    assert_eq!(p.root_path, "/clones/demo/foo");
    assert_eq!(p.exec_path, "/clones/demo/foo/foo.py");
    assert_eq!(p.lang, PluginLang::PyPip);
    assert_eq!(p.commit, Some("c0ffee".to_owned()));
}

#[test]
fn index_heuristic_markers() {
    let entry = RepoDirEntry {
        dir_name: "bar".to_owned(),
        manifest: None,
        files: vec!["README.md".to_owned(), "requirements.txt".to_owned()],
    };
    let p = index_dir_entry("/clones/demo", &None, &entry).unwrap().unwrap();
    assert_eq!(p.name, "bar");
    assert_eq!(p.lang, PluginLang::PyPip);
    assert_eq!(p.exec_path, "/clones/demo/bar/bar.py");

    // a marker without a derivable entry point skips the directory
    let entry = RepoDirEntry {
        dir_name: "baz".to_owned(),
        manifest: None,
        files: vec!["go.mod".to_owned()],
    };
    assert!(index_dir_entry("/clones/demo", &None, &entry).unwrap().is_none());

    // no marker at all skips the directory too
    let entry = RepoDirEntry {
        dir_name: "docs".to_owned(),
        manifest: None,
        files: vec!["README.md".to_owned()],
    };
    assert!(index_dir_entry("/clones/demo", &None, &entry).unwrap().is_none());
}

#[test]
fn unsupported_manifest_language_fails_only_its_directory() {
    let bad = RepoDirEntry {
        dir_name: "odd".to_owned(),
        manifest: Some(manifest("odd", "cobol", "odd.cob", None, None)),
        files: vec![],
    };
    let commit = Some("c0ffee".to_owned());
    // the directory itself is a hard error ...
    assert!(index_dir_entry("/clones/demo", &commit, &bad).unwrap_err().code == 1);

    // ... but indexing the repository goes on with the rest
    let good = RepoDirEntry {
        dir_name: "foo".to_owned(),
        manifest: Some(manifest("foo", "pypip", "foo.py", None, None)),
        files: vec![],
    };
    let mut repo = demo_repo();
    repo.init("c0ffee", 1_700_000_000, true, &vec![bad, good]).unwrap();
    let plugins = repo.list().unwrap();
    assert_eq!(plugins.len(), 1);
    assert_eq!(plugins[0].name(), "foo");
}

#[test]
fn indexing_is_idempotent() {
    let entries = vec![
        RepoDirEntry {
            dir_name: "foo".to_owned(),
            manifest: Some(manifest("foo", "pypip", "foo.py", None, None)),
            files: vec![],
        },
        RepoDirEntry {
            dir_name: "bar".to_owned(),
            manifest: None,
            files: vec!["pyproject.toml".to_owned()],
        },
    ];
    let entries_again = vec![
        RepoDirEntry {
            dir_name: "foo".to_owned(),
            manifest: Some(manifest("foo", "pypip", "foo.py", None, None)),
            files: vec![],
        },
        RepoDirEntry {
            dir_name: "bar".to_owned(),
            manifest: None,
            files: vec!["pyproject.toml".to_owned()],
        },
    ];
    let mut first = demo_repo();
    first.init("c0ffee", 1_700_000_000, true, &entries).unwrap();
    let mut second = demo_repo();
    second.init("c0ffee", 1_700_000_000, true, &entries_again).unwrap();
    assert_eq!(first.list().unwrap(), second.list().unwrap());

    // re-indexing an unchanged clone in place reproduces the catalogue
    let before = first.list().unwrap();
    first.index_repository(&entries);
    assert_eq!(first.list().unwrap(), before);
}

#[test]
fn init_records_branch_and_provenance() {
    let mut repo = demo_repo();
    repo.init("c0ffee", 1_431_648_000, true, &vec![]).unwrap();
    assert_eq!(repo.branch, "master");
    assert_eq!(repo.git_head, Some("c0ffee".to_owned()));
    // 15 May 2015, the commit timestamp, formatted day/month/year
    assert_eq!(repo.last_activity, Some("15/05/2015".to_owned()));

    let mut repo = demo_repo();
    repo.init("c0ffee", 1_431_648_000, false, &vec![]).unwrap();
    assert_eq!(repo.branch, "main");
}

#[test]
fn upgrade_reports_effected_plugins() {
    let entries = vec![RepoDirEntry {
        dir_name: "foo".to_owned(),
        manifest: Some(manifest("foo", "pypip", "foo.py", None, None)),
        files: vec![],
    }];
    let mut repo = demo_repo();
    repo.init("c0ffee", 1_431_648_000, true, &vec![]).unwrap();
    repo.index_repository(&entries);

    // an installed plugin of the same name is effected by the move
    let installed = repo.list().unwrap();
    let up = repo.upgrade(&installed, "deadbeef", 1_431_734_400).unwrap();
    assert_eq!(up.repo, "demo");
    assert_eq!(up.plugins_effected, vec!["foo".to_owned()]);
    assert!(matches!(up.status, coffee::types::UpgradeStatus::Updated(_, _)));
    assert_eq!(up.status.commit_id(), "deadbeef");
    assert_eq!(up.status.date(), "16/05/2015");

    // fetching the same tip again reports up to date
    let up = repo.upgrade(&vec![], "deadbeef", 1_431_734_400).unwrap();
    assert!(matches!(up.status, coffee::types::UpgradeStatus::UpToDate(_, _)));
    assert_eq!(up.plugins_effected.len(), 0);
}
