//! The git-backed repository: a named remote whose local clone is walked
//! once to index the plugins it contains.  All git and file work happens
//! outside; this module decides how each top-level directory of the clone
//! is classified and keeps the resulting catalogue.
use chrono::TimeZone;
use vstd::prelude::*;

use crate::errors::{CoffeeError, CODE_GENERIC};
use crate::plugin::{clone_plugins, plugins_view, spec_lang_of, Plugin, PluginLang, PluginView};
use crate::plugin_conf::{strings_view, Conf, ConfView};
use crate::text::{clone_opt_string, concat_str, eq_str, join_path, opt_string_view};
use crate::types::{CoffeeUpgrade, UpgradeStatus};
use crate::url::{URL, URLView};

verus! {

/// The date of the commit with this timestamp, written day/month/year.
pub uninterp spec fn commit_date_of(ts: int) -> Seq<char>;

/// Whether chrono can represent this timestamp as a date: true for all
/// but the astronomically remote seconds chrono's date range excludes.
pub uninterp spec fn commit_ts_valid(ts: int) -> bool;

/// Relies on chrono's `Utc.timestamp_opt` and `DateTime::format`: the
/// call answers a single value for an in-range number of seconds and
/// none otherwise, so both the outcome and the rendered date — `%d/%m/%Y`
/// in UTC, numeric and locale-independent — are functions of the
/// timestamp alone.
#[verifier::external_body]
fn format_commit_date(ts: i64) -> (r: Option<String>)
    ensures
        r is Some <==> commit_ts_valid(ts as int),
        r is Some ==> r.unwrap()@ == commit_date_of(ts as int),
{
    match chrono::Utc.timestamp_opt(ts, 0) {
        chrono::LocalResult::Single(dt) => Some(dt.format("%d/%m/%Y").to_string()),
        _ => None,
    }
}

/// Mathematical content of a [`RepoDirEntry`].
#[verifier::ext_equal]
pub ghost struct RepoDirEntryView {
    pub dir_name: Seq<char>,
    pub manifest: Option<ConfView>,
    pub files: Seq<Seq<char>>,
}

/// What the indexer is told about one top-level directory of a clone:
/// the directory's name, its parsed manifest when it has one, and the
/// names of the files one level deep inside it.
#[derive(Debug, PartialEq, Eq)]
pub struct RepoDirEntry {
    pub dir_name: String,
    pub manifest: Option<Conf>,
    pub files: Vec<String>,
}

impl View for RepoDirEntry {
    type V = RepoDirEntryView;

    open spec fn view(&self) -> RepoDirEntryView {
        RepoDirEntryView {
            dir_name: self.dir_name@,
            manifest: match self.manifest {
                Some(c) => Some(c@),
                None => None,
            },
            files: strings_view(self.files@),
        }
    }
}

/// The contents of a list of directory entries, as their views.
pub open spec fn entries_view(v: Seq<RepoDirEntry>) -> Seq<RepoDirEntryView> {
    v.map_values(|e: RepoDirEntry| e@)
}

/// The language a well-known marker file names, if any.
pub open spec fn spec_marker_lang(f: Seq<char>) -> Option<PluginLang> {
    if f == "requirements.txt"@ {
        Some(PluginLang::PyPip)
    } else if f == "pyproject.toml"@ {
        Some(PluginLang::PyPoetry)
    } else if f == "go.mod"@ {
        Some(PluginLang::Go)
    } else if f == "cargo.toml"@ {
        Some(PluginLang::Rust)
    } else if f == "pubspec.yaml"@ {
        Some(PluginLang::Dart)
    } else if f == "package.json"@ {
        Some(PluginLang::JavaScript)
    } else if f == "tsconfig.json"@ {
        Some(PluginLang::TypeScript)
    } else {
        None
    }
}

/// The first recognized marker in a directory listing, if any.
pub open spec fn spec_first_marker(files: Seq<Seq<char>>) -> Option<PluginLang>
    decreases files.len(),
{
    if files.len() == 0 {
        None
    } else if spec_marker_lang(files.first()) is Some {
        spec_marker_lang(files.first())
    } else {
        spec_first_marker(files.drop_first())
    }
}

fn marker_lang(f: &str) -> (r: Option<PluginLang>)
    ensures
        r == spec_marker_lang(f@),
{
    if eq_str(f, "requirements.txt") {
        Some(PluginLang::PyPip)
    } else if eq_str(f, "pyproject.toml") {
        Some(PluginLang::PyPoetry)
    } else if eq_str(f, "go.mod") {
        Some(PluginLang::Go)
    } else if eq_str(f, "cargo.toml") {
        Some(PluginLang::Rust)
    } else if eq_str(f, "pubspec.yaml") {
        Some(PluginLang::Dart)
    } else if eq_str(f, "package.json") {
        Some(PluginLang::JavaScript)
    } else if eq_str(f, "tsconfig.json") {
        Some(PluginLang::TypeScript)
    } else {
        None
    }
}

fn first_marker(files: &Vec<String>) -> (r: Option<PluginLang>)
    ensures
        r == spec_first_marker(strings_view(files@)),
{
    let mut i: usize = 0;
    proof {
        assert(strings_view(files@).skip(0) =~= strings_view(files@));
    }
    while i < files.len()
        invariant
            0 <= i <= files.len(),
            spec_first_marker(strings_view(files@)) == spec_first_marker(
                strings_view(files@).skip(i as int),
            ),
        decreases files.len() - i,
    {
        let r = marker_lang(files[i].as_str());
        proof {
            let fv = strings_view(files@);
            assert(fv.skip(i as int).first() == fv[i as int]);
            assert(fv.skip(i as int).drop_first() =~= fv.skip(i + 1 as int));
        }
        if r.is_some() {
            return r;
        }
        i = i + 1;
    }
    proof {
        assert(strings_view(files@).skip(files.len() as int) =~= Seq::<Seq<char>>::empty());
    }
    None
}

/// Whether indexing must fail for this directory: it carries a manifest
/// whose language string is not in the supported set.
pub open spec fn spec_dir_fails(e: RepoDirEntryView) -> bool {
    match e.manifest {
        Some(m) => spec_lang_of(m.plugin.lang) is None,
        None => false,
    }
}

/// The plugin a directory indexes to, when it indexes to one: a manifest
/// decides name, language and entry point; otherwise the first marker
/// file decides, and only the python markers resolve an entry point.
pub open spec fn spec_dir_plugin(
    repo_path: Seq<char>,
    commit: Option<Seq<char>>,
    e: RepoDirEntryView,
) -> Option<PluginView>
    recommends
        !spec_dir_fails(e),
{
    let root = repo_path + seq!['/'] + e.dir_name;
    match e.manifest {
        Some(m) => Some(
            PluginView {
                name: m.plugin.name,
                root_path: root,
                exec_path: root + seq!['/'] + m.plugin.main,
                lang: spec_lang_of(m.plugin.lang).unwrap(),
                conf: Some(m),
                commit,
                enabled: None,
            },
        ),
        None => match spec_first_marker(e.files) {
            Some(PluginLang::PyPip) => Some(
                PluginView {
                    name: e.dir_name,
                    root_path: root,
                    exec_path: root + seq!['/'] + e.dir_name + ".py"@,
                    lang: PluginLang::PyPip,
                    conf: None,
                    commit,
                    enabled: None,
                },
            ),
            Some(PluginLang::PyPoetry) => Some(
                PluginView {
                    name: e.dir_name,
                    root_path: root,
                    exec_path: root + seq!['/'] + e.dir_name + ".py"@,
                    lang: PluginLang::PyPoetry,
                    conf: None,
                    commit,
                    enabled: None,
                },
            ),
            _ => None,
        },
    }
}

/// Classify one top-level directory of the clone.  An unsupported
/// manifest language fails this directory and nothing else; a directory
/// without a derivable entry point is skipped.
pub fn index_dir_entry(repo_path: &str, commit: &Option<String>, entry: &RepoDirEntry) -> (r:
    Result<Option<Plugin>, CoffeeError>)
    ensures
        r is Err <==> spec_dir_fails(entry@),
        r is Ok ==> (r.unwrap() is Some <==> spec_dir_plugin(
            repo_path@,
            opt_string_view(*commit),
            entry@,
        ) is Some),
        r is Ok && r.unwrap() is Some ==> r.unwrap().unwrap()@ == spec_dir_plugin(
            repo_path@,
            opt_string_view(*commit),
            entry@,
        ).unwrap(),
        r is Err ==> r->Err_0.code == CODE_GENERIC,
{
    let root = join_path(repo_path, entry.dir_name.as_str());
    match &entry.manifest {
        Some(conf) => {
            let lang = PluginLang::from_manifest_lang(conf.plugin.lang.as_str())?;
            let exec = join_path(root.as_str(), conf.plugin.main.as_str());
            let p = Plugin::new(
                conf.plugin.name.as_str(),
                root.as_str(),
                exec.as_str(),
                lang,
                Some(conf.clone()),
                clone_opt_string(commit),
                None,
            );
            proof {
                assert(p@ =~= spec_dir_plugin(
                    repo_path@,
                    opt_string_view(*commit),
                    entry@,
                ).unwrap());
            }
            Ok(Some(p))
        },
        None => {
            match first_marker(&entry.files) {
                Some(PluginLang::PyPip) => {
                    let exec = concat_str(
                        join_path(root.as_str(), entry.dir_name.as_str()).as_str(),
                        ".py",
                    );
                    let p = Plugin::new(
                        entry.dir_name.as_str(),
                        root.as_str(),
                        exec.as_str(),
                        PluginLang::PyPip,
                        None,
                        clone_opt_string(commit),
                        None,
                    );
                    proof {
                        assert(p@ =~= spec_dir_plugin(
                            repo_path@,
                            opt_string_view(*commit),
                            entry@,
                        ).unwrap());
                    }
                    Ok(Some(p))
                },
                Some(PluginLang::PyPoetry) => {
                    let exec = concat_str(
                        join_path(root.as_str(), entry.dir_name.as_str()).as_str(),
                        ".py",
                    );
                    let p = Plugin::new(
                        entry.dir_name.as_str(),
                        root.as_str(),
                        exec.as_str(),
                        PluginLang::PyPoetry,
                        None,
                        clone_opt_string(commit),
                        None,
                    );
                    proof {
                        assert(p@ =~= spec_dir_plugin(
                            repo_path@,
                            opt_string_view(*commit),
                            entry@,
                        ).unwrap());
                    }
                    Ok(Some(p))
                },
                _ => Ok(None),
            }
        },
    }
}

/// The catalogue a list of directory entries indexes to.  A failing
/// directory contributes nothing; neither does a skipped one.
pub open spec fn spec_index_catalogue(
    repo_path: Seq<char>,
    commit: Option<Seq<char>>,
    entries: Seq<RepoDirEntryView>,
) -> Seq<PluginView>
    decreases entries.len(),
{
    if entries.len() == 0 {
        Seq::empty()
    } else {
        let prefix = spec_index_catalogue(repo_path, commit, entries.drop_last());
        if spec_dir_fails(entries.last()) {
            prefix
        } else {
            match spec_dir_plugin(repo_path, commit, entries.last()) {
                Some(p) => prefix.push(p),
                None => prefix,
            }
        }
    }
}

/// Indexing is a function of the clone's contents alone: walking equal
/// directory entries, with equal provenance, yields the same catalogue.
/// In particular, re-indexing an unchanged clone reproduces the plugin
/// catalogue exactly: same names, languages and executable paths.
pub proof fn lemma_index_idempotent(
    repo_path: Seq<char>,
    commit: Option<Seq<char>>,
    first_walk: Seq<RepoDirEntryView>,
    second_walk: Seq<RepoDirEntryView>,
)
    requires
        first_walk == second_walk,
    ensures
        spec_index_catalogue(repo_path, commit, first_walk) == spec_index_catalogue(
            repo_path,
            commit,
            second_walk,
        ),
{
}

/// Mathematical content of a [`Github`] repository.
#[verifier::ext_equal]
pub ghost struct GithubView {
    pub url: URLView,
    pub name: Seq<char>,
    pub plugins: Seq<PluginView>,
    pub branch: Seq<char>,
    pub git_head: Option<Seq<char>>,
    pub last_activity: Option<Seq<char>>,
}

/// A tracked git repository and the catalogue indexed from it.
#[derive(Debug, PartialEq, Eq)]
pub struct Github {
    /// the url of the repository to be able
    /// to get all the plugin information.
    pub url: URL,
    /// the name of the repository that can be used
    /// as the repository key.
    pub name: String,
    /// all the plugins that are listed inside the
    /// repository.
    pub plugins: Vec<Plugin>,
    /// the name of the branch to pull the changes from.
    pub branch: String,
    /// the latest commit id of the repository.
    pub git_head: Option<String>,
    /// the latest commit date of the repository.
    pub last_activity: Option<String>,
}

impl View for Github {
    type V = GithubView;

    open spec fn view(&self) -> GithubView {
        GithubView {
            url: self.url@,
            name: self.name@,
            plugins: plugins_view(self.plugins@),
            branch: self.branch@,
            git_head: opt_string_view(self.git_head),
            last_activity: opt_string_view(self.last_activity),
        }
    }
}

impl Clone for Github {
    fn clone(&self) -> (r: Self)
        ensures
            r@ == self@,
    {
        let r = Github {
            url: self.url.clone(),
            name: self.name.clone(),
            plugins: clone_plugins(&self.plugins),
            branch: self.branch.clone(),
            git_head: clone_opt_string(&self.git_head),
            last_activity: clone_opt_string(&self.last_activity),
        };
        proof {
            assert(r@ =~= self@);
        }
        r
    }
}

/// The first plugin named `name` in a catalogue, if any.
pub open spec fn spec_find_plugin(s: Seq<PluginView>, name: Seq<char>) -> Option<PluginView>
    decreases s.len(),
{
    if s.len() == 0 {
        None
    } else if s.first().name == name {
        Some(s.first())
    } else {
        spec_find_plugin(s.drop_first(), name)
    }
}

/// A catalogue search fails exactly when no entry carries the name.
pub proof fn lemma_find_plugin_absent(s: Seq<PluginView>, name: Seq<char>)
    ensures
        spec_find_plugin(s, name) is None <==> (forall|m: int|
            0 <= m < s.len() ==> (#[trigger] s[m]).name != name),
    decreases s.len(),
{
    if s.len() > 0 {
        lemma_find_plugin_absent(s.drop_first(), name);
        assert(forall|m: int|
            0 <= m < s.drop_first().len() ==> #[trigger] s.drop_first()[m] == s[m + 1]);
        if s.first().name != name && (forall|m: int|
            0 <= m < s.drop_first().len() ==> (#[trigger] s.drop_first()[m]).name != name) {
            assert forall|m: int| 0 <= m < s.len() implies (#[trigger] s[m]).name != name by {
                if m > 0 {
                    assert(s.drop_first()[m - 1] == s[m]);
                }
            }
        }
    }
}

/// What the catalogue search finds is named what was searched for.
pub proof fn lemma_find_plugin_name(s: Seq<PluginView>, name: Seq<char>)
    ensures
        spec_find_plugin(s, name) is Some ==> spec_find_plugin(s, name).unwrap().name == name,
    decreases s.len(),
{
    if s.len() > 0 && s.first().name != name {
        lemma_find_plugin_name(s.drop_first(), name);
    }
}

impl Github {
    /// Create a new instance of the repository
    /// with a name and a url.
    pub fn new(name: &str, url: &URL) -> (r: Self)
        ensures
            r@.name == name@,
            r@.url == url@,
            r@.plugins == Seq::<PluginView>::empty(),
            r@.branch == ""@,
            r@.git_head is None,
            r@.last_activity is None,
    {
        let r = Github {
            name: name.to_owned(),
            url: url.clone(),
            plugins: Vec::new(),
            branch: "".to_owned(),
            git_head: None,
            last_activity: None,
        };
        proof {
            assert(plugins_view(r.plugins@) =~= Seq::<PluginView>::empty());
        }
        r
    }

    /// Index the repository to store information
    /// related to the plugins.
    pub fn index_repository(&mut self, entries: &Vec<RepoDirEntry>)
        ensures
            final(self)@ == (GithubView {
                plugins: spec_index_catalogue(
                    old(self)@.url.path_string,
                    old(self)@.git_head,
                    entries_view(entries@),
                ),
                ..old(self)@
            }),
    {
        let mut plugins: Vec<Plugin> = Vec::new();
        let mut i: usize = 0;
        while i < entries.len()
            invariant
                0 <= i <= entries.len(),
                plugins_view(plugins@) == spec_index_catalogue(
                    self@.url.path_string,
                    self@.git_head,
                    entries_view(entries@).take(i as int),
                ),
            decreases entries.len() - i,
        {
            proof {
                let ev = entries_view(entries@);
                assert(ev.take(i + 1 as int) =~= ev.take(i as int).push(ev[i as int]));
                assert(ev.take(i + 1 as int).drop_last() =~= ev.take(i as int));
            }
            match index_dir_entry(self.url.path_string.as_str(), &self.git_head, &entries[i]) {
                Ok(Some(p)) => {
                    let ghost plugins0 = plugins@;
                    plugins.push(p);
                    proof {
                        assert(plugins_view(plugins@) =~= plugins_view(plugins0).push(
                            plugins@.last()@,
                        ));
                    }
                },
                Ok(None) => {},
                Err(_) => {
                    // an unsupported manifest fails this directory alone;
                    // the rest of the repository is still indexed
                },
            }
            i = i + 1;
        }
        proof {
            assert(entries_view(entries@).take(entries.len() as int) =~= entries_view(entries@));
        }
        self.plugins = plugins;
    }

    /// Record what the fresh clone looks like — its head commit, the
    /// commit's timestamp and which branch it tracks — and index it.
    pub fn init(
        &mut self,
        commit_id: &str,
        commit_ts: i64,
        has_master_branch: bool,
        entries: &Vec<RepoDirEntry>,
    ) -> (r: Result<(), CoffeeError>)
        ensures
            r is Ok <==> commit_ts_valid(commit_ts as int),
            r is Ok ==> final(self)@ == (GithubView {
                branch: if has_master_branch {
                    "master"@
                } else {
                    "main"@
                },
                git_head: Some(commit_id@),
                last_activity: Some(commit_date_of(commit_ts as int)),
                plugins: spec_index_catalogue(
                    old(self)@.url.path_string,
                    Some(commit_id@),
                    entries_view(entries@),
                ),
                ..old(self)@
            }),
            r is Err ==> final(self)@ == old(self)@ && r->Err_0.code == CODE_GENERIC,
    {
        let date = match format_commit_date(commit_ts) {
            Some(d) => d,
            None => {
                return Err(CoffeeError::new(CODE_GENERIC, "Invalid timestamp"));
            },
        };
        self.branch = if has_master_branch {
            "master".to_owned()
        } else {
            "main".to_owned()
        };
        self.git_head = Some(commit_id.to_owned());
        self.last_activity = Some(date);
        self.index_repository(entries);
        proof {
            assert(final(self)@ =~= (GithubView {
                branch: if has_master_branch {
                    "master"@
                } else {
                    "main"@
                },
                git_head: Some(commit_id@),
                last_activity: Some(commit_date_of(commit_ts as int)),
                plugins: spec_index_catalogue(
                    old(self)@.url.path_string,
                    Some(commit_id@),
                    entries_view(entries@),
                ),
                ..old(self)@
            }));
        }
        Ok(())
    }

    /// list of the plugins contained inside the repository.
    pub fn list(&self) -> (r: Result<Vec<Plugin>, CoffeeError>)
        ensures
            r is Ok,
            plugins_view(r.unwrap()@) == self@.plugins,
    {
        Ok(clone_plugins(&self.plugins))
    }

    /// name of the repository.
    pub fn name(&self) -> (r: String)
        ensures
            r@ == self@.name,
    {
        self.name.clone()
    }

    /// url of the repository.
    pub fn url(&self) -> (r: URL)
        ensures
            r@ == self@.url,
    {
        self.url.clone()
    }

    /// search inside the repository for a plugin by name.
    pub fn get_plugin_by_name(&self, name: &str) -> (r: Option<Plugin>)
        ensures
            r is Some <==> spec_find_plugin(self@.plugins, name@) is Some,
            r is Some ==> r.unwrap()@ == spec_find_plugin(self@.plugins, name@).unwrap(),
    {
        let mut i: usize = 0;
        proof {
            assert(self@.plugins.skip(0) =~= self@.plugins);
        }
        while i < self.plugins.len()
            invariant
                0 <= i <= self.plugins.len(),
                spec_find_plugin(self@.plugins, name@) == spec_find_plugin(
                    self@.plugins.skip(i as int),
                    name@,
                ),
            decreases self.plugins.len() - i,
        {
            proof {
                let pv = self@.plugins;
                assert(pv.skip(i as int).first() == pv[i as int]);
                assert(pv.skip(i as int).drop_first() =~= pv.skip(i + 1 as int));
            }
            if eq_str(self.plugins[i].name.as_str(), name) {
                return Some(self.plugins[i].clone());
            }
            i = i + 1;
        }
        proof {
            assert(self@.plugins.skip(self.plugins.len() as int) =~= Seq::<PluginView>::empty());
        }
        None
    }
}

/// The names of the installed plugins that also appear in a repository's
/// catalogue, in catalogue order: these are the plugins an upgrade of the
/// repository affects.
pub open spec fn spec_effected(
    catalogue: Seq<PluginView>,
    installed: Seq<PluginView>,
) -> Seq<Seq<char>>
    decreases catalogue.len(),
{
    if catalogue.len() == 0 {
        Seq::empty()
    } else {
        spec_effected(catalogue.drop_last(), installed) + (if (exists|j: int|
            0 <= j < installed.len() && installed[j].name == catalogue.last().name) {
            seq![catalogue.last().name]
        } else {
            Seq::<Seq<char>>::empty()
        })
    }
}

/// Whether a list of plugins holds one with this name.
pub fn contains_plugin_name(v: &Vec<Plugin>, name: &str) -> (r: bool)
    ensures
        r == exists|j: int| 0 <= j < v@.len() && plugins_view(v@)[j].name == name@,
{
    let mut i: usize = 0;
    while i < v.len()
        invariant
            0 <= i <= v.len(),
            forall|j: int| 0 <= j < i ==> plugins_view(v@)[j].name != name@,
        decreases v.len() - i,
    {
        if eq_str(v[i].name.as_str(), name) {
            proof {
                assert(plugins_view(v@)[i as int].name == name@);
            }
            return true;
        }
        i = i + 1;
    }
    false
}

impl Github {
    /// Take the outcome of fetching the tracked branch — the upstream tip
    /// and its timestamp — decide whether the repository advanced, restamp
    /// its provenance, and name the installed plugins the move affects.
    pub fn upgrade(&mut self, plugins: &Vec<Plugin>, new_commit: &str, new_ts: i64) -> (r: Result<
        CoffeeUpgrade,
        CoffeeError,
    >)
        ensures
            r is Ok <==> commit_ts_valid(new_ts as int),
            r is Err ==> final(self)@ == old(self)@ && r->Err_0.code == CODE_GENERIC,
            r is Ok ==> {
                let up_to_date = (match old(self)@.git_head {
                    Some(c) => c == new_commit@,
                    None => false,
                });
                &&& final(self)@ == (GithubView {
                    git_head: Some(new_commit@),
                    last_activity: Some(commit_date_of(new_ts as int)),
                    ..old(self)@
                })
                &&& r.unwrap().repo@ == old(self)@.name
                &&& crate::plugin_conf::strings_view(r.unwrap().plugins_effected@)
                    == spec_effected(old(self)@.plugins, plugins_view(plugins@))
                &&& (up_to_date ==> (r.unwrap().status matches UpgradeStatus::UpToDate(c, d)
                    && c@ == new_commit@ && d@ == commit_date_of(new_ts as int)))
                &&& (!up_to_date ==> (r.unwrap().status matches UpgradeStatus::Updated(c, d)
                    && c@ == new_commit@ && d@ == commit_date_of(new_ts as int)))
            },
    {
        let date = match format_commit_date(new_ts) {
            Some(d) => d,
            None => {
                return Err(CoffeeError::new(CODE_GENERIC, "Invalid timestamp"));
            },
        };
        let mut effected: Vec<String> = Vec::new();
        let mut i: usize = 0;
        while i < self.plugins.len()
            invariant
                0 <= i <= self.plugins.len(),
                crate::plugin_conf::strings_view(effected@) == spec_effected(
                    self@.plugins.take(i as int),
                    plugins_view(plugins@),
                ),
            decreases self.plugins.len() - i,
        {
            proof {
                let pv = self@.plugins;
                assert(pv.take(i + 1 as int) =~= pv.take(i as int).push(pv[i as int]));
                assert(pv.take(i + 1 as int).drop_last() =~= pv.take(i as int));
            }
            if contains_plugin_name(plugins, self.plugins[i].name.as_str()) {
                let ghost effected0 = effected@;
                effected.push(self.plugins[i].name());
                proof {
                    assert(crate::plugin_conf::strings_view(effected@) =~= crate::plugin_conf::strings_view(effected0) + seq![self@.plugins[i as int].name]);
                }
            }
            i = i + 1;
        }
        proof {
            assert(self@.plugins.take(self.plugins.len() as int) =~= self@.plugins);
        }
        let up_to_date = match &self.git_head {
            Some(c) => eq_str(c.as_str(), new_commit),
            None => false,
        };
        let status = if up_to_date {
            UpgradeStatus::UpToDate(new_commit.to_owned(), date.clone())
        } else {
            UpgradeStatus::Updated(new_commit.to_owned(), date.clone())
        };
        self.git_head = Some(new_commit.to_owned());
        self.last_activity = Some(date);
        let repo_name = self.name();
        proof {
            assert(final(self)@ =~= (GithubView {
                git_head: Some(new_commit@),
                last_activity: Some(commit_date_of(new_ts as int)),
                ..old(self)@
            }));
        }
        Ok(CoffeeUpgrade { repo: repo_name, status, plugins_effected: effected })
    }
}

} // verus!
