//! The provisioning manager: the stateful orchestrator that owns the
//! catalogue of repositories and installed plugins, drives install,
//! remove, upgrade, enable and disable, and is the only writer of the
//! managed configuration fragment.
//!
//! All decisions are made here over plain values.  The surrounding
//! binary clones, copies, deletes and runs scripts as the returned plans
//! say, and reports outcomes back through the `*_commit` methods.
use vstd::pervasive::VecAdditionalExecFns;
use vstd::prelude::*;

use crate::cln_conf::{
    lemma_add_then_rm, lemma_rm_field_absent, lemma_rm_field_complete, lemma_rm_field_sound,
    spec_field_matches, spec_has_field, spec_rm_field, CLNConf, ConfField, ConfFieldView,
};
use crate::config::{CoffeeConf, CoffeeConfView};
use crate::errors::{CoffeeError, CODE_GENERIC, CODE_NOT_FOUND};
use crate::github::{spec_find_plugin, Github, GithubView};
use crate::plugin::{plugins_view, spec_important, Plugin, PluginView};
use crate::text::{concat3, concat_str, eq_str, join_path, last_slash_index, strip_prefix_string};
use crate::types::{CoffeeList, CoffeeListRemote, CoffeeRemote, CoffeeRemove, CoffeeSearch};
use crate::url::URL;

verus! {

/// The network-scoped directory that provisioned plugins live under:
/// `{root}/{network}/plugins`.
pub open spec fn spec_plugins_dir(c: CoffeeConfView) -> Seq<char> {
    c.root_path + seq!['/'] + c.network + "/plugins"@
}

/// A provisioned plugin is scoped: its name is a nonempty path segment,
/// its root is the plugin's own directory under the network's plugins
/// directory, and its executable lies strictly inside that root.
pub open spec fn spec_plugin_scoped(dir: Seq<char>, p: PluginView) -> bool {
    &&& p.name.len() > 0
    &&& (forall|k: int| 0 <= k < p.name.len() ==> p.name[k] != '/')
    &&& p.root_path == dir + seq!['/'] + p.name
    &&& p.exec_path.len() > p.root_path.len()
    &&& p.exec_path.subrange(0, p.root_path.len() as int) == p.root_path
    &&& p.exec_path[p.root_path.len() as int] == '/'
}

/// Installed plugin names are pairwise distinct.
pub open spec fn spec_unique_names(s: Seq<PluginView>) -> bool {
    forall|i: int, j: int| 0 <= i < j < s.len() ==> s[i].name != s[j].name
}

/// The contents of the repository catalogue, as views.
pub open spec fn repos_view(v: Seq<Github>) -> Seq<GithubView> {
    v.map_values(|g: Github| g@)
}

/// Tracked repository names are pairwise distinct.
pub open spec fn spec_unique_repo_names(s: Seq<GithubView>) -> bool {
    forall|i: int, j: int| 0 <= i < j < s.len() ==> s[i].name != s[j].name
}

/// A directive is accounted for: its value is the executable path of an
/// installed plugin, and its key agrees with that plugin's state.
pub open spec fn spec_field_ok(installed: Seq<PluginView>, f: ConfFieldView) -> bool {
    exists|i: int|
        0 <= i < installed.len() && (#[trigger] installed[i]).exec_path == f.value && (f.key
            == "disable-plugin"@ ==> installed[i].enabled == Some(false)) && (f.key == "plugin"@
            ==> !spec_important(installed[i])) && (f.key == "important-plugin"@ ==> spec_important(
            installed[i],
        ))
}

/// Every directive of the fragment is one this crate writes, and is
/// accounted for by an installed plugin.
pub open spec fn spec_fragment_sync(installed: Seq<PluginView>, fields: Seq<ConfFieldView>) -> bool {
    forall|k: int|
        0 <= k < fields.len() ==> ((#[trigger] fields[k]).key == "plugin"@ || fields[k].key
            == "important-plugin"@ || fields[k].key == "disable-plugin"@) && spec_field_ok(
            installed,
            fields[k],
        )
}

/// Every disabled plugin has its `disable-plugin` directive.
pub open spec fn spec_disabled_have_fields(
    installed: Seq<PluginView>,
    fields: Seq<ConfFieldView>,
) -> bool {
    forall|i: int|
        0 <= i < installed.len() && (#[trigger] installed[i]).enabled == Some(false)
            ==> spec_has_field(fields, "disable-plugin"@, Some(installed[i].exec_path))
}

/// The manager of the node's plugins: its configuration, the tracked
/// repositories and the configuration fragment it owns.
#[derive(Debug, PartialEq, Eq)]
pub struct CoffeeManager {
    pub config: CoffeeConf,
    pub repos: Vec<Github>,
    /// node configuration fragment managed by this crate
    pub coffee_cln_config: CLNConf,
}

impl CoffeeManager {
    /// The installed plugins, as views.
    pub open spec fn installed(&self) -> Seq<PluginView> {
        plugins_view(self.config.plugins@)
    }

    /// The tracked repositories, as views.
    pub open spec fn repos_v(&self) -> Seq<GithubView> {
        repos_view(self.repos@)
    }

    /// The directives of the managed fragment.
    pub open spec fn fragment(&self) -> Seq<ConfFieldView> {
        self.coffee_cln_config@.fields
    }

    /// Well-formedness: what every operation preserves.  Installed
    /// plugin names are unique and their paths network-scoped; the
    /// fragment's directives are exactly accounted for by the installed
    /// plugins; tracked repository names are unique.
    pub open spec fn wf(&self) -> bool {
        &&& spec_unique_names(self.installed())
        &&& (forall|i: int|
            0 <= i < self.installed().len() ==> spec_plugin_scoped(
                spec_plugins_dir(self.config@),
                #[trigger] self.installed()[i],
            ))
        &&& spec_fragment_sync(self.installed(), self.fragment())
        &&& spec_disabled_have_fields(self.installed(), self.fragment())
        &&& spec_unique_repo_names(self.repos_v())
    }
}

/// Two scoped plugins with different names have different executable
/// paths, whichever is the shorter name.
proof fn lemma_scoped_exec_distinct_ordered(dir: Seq<char>, p1: PluginView, p2: PluginView)
    requires
        spec_plugin_scoped(dir, p1),
        spec_plugin_scoped(dir, p2),
        p1.name.len() < p2.name.len(),
    ensures
        p1.exec_path != p2.exec_path,
{
    let b: int = dir.len() as int + 1;
    let k: int = b + p1.name.len() as int;
    assert(p1.exec_path[k] == '/');
    if p1.exec_path == p2.exec_path {
        assert(p2.exec_path[k] == p2.root_path[k]) by {
            assert(p2.exec_path.subrange(0, p2.root_path.len() as int)[k] == p2.exec_path[k]);
        }
        assert(p2.root_path[k] == p2.name[k - b]);
        assert(p2.name[p1.name.len() as int] != '/');
        assert(false);
    }
}

/// Two scoped plugins with different names have different executable
/// paths.
pub proof fn lemma_scoped_exec_distinct(dir: Seq<char>, p1: PluginView, p2: PluginView)
    requires
        spec_plugin_scoped(dir, p1),
        spec_plugin_scoped(dir, p2),
        p1.name != p2.name,
    ensures
        p1.exec_path != p2.exec_path,
{
    let b: int = dir.len() as int + 1;
    if p1.name.len() < p2.name.len() {
        lemma_scoped_exec_distinct_ordered(dir, p1, p2);
    } else if p2.name.len() < p1.name.len() {
        lemma_scoped_exec_distinct_ordered(dir, p2, p1);
    } else {
        if p1.exec_path == p2.exec_path {
            assert(p1.root_path.len() == p2.root_path.len());
            assert forall|k: int| 0 <= k < p1.name.len() implies p1.name[k] == p2.name[k] by {
                assert(p1.exec_path.subrange(0, p1.root_path.len() as int)[b + k]
                    == p1.exec_path[b + k]);
                assert(p2.exec_path.subrange(0, p2.root_path.len() as int)[b + k]
                    == p2.exec_path[b + k]);
                assert(p1.root_path[b + k] == p1.name[k]);
                assert(p2.root_path[b + k] == p2.name[k]);
            }
            assert(p1.name =~= p2.name);
            assert(false);
        }
    }
}

/// In a well-formed catalogue the executable paths of distinct installed
/// plugins are distinct.
pub proof fn lemma_installed_execs_injective(dir: Seq<char>, s: Seq<PluginView>, i: int, j: int)
    requires
        spec_unique_names(s),
        forall|k: int| 0 <= k < s.len() ==> spec_plugin_scoped(dir, #[trigger] s[k]),
        0 <= i < s.len(),
        0 <= j < s.len(),
        i != j,
    ensures
        s[i].exec_path != s[j].exec_path,
{
    if i < j {
        lemma_scoped_exec_distinct(dir, s[i], s[j]);
    } else {
        lemma_scoped_exec_distinct(dir, s[j], s[i]);
    }
}

/// The index of the installed plugin with this name, when one exists.
pub open spec fn spec_name_index(s: Seq<PluginView>, name: Seq<char>) -> int {
    choose|i: int| 0 <= i < s.len() && s[i].name == name
}

/// The first repository with this name, if any.
pub open spec fn spec_find_repo(s: Seq<GithubView>, name: Seq<char>) -> Option<GithubView>
    decreases s.len(),
{
    if s.len() == 0 {
        None
    } else if s.first().name == name {
        Some(s.first())
    } else {
        spec_find_repo(s.drop_first(), name)
    }
}

/// The first repository whose catalogue holds a plugin with this name,
/// with that plugin.  Repositories are searched in insertion order and
/// the first match wins.
pub open spec fn spec_repo_search(s: Seq<GithubView>, name: Seq<char>) -> Option<
    (GithubView, PluginView),
>
    decreases s.len(),
{
    if s.len() == 0 {
        None
    } else if spec_find_plugin(s.first().plugins, name) is Some {
        Some((s.first(), spec_find_plugin(s.first().plugins, name).unwrap()))
    } else {
        spec_repo_search(s.drop_first(), name)
    }
}

impl CoffeeManager {
    /// A fresh manager over a configuration with nothing installed yet:
    /// no tracked repositories and an empty fragment at the configured
    /// path.
    pub fn new(conf: CoffeeConf) -> (r: Result<CoffeeManager, CoffeeError>)
        ensures
            r is Ok <==> conf@.plugins.len() == 0,
            r is Err ==> r->Err_0.code == CODE_GENERIC,
            r is Ok ==> ({
                let m = r.unwrap();
                &&& m.config@ == conf@
                &&& m.repos_v() == Seq::<GithubView>::empty()
                &&& m.fragment() == Seq::<ConfFieldView>::empty()
                &&& m.coffee_cln_config@.path == conf@.config_path
                &&& m.coffee_cln_config@.network == conf@.network
                &&& m.wf()
            }),
    {
        if !conf.plugins.is_empty() {
            return Err(
                CoffeeError::new(CODE_GENERIC, "a fresh manager starts with an empty catalogue"),
            );
        }
        let fragment = CLNConf::new(conf.network.as_str(), conf.config_path.as_str());
        let m = CoffeeManager { config: conf, repos: Vec::new(), coffee_cln_config: fragment };
        proof {
            assert(repos_view(m.repos@) =~= Seq::<GithubView>::empty());
        }
        Ok(m)
    }

    /// The repositories home directory, where all the clones live:
    /// `{root}/{network}/repositories`.
    pub fn repositories_home(&self) -> (r: String)
        ensures
            r@ == self.config@.root_path + seq!['/'] + self.config@.network + "/repositories"@,
    {
        let net_path = self.config.path();
        concat_str(net_path.as_str(), "/repositories")
    }

    /// The plugins home directory, where installed plugins are copied:
    /// `{root}/{network}/plugins`.
    pub fn plugins_home(&self) -> (r: String)
        ensures
            r@ == spec_plugins_dir(self.config@),
    {
        let net_path = self.config.path();
        concat_str(net_path.as_str(), "/plugins")
    }

    /// Return the list of plugins installed by the plugin manager.
    pub fn list(&self) -> (r: Result<CoffeeList, CoffeeError>)
        ensures
            r is Ok,
            plugins_view(r.unwrap().plugins@) == self.installed(),
    {
        Ok(CoffeeList { plugins: crate::plugin::clone_plugins(&self.config.plugins) })
    }

    /// The index of the installed plugin with this name, scanning from
    /// the front.
    fn find_plugin_index(&self, name: &str) -> (r: Option<usize>)
        ensures
            r is Some <==> (exists|i: int|
                0 <= i < self.installed().len() && (#[trigger] self.installed()[i]).name == name@),
            r is Some ==> 0 <= r.unwrap() < self.installed().len() && self.installed()[
                r.unwrap() as int
            ].name == name@ && (forall|k: int|
                0 <= k < r.unwrap() ==> (#[trigger] self.installed()[k]).name != name@),
    {
        let mut i: usize = 0;
        while i < self.config.plugins.len()
            invariant
                0 <= i <= self.config.plugins.len(),
                forall|k: int| 0 <= k < i ==> (#[trigger] self.installed()[k]).name != name@,
            decreases self.config.plugins.len() - i,
        {
            if eq_str(self.config.plugins[i].name.as_str(), name) {
                proof {
                    assert(self.installed()[i as int].name == name@);
                }
                return Some(i);
            }
            i = i + 1;
        }
        None
    }

    /// The index of the tracked repository with this name, scanning from
    /// the front.
    pub(crate) fn find_repo_index(&self, name: &str) -> (r: Option<usize>)
        ensures
            r is Some <==> spec_find_repo(self.repos_v(), name@) is Some,
            r is Some ==> 0 <= r.unwrap() < self.repos_v().len() && self.repos_v()[
                r.unwrap() as int
            ] == spec_find_repo(self.repos_v(), name@).unwrap() && self.repos_v()[
                r.unwrap() as int
            ].name == name@ && (forall|k: int|
                0 <= k < r.unwrap() ==> (#[trigger] self.repos_v()[k]).name != name@),
    {
        let mut i: usize = 0;
        proof {
            assert(self.repos_v().skip(0) =~= self.repos_v());
        }
        while i < self.repos.len()
            invariant
                0 <= i <= self.repos.len(),
                spec_find_repo(self.repos_v(), name@) == spec_find_repo(
                    self.repos_v().skip(i as int),
                    name@,
                ),
                forall|k: int| 0 <= k < i ==> (#[trigger] self.repos_v()[k]).name != name@,
            decreases self.repos.len() - i,
        {
            proof {
                let rv = self.repos_v();
                assert(rv.skip(i as int).first() == rv[i as int]);
                assert(rv.skip(i as int).drop_first() =~= rv.skip(i + 1 as int));
            }
            if eq_str(self.repos[i].name.as_str(), name) {
                return Some(i);
            }
            i = i + 1;
        }
        proof {
            assert(self.repos_v().skip(self.repos.len() as int) =~= Seq::<GithubView>::empty());
        }
        None
    }

    /// List the plugins available in a tracked repository.
    pub fn get_plugins_in_remote(&self, name: &str) -> (r: Result<CoffeeList, CoffeeError>)
        ensures
            r is Ok <==> spec_find_repo(self.repos_v(), name@) is Some,
            r is Ok ==> plugins_view(r.unwrap().plugins@) == spec_find_repo(
                self.repos_v(),
                name@,
            ).unwrap().plugins,
            r is Err ==> r->Err_0.code == CODE_GENERIC,
    {
        match self.find_repo_index(name) {
            Some(i) => {
                Ok(CoffeeList { plugins: crate::plugin::clone_plugins(&self.repos[i].plugins) })
            },
            None => {
                let msg = concat3("repository with name: ", name, " not found");
                Err(CoffeeError::new(CODE_GENERIC, msg.as_str()))
            },
        }
    }

    /// List all tracked remote repositories, with their catalogues and
    /// recorded provenance.
    pub fn list_remotes(&self) -> (r: Result<CoffeeRemote, CoffeeError>)
        ensures
            r is Ok,
            r.unwrap().remotes is Some,
            r.unwrap().remotes.unwrap()@.len() == self.repos_v().len(),
            forall|i: int|
                0 <= i < self.repos_v().len() ==> {
                    let e = (#[trigger] r.unwrap().remotes.unwrap()@[i]);
                    &&& e.local_name@ == self.repos_v()[i].name
                    &&& e.url@ == self.repos_v()[i].url.url_string
                    &&& plugins_view(e.plugins@) == self.repos_v()[i].plugins
                    &&& crate::text::opt_string_view(e.commit_id) == self.repos_v()[i].git_head
                    &&& crate::text::opt_string_view(e.date) == self.repos_v()[i].last_activity
                },
    {
        let mut remotes: Vec<CoffeeListRemote> = Vec::new();
        let mut i: usize = 0;
        while i < self.repos.len()
            invariant
                0 <= i <= self.repos.len(),
                remotes@.len() == i,
                forall|k: int|
                    0 <= k < i ==> {
                        let e = (#[trigger] remotes@[k]);
                        &&& e.local_name@ == self.repos_v()[k].name
                        &&& e.url@ == self.repos_v()[k].url.url_string
                        &&& plugins_view(e.plugins@) == self.repos_v()[k].plugins
                        &&& crate::text::opt_string_view(e.commit_id) == self.repos_v()[k].git_head
                        &&& crate::text::opt_string_view(e.date) == self.repos_v()[k].last_activity
                    },
            decreases self.repos.len() - i,
        {
            let repo = &self.repos[i];
            remotes.push(
                CoffeeListRemote {
                    local_name: repo.name.clone(),
                    url: repo.url.url_string.clone(),
                    plugins: crate::plugin::clone_plugins(&repo.plugins),
                    commit_id: crate::text::clone_opt_string(&repo.git_head),
                    date: crate::text::clone_opt_string(&repo.last_activity),
                },
            );
            i = i + 1;
        }
        Ok(CoffeeRemote { remotes: Some(remotes) })
    }

    /// Search the tracked repositories for a plugin by name; the first
    /// repository in insertion order that carries it wins.
    pub fn search(&self, plugin: &str) -> (r: Result<CoffeeSearch, CoffeeError>)
        ensures
            r is Ok <==> spec_repo_search(self.repos_v(), plugin@) is Some,
            r is Ok ==> ({
                let (repo, p) = spec_repo_search(self.repos_v(), plugin@).unwrap();
                r.unwrap().repository_url@ == repo.url.url_string && r.unwrap().plugin@ == p
            }),
            r is Err ==> r->Err_0.code == CODE_NOT_FOUND,
    {
        let mut i: usize = 0;
        proof {
            assert(self.repos_v().skip(0) =~= self.repos_v());
        }
        while i < self.repos.len()
            invariant
                0 <= i <= self.repos.len(),
                spec_repo_search(self.repos_v(), plugin@) == spec_repo_search(
                    self.repos_v().skip(i as int),
                    plugin@,
                ),
            decreases self.repos.len() - i,
        {
            proof {
                let rv = self.repos_v();
                assert(rv.skip(i as int).first() == rv[i as int]);
                assert(rv.skip(i as int).drop_first() =~= rv.skip(i + 1 as int));
            }
            if let Some(p) = self.repos[i].get_plugin_by_name(plugin) {
                return Ok(
                    CoffeeSearch { repository_url: self.repos[i].url.url_string.clone(), plugin: p },
                );
            }
            i = i + 1;
        }
        proof {
            assert(self.repos_v().skip(self.repos.len() as int) =~= Seq::<GithubView>::empty());
        }
        let msg = concat3("unable to locate plugin `", plugin, "`");
        Err(CoffeeError::new(CODE_NOT_FOUND, msg.as_str()))
    }

    /// Where the README of a plugin lives: under the root of the first
    /// repository copy that carries the plugin.
    pub fn readme_path(&self, plugin: &str) -> (r: Result<String, CoffeeError>)
        ensures
            r is Ok <==> spec_repo_search(self.repos_v(), plugin@) is Some,
            r is Ok ==> r.unwrap()@ == spec_repo_search(
                self.repos_v(),
                plugin@,
            ).unwrap().1.root_path + "/README.md"@,
            r is Err ==> r->Err_0.code == CODE_GENERIC,
    {
        let mut i: usize = 0;
        proof {
            assert(self.repos_v().skip(0) =~= self.repos_v());
        }
        while i < self.repos.len()
            invariant
                0 <= i <= self.repos.len(),
                spec_repo_search(self.repos_v(), plugin@) == spec_repo_search(
                    self.repos_v().skip(i as int),
                    plugin@,
                ),
            decreases self.repos.len() - i,
        {
            proof {
                let rv = self.repos_v();
                assert(rv.skip(i as int).first() == rv[i as int]);
                assert(rv.skip(i as int).drop_first() =~= rv.skip(i + 1 as int));
            }
            if let Some(p) = self.repos[i].get_plugin_by_name(plugin) {
                return Ok(concat_str(p.root_path.as_str(), "/README.md"));
            }
            i = i + 1;
        }
        proof {
            assert(self.repos_v().skip(self.repos.len() as int) =~= Seq::<GithubView>::empty());
        }
        let msg = concat3("plugin `", plugin, "` are not present inside the repositories");
        Err(CoffeeError::new(CODE_GENERIC, msg.as_str()))
    }
}

/// The three directive keys this crate writes are pairwise distinct.
proof fn lemma_key_literals()
    ensures
        "plugin"@ != "important-plugin"@,
        "plugin"@ != "disable-plugin"@,
        "important-plugin"@ != "disable-plugin"@,
{
    reveal_strlit("plugin");
    reveal_strlit("important-plugin");
    reveal_strlit("disable-plugin");
    assert("plugin"@.len() == 6);
    assert("important-plugin"@.len() == 16);
    assert("disable-plugin"@.len() == 14);
}

/// The installed plugin that accounts for a directive of a synced
/// fragment.
proof fn field_ok_witness(installed: Seq<PluginView>, f: ConfFieldView) -> (w: int)
    requires
        spec_field_ok(installed, f),
    ensures
        0 <= w < installed.len(),
        installed[w].exec_path == f.value,
        f.key == "disable-plugin"@ ==> installed[w].enabled == Some(false),
        f.key == "plugin"@ ==> !spec_important(installed[w]),
        f.key == "important-plugin"@ ==> spec_important(installed[w]),
{
    choose|i: int|
        0 <= i < installed.len() && (#[trigger] installed[i]).exec_path == f.value && (f.key
            == "disable-plugin"@ ==> installed[i].enabled == Some(false)) && (f.key == "plugin"@
            ==> !spec_important(installed[i])) && (f.key == "important-plugin"@ ==> spec_important(
            installed[i],
        ))
}

impl CoffeeManager {
    /// Disable an installed plugin: record a `disable-plugin` directive
    /// for its executable and mark it disabled.  It is an error when the
    /// plugin is not installed or already disabled.
    pub fn disable(&mut self, plugin: &str) -> (r: Result<(), CoffeeError>)
        requires
            old(self).wf(),
        ensures
            final(self).wf(),
            r is Ok <==> ((exists|i: int|
                0 <= i < old(self).installed().len() && (#[trigger] old(self).installed()[i]).name
                    == plugin@) && old(self).installed()[spec_name_index(
                old(self).installed(),
                plugin@,
            )].enabled != Some(false)),
            r is Err ==> *final(self) == *old(self) && r->Err_0.code == CODE_GENERIC,
            r is Ok ==> ({
                let i = spec_name_index(old(self).installed(), plugin@);
                &&& final(self).installed() == old(self).installed().update(
                    i,
                    PluginView { enabled: Some(false), ..old(self).installed()[i] },
                )
                &&& final(self).fragment() == old(self).fragment().push(
                    ConfFieldView {
                        key: "disable-plugin"@,
                        value: old(self).installed()[i].exec_path,
                    },
                )
                &&& final(self).repos_v() == old(self).repos_v()
                &&& final(self).config@ == (CoffeeConfView {
                    plugins: final(self).config@.plugins,
                    ..old(self).config@
                })
                &&& final(self).coffee_cln_config@.path == old(self).coffee_cln_config@.path
                &&& final(self).coffee_cln_config@.network == old(self).coffee_cln_config@.network
            }),
    {
        let i = match self.find_plugin_index(plugin) {
            Some(i) => i,
            None => {
                let msg = concat3(
                    "No plugin with name `",
                    plugin,
                    "` found in the plugins installed",
                );
                return Err(CoffeeError::new(CODE_GENERIC, msg.as_str()));
            },
        };
        proof {
            let ci = spec_name_index(old(self).installed(), plugin@);
            assert(0 <= ci < old(self).installed().len() && old(self).installed()[ci].name
                == plugin@);
            assert(ci == i as int);
        }
        if matches!(self.config.plugins[i].enabled, Some(false)) {
            let msg = concat3("Plugin `", plugin, "` is already disabled");
            return Err(CoffeeError::new(CODE_GENERIC, msg.as_str()));
        }
        let exec = self.config.plugins[i].exec_path.clone();
        self.coffee_cln_config.add_conf("disable-plugin", exec.as_str());
        let mut p = self.config.plugins[i].clone();
        p.enabled = Some(false);
        self.config.plugins.set(i, p);
        proof {
            assert(self.installed() =~= old(self).installed().update(
                i as int,
                PluginView { enabled: Some(false), ..old(self).installed()[i as int] },
            ));
            self.lemma_toggle_wf(*old(self), i as int, true);
        }
        Ok(())
    }

    /// Enable a disabled plugin: drop its `disable-plugin` directive and
    /// mark it enabled.  It is an error when the plugin is not installed
    /// or not disabled.
    pub fn enable(&mut self, plugin: &str) -> (r: Result<(), CoffeeError>)
        requires
            old(self).wf(),
        ensures
            final(self).wf(),
            r is Ok <==> ((exists|i: int|
                0 <= i < old(self).installed().len() && (#[trigger] old(self).installed()[i]).name
                    == plugin@) && old(self).installed()[spec_name_index(
                old(self).installed(),
                plugin@,
            )].enabled == Some(false)),
            r is Err ==> *final(self) == *old(self) && r->Err_0.code == CODE_GENERIC,
            r is Ok ==> ({
                let i = spec_name_index(old(self).installed(), plugin@);
                &&& final(self).installed() == old(self).installed().update(
                    i,
                    PluginView { enabled: Some(true), ..old(self).installed()[i] },
                )
                &&& final(self).fragment() == spec_rm_field(
                    old(self).fragment(),
                    "disable-plugin"@,
                    Some(old(self).installed()[i].exec_path),
                )
                &&& final(self).repos_v() == old(self).repos_v()
                &&& final(self).config@ == (CoffeeConfView {
                    plugins: final(self).config@.plugins,
                    ..old(self).config@
                })
                &&& final(self).coffee_cln_config@.path == old(self).coffee_cln_config@.path
                &&& final(self).coffee_cln_config@.network == old(self).coffee_cln_config@.network
            }),
    {
        let i = match self.find_plugin_index(plugin) {
            Some(i) => i,
            None => {
                let msg = concat3(
                    "No plugin with name `",
                    plugin,
                    "` found in the plugins installed",
                );
                return Err(CoffeeError::new(CODE_GENERIC, msg.as_str()));
            },
        };
        proof {
            let ci = spec_name_index(old(self).installed(), plugin@);
            assert(0 <= ci < old(self).installed().len() && old(self).installed()[ci].name
                == plugin@);
            assert(ci == i as int);
        }
        if !matches!(self.config.plugins[i].enabled, Some(false)) {
            let msg = concat3("Plugin `", plugin, "` is already enabled or enabled by default");
            return Err(CoffeeError::new(CODE_GENERIC, msg.as_str()));
        }
        let exec = self.config.plugins[i].exec_path.clone();
        let removed = self.coffee_cln_config.rm_conf("disable-plugin", Some(exec.as_str()));
        proof {
            // the directive is there: the plugin is disabled and the
            // fragment is in sync with the catalogue
            assert(spec_has_field(
                old(self).fragment(),
                "disable-plugin"@,
                Some(old(self).installed()[i as int].exec_path),
            ));
        }
        match removed {
            Ok(()) => {},
            Err(_) => {
                proof {
                    assert(false);
                }
            },
        }
        let mut p = self.config.plugins[i].clone();
        p.enabled = Some(true);
        self.config.plugins.set(i, p);
        proof {
            assert(self.installed() =~= old(self).installed().update(
                i as int,
                PluginView { enabled: Some(true), ..old(self).installed()[i as int] },
            ));
            self.lemma_toggle_wf(*old(self), i as int, false);
        }
        Ok(())
    }

    /// Toggling one plugin's enabled flag, together with the matching
    /// fragment edit, preserves well-formedness.
    proof fn lemma_toggle_wf(&self, pre: CoffeeManager, i: int, disabling: bool)
        requires
            pre.wf(),
            0 <= i < pre.installed().len(),
            disabling ==> pre.installed()[i].enabled != Some(false),
            !disabling ==> pre.installed()[i].enabled == Some(false),
            self.installed() == pre.installed().update(
                i,
                PluginView {
                    enabled: if disabling {
                        Some(false)
                    } else {
                        Some(true)
                    },
                    ..pre.installed()[i]
                },
            ),
            disabling ==> self.fragment() == pre.fragment().push(
                ConfFieldView { key: "disable-plugin"@, value: pre.installed()[i].exec_path },
            ),
            !disabling ==> self.fragment() == spec_rm_field(
                pre.fragment(),
                "disable-plugin"@,
                Some(pre.installed()[i].exec_path),
            ),
            self.config@.root_path == pre.config@.root_path,
            self.config@.network == pre.config@.network,
            self.repos_v() == pre.repos_v(),
        ensures
            self.wf(),
    {
        lemma_key_literals();
        let dir = spec_plugins_dir(self.config@);
        let old_inst = pre.installed();
        let new_inst = self.installed();
        let exec_i = old_inst[i].exec_path;
        assert(dir == spec_plugins_dir(pre.config@));
        // names are unchanged, so uniqueness and scoping carry over
        assert(forall|k: int| 0 <= k < new_inst.len() ==> (#[trigger] new_inst[k]).name
            == old_inst[k].name);
        assert forall|k: int| 0 <= k < new_inst.len() implies spec_plugin_scoped(
            dir,
            #[trigger] new_inst[k],
        ) by {
            assert(spec_plugin_scoped(dir, old_inst[k]));
        }
        // executable paths of distinct plugins stay distinct
        assert forall|k: int|
            0 <= k < old_inst.len() && k != i implies (#[trigger] old_inst[k]).exec_path
            != exec_i by {
            lemma_installed_execs_injective(dir, old_inst, k, i);
        }
        if disabling {
            let newf = ConfFieldView { key: "disable-plugin"@, value: exec_i };
            assert forall|k: int| 0 <= k < self.fragment().len() implies ((
            #[trigger] self.fragment()[k]).key == "plugin"@ || self.fragment()[k].key
                == "important-plugin"@ || self.fragment()[k].key == "disable-plugin"@)
                && spec_field_ok(new_inst, self.fragment()[k]) by {
                if k < pre.fragment().len() {
                    let f = pre.fragment()[k];
                    assert(spec_field_ok(old_inst, f));
                    let w = field_ok_witness(old_inst, f);
                    if w == i {
                        if f.key == "disable-plugin"@ {
                            assert(old_inst[i].enabled == Some(false));
                            assert(false);
                        }
                        assert(spec_important(new_inst[i]) == spec_important(old_inst[i]));
                        assert(new_inst[i].exec_path == f.value);
                        assert(spec_field_ok(new_inst, f));
                    } else {
                        assert(new_inst[w] == old_inst[w]);
                        assert(spec_field_ok(new_inst, f));
                    }
                } else {
                    assert(self.fragment()[k] == newf);
                    assert(new_inst[i].exec_path == newf.value);
                    assert(new_inst[i].enabled == Some(false));
                    assert(spec_field_ok(new_inst, newf));
                }
            }
            assert forall|j: int|
                0 <= j < new_inst.len() && (#[trigger] new_inst[j]).enabled == Some(
                    false,
                ) implies spec_has_field(
                self.fragment(),
                "disable-plugin"@,
                Some(new_inst[j].exec_path),
            ) by {
                if j == i {
                    assert(spec_field_matches(
                        self.fragment()[self.fragment().len() - 1],
                        "disable-plugin"@,
                        Some(new_inst[i].exec_path),
                    ));
                } else {
                    assert(old_inst[j].enabled == Some(false));
                    let k = choose|k: int|
                        0 <= k < pre.fragment().len() && spec_field_matches(
                            pre.fragment()[k],
                            "disable-plugin"@,
                            Some(old_inst[j].exec_path),
                        );
                    assert(spec_field_matches(
                        self.fragment()[k],
                        "disable-plugin"@,
                        Some(new_inst[j].exec_path),
                    ));
                }
            }
        } else {
            lemma_rm_field_sound(pre.fragment(), "disable-plugin"@, Some(exec_i));
            lemma_rm_field_complete(pre.fragment(), "disable-plugin"@, Some(exec_i));
            assert forall|k: int| 0 <= k < self.fragment().len() implies ((
            #[trigger] self.fragment()[k]).key == "plugin"@ || self.fragment()[k].key
                == "important-plugin"@ || self.fragment()[k].key == "disable-plugin"@)
                && spec_field_ok(new_inst, self.fragment()[k]) by {
                let f = self.fragment()[k];
                let j = choose|j: int| 0 <= j < pre.fragment().len() && pre.fragment()[j] == f;
                assert(spec_field_ok(old_inst, f));
                let w = field_ok_witness(old_inst, f);
                if w == i {
                    // a surviving directive valued at the toggled
                    // executable cannot be the disable directive
                    assert(!spec_field_matches(f, "disable-plugin"@, Some(exec_i)));
                    assert(f.key != "disable-plugin"@);
                    assert(spec_important(new_inst[i]) == spec_important(old_inst[i]));
                    assert(spec_field_ok(new_inst, f));
                } else {
                    assert(new_inst[w] == old_inst[w]);
                    assert(spec_field_ok(new_inst, f));
                }
            }
            assert forall|j: int|
                0 <= j < new_inst.len() && (#[trigger] new_inst[j]).enabled == Some(
                    false,
                ) implies spec_has_field(
                self.fragment(),
                "disable-plugin"@,
                Some(new_inst[j].exec_path),
            ) by {
                assert(j != i);
                assert(old_inst[j].enabled == Some(false));
                let k = choose|k: int|
                    0 <= k < pre.fragment().len() && spec_field_matches(
                        pre.fragment()[k],
                        "disable-plugin"@,
                        Some(old_inst[j].exec_path),
                    );
                assert(!spec_field_matches(pre.fragment()[k], "disable-plugin"@, Some(exec_i)));
                let k2 = choose|k2: int|
                    0 <= k2 < self.fragment().len() && self.fragment()[k2] == pre.fragment()[k];
                assert(spec_field_matches(
                    self.fragment()[k2],
                    "disable-plugin"@,
                    Some(new_inst[j].exec_path),
                ));
            }
        }
    }
}

/// Whether a plugin's recorded executable lies strictly inside its root.
pub open spec fn spec_exec_under_root(p: PluginView) -> bool {
    &&& p.exec_path.len() > p.root_path.len()
    &&& p.exec_path.subrange(0, p.root_path.len() as int) == p.root_path
    &&& p.exec_path[p.root_path.len() as int] == '/'
}

/// Whether a string can stand as a plugin's directory name.
pub open spec fn spec_name_ok(name: Seq<char>) -> bool {
    name.len() > 0 && (forall|k: int| 0 <= k < name.len() ==> name[k] != '/')
}

/// What an install amounts to once it is decided: the plugin as it will
/// stand in the catalogue, with its paths rewritten under the network's
/// plugins directory; where its indexed files are copied from; and the
/// provisioning script to run inside the new root.
#[derive(Debug, PartialEq, Eq)]
pub struct InstallPlan {
    pub plugin: Plugin,
    pub copy_from: String,
    pub script: String,
}

/// What the repository search finds: the plugin is the one the found
/// repository's catalogue carries under the searched name.
pub proof fn lemma_repo_search_props(s: Seq<GithubView>, name: Seq<char>)
    ensures
        spec_repo_search(s, name) is Some ==> ({
            let (repo, p) = spec_repo_search(s, name).unwrap();
            spec_find_plugin(repo.plugins, name) == Some(p) && p.name == name
        }),
    decreases s.len(),
{
    if s.len() > 0 {
        if spec_find_plugin(s.first().plugins, name) is Some {
            crate::github::lemma_find_plugin_name(s.first().plugins, name);
        } else {
            lemma_repo_search_props(s.drop_first(), name);
        }
    }
}

impl CoffeeManager {
    /// Decide an install: reject a name that is already installed or no
    /// plugin carries; reject a dynamic install of an important plugin;
    /// rewrite the plugin's paths from the shared clone into the
    /// network-scoped install directory; and pick the provisioning
    /// script — the manifest's install script when there is one, the
    /// language default otherwise.
    pub fn install_plan(&self, plugin: &str, try_dynamic: bool) -> (r: Result<
        InstallPlan,
        CoffeeError,
    >)
        ensures
            ({
                let found = spec_repo_search(self.repos_v(), plugin@);
                let installed_already = exists|i: int|
                    0 <= i < self.installed().len() && (#[trigger] self.installed()[i]).name
                        == plugin@;
                &&& (r is Ok <==> (!installed_already && spec_name_ok(plugin@) && found is Some
                    && !(try_dynamic && spec_important(found.unwrap().1)) && spec_exec_under_root(
                    found.unwrap().1,
                ) && (found.unwrap().1.conf is Some && found.unwrap().1.conf.unwrap().plugin.install
                    is Some || found.unwrap().1.lang is PyPip || found.unwrap().1.lang is PyPoetry)))
                &&& (r is Err ==> r->Err_0.code == CODE_GENERIC)
                &&& (installed_already ==> r is Err && r->Err_0.msg@ == "Plugin with name `"@
                    + plugin@ + "` already installed"@)
                &&& (!installed_already && spec_name_ok(plugin@) && found is None ==> r is Err
                    && r->Err_0.msg@ == "plugin `"@ + plugin@
                    + "` are not present inside the repositories"@)
                &&& (r is Ok ==> ({
                    let p = found.unwrap().1;
                    let new_root = spec_plugins_dir(self.config@) + seq!['/'] + plugin@;
                    let manifest_script = (p.conf is Some && p.conf.unwrap().plugin.install
                        is Some);
                    &&& r.unwrap().plugin@ == (PluginView {
                        root_path: new_root,
                        exec_path: if manifest_script {
                            new_root + p.exec_path.subrange(
                                p.root_path.len() as int,
                                p.exec_path.len() as int,
                            )
                        } else {
                            new_root + seq!['/'] + p.name + ".py"@
                        },
                        ..p
                    })
                    &&& spec_plugin_scoped(spec_plugins_dir(self.config@), r.unwrap().plugin@)
                    &&& r.unwrap().copy_from@ == p.root_path
                    &&& (manifest_script ==> r.unwrap().script@
                        == p.conf.unwrap().plugin.install.unwrap())
                    &&& (!manifest_script && p.lang is PyPip ==> r.unwrap().script@
                        == "pip3 install -r requirements.txt --break-system-packages"@)
                    &&& (!manifest_script && p.lang is PyPoetry ==> r.unwrap().script@
                        == "pip3 install poetry\npoetry export -f requirements.txt --output requirements.txt\npip3 install -r requirements.txt"@)
                }))
            }),
    {
        if crate::github::contains_plugin_name(&self.config.plugins, plugin) {
            let msg = concat3("Plugin with name `", plugin, "` already installed");
            return Err(CoffeeError::new(CODE_GENERIC, msg.as_str()));
        }
        let name_valid = plugin.unicode_len() > 0 && last_slash_index(plugin).is_none();
        if !name_valid {
            return Err(
                CoffeeError::new(CODE_GENERIC, "a plugin name has to be a single path segment"),
            );
        }
        let mut i: usize = 0;
        proof {
            assert(self.repos_v().skip(0) =~= self.repos_v());
        }
        let mut found: Option<Plugin> = None;
        while i < self.repos.len() && found.is_none()
            invariant
                0 <= i <= self.repos.len(),
                found is None ==> spec_repo_search(self.repos_v(), plugin@) == spec_repo_search(
                    self.repos_v().skip(i as int),
                    plugin@,
                ),
                found is Some ==> spec_repo_search(self.repos_v(), plugin@) is Some
                    && found.unwrap()@ == spec_repo_search(self.repos_v(), plugin@).unwrap().1,
            decreases self.repos.len() - i,
        {
            proof {
                let rv = self.repos_v();
                assert(rv.skip(i as int).first() == rv[i as int]);
                assert(rv.skip(i as int).drop_first() =~= rv.skip(i + 1 as int));
            }
            found = self.repos[i].get_plugin_by_name(plugin);
            i = i + 1;
        }
        proof {
            if i == self.repos.len() {
                assert(self.repos_v().skip(self.repos.len() as int) =~= Seq::<
                    GithubView,
                >::empty());
            }
        }
        proof {
            lemma_repo_search_props(self.repos_v(), plugin@);
        }
        let mut found = match found {
            Some(p) => p,
            None => {
                let msg = concat3("plugin `", plugin, "` are not present inside the repositories");
                return Err(CoffeeError::new(CODE_GENERIC, msg.as_str()));
            },
        };
        if try_dynamic && found.important() {
            return Err(
                CoffeeError::new(CODE_GENERIC, "plugin is important, can't be dynamically installed"),
            );
        }
        let old_root = found.root_path.clone();
        let relative = match strip_prefix_string(found.exec_path.as_str(), found.root_path.as_str()) {
            Some(rel) => rel,
            None => {
                return Err(CoffeeError::new(CODE_GENERIC, "exec path not found"));
            },
        };
        let rel_rooted = crate::text::starts_with_slash(relative.as_str());
        proof {
            if relative@.len() >= 1 {
                assert(relative@[0] == found@.exec_path[found@.root_path.len() as int]);
            }
            assert(rel_rooted == spec_exec_under_root(found@));
        }
        if !rel_rooted {
            return Err(CoffeeError::new(CODE_GENERIC, "exec path not found"));
        }
        let new_root = join_path(self.plugins_home().as_str(), plugin);
        let new_exec = concat_str(new_root.as_str(), relative.as_str());
        found.root_path = new_root;
        found.exec_path = new_exec;
        let recipe = found.configure()?;
        proof {
            let p = spec_repo_search(self.repos_v(), plugin@).unwrap().1;
            let new_root_s = spec_plugins_dir(self.config@) + seq!['/'] + plugin@;
            assert(found@ =~= (PluginView {
                root_path: new_root_s,
                exec_path: if p.conf is Some && p.conf.unwrap().plugin.install is Some {
                    new_root_s + p.exec_path.subrange(
                        p.root_path.len() as int,
                        p.exec_path.len() as int,
                    )
                } else {
                    new_root_s + seq!['/'] + p.name + ".py"@
                },
                ..p
            }));
            // the rewritten plugin is scoped under the plugins directory
            if p.conf is Some && p.conf.unwrap().plugin.install is Some {
                assert(found@.exec_path.subrange(0, found@.root_path.len() as int)
                    =~= found@.root_path);
                assert(found@.exec_path[found@.root_path.len() as int] == relative@[0]);
            } else {
                assert(found@.exec_path.subrange(0, found@.root_path.len() as int)
                    =~= found@.root_path);
                assert(found@.exec_path[found@.root_path.len() as int] == '/');
            }
        }
        Ok(InstallPlan { plugin: found, copy_from: old_root, script: recipe.script })
    }

    /// Whether a plugin sits where this manager provisions plugins: its
    /// name a single path segment, its root the plugin's own directory
    /// under `{root}/{network}/plugins`, its executable strictly inside
    /// that root.
    fn check_plugin_scoped(&self, plugin: &Plugin) -> (r: bool)
        ensures
            r == spec_plugin_scoped(spec_plugins_dir(self.config@), plugin@),
    {
        let name_valid = plugin.name.as_str().unicode_len() > 0 && last_slash_index(
            plugin.name.as_str(),
        ).is_none();
        let expected_root = join_path(self.plugins_home().as_str(), plugin.name.as_str());
        let root_valid = eq_str(expected_root.as_str(), plugin.root_path.as_str());
        let exec_valid = match strip_prefix_string(
            plugin.exec_path.as_str(),
            plugin.root_path.as_str(),
        ) {
            Some(rel) => {
                let rooted = crate::text::starts_with_slash(rel.as_str());
                proof {
                    let p = plugin@;
                    if rel@.len() >= 1 {
                        assert(rel@[0] == p.exec_path[p.root_path.len() as int]);
                    }
                    assert(rooted == spec_exec_under_root(p));
                }
                rooted
            },
            None => false,
        };
        proof {
            assert(exec_valid == spec_exec_under_root(plugin@));
            assert(name_valid == spec_name_ok(plugin@.name));
            assert(root_valid == (plugin@.root_path == spec_plugins_dir(self.config@)
                + seq!['/'] + plugin@.name));
        }
        name_valid && root_valid && exec_valid
    }

    /// Enter a provisioned plugin into the catalogue.  A static install
    /// is marked enabled and gets its directive in the fragment; a
    /// dynamic install only joins the catalogue, so that it survives a
    /// later list or remove.  The plugin has to be scoped under the
    /// network's plugins directory and not yet installed.
    pub fn install_commit(&mut self, plugin: &Plugin, try_dynamic: bool) -> (r: Result<
        (),
        CoffeeError,
    >)
        requires
            old(self).wf(),
        ensures
            final(self).wf(),
            r is Ok <==> (!(exists|i: int|
                0 <= i < old(self).installed().len() && (#[trigger] old(self).installed()[i]).name
                    == plugin@.name) && spec_plugin_scoped(
                spec_plugins_dir(old(self).config@),
                plugin@,
            ) && (try_dynamic ==> plugin@.enabled != Some(false))),
            r is Err ==> *final(self) == *old(self) && r->Err_0.code == CODE_GENERIC,
            r is Ok ==> ({
                let stored = PluginView {
                    enabled: if try_dynamic {
                        plugin@.enabled
                    } else {
                        Some(true)
                    },
                    ..plugin@
                };
                &&& final(self).installed() == old(self).installed().push(stored)
                &&& (!try_dynamic ==> final(self).fragment() == old(self).fragment().push(
                    ConfFieldView {
                        key: if spec_important(plugin@) {
                            "important-plugin"@
                        } else {
                            "plugin"@
                        },
                        value: plugin@.exec_path,
                    },
                ))
                &&& (try_dynamic ==> final(self).fragment() == old(self).fragment())
                &&& final(self).repos_v() == old(self).repos_v()
                &&& final(self).config@ == (CoffeeConfView {
                    plugins: final(self).config@.plugins,
                    ..old(self).config@
                })
                &&& final(self).coffee_cln_config@.path == old(self).coffee_cln_config@.path
                &&& final(self).coffee_cln_config@.network == old(self).coffee_cln_config@.network
            }),
    {
        if crate::github::contains_plugin_name(&self.config.plugins, plugin.name.as_str()) {
            let msg = concat3("Plugin with name `", plugin.name.as_str(), "` already installed");
            return Err(CoffeeError::new(CODE_GENERIC, msg.as_str()));
        }
        if !self.check_plugin_scoped(plugin) {
            return Err(
                CoffeeError::new(
                    CODE_GENERIC,
                    "the plugin is not provisioned under the network plugins directory",
                ),
            );
        }
        if try_dynamic && matches!(plugin.enabled, Some(false)) {
            return Err(
                CoffeeError::new(CODE_GENERIC, "a disabled plugin cannot be started dynamically"),
            );
        }
        let mut stored = plugin.clone();
        if !try_dynamic {
            stored.enabled = Some(true);
            let key = if plugin.important() {
                "important-plugin"
            } else {
                "plugin"
            };
            self.coffee_cln_config.add_conf(key, plugin.exec_path.as_str());
        }
        self.config.plugins.push(stored);
        proof {
            let stored_v = PluginView {
                enabled: if try_dynamic {
                    plugin@.enabled
                } else {
                    Some(true)
                },
                ..plugin@
            };
            assert(self.installed() =~= old(self).installed().push(stored_v));
            self.lemma_install_wf(*old(self), plugin@, try_dynamic);
        }
        Ok(())
    }

    /// Entering a fresh, scoped plugin into the catalogue, together with
    /// the matching fragment edit, preserves well-formedness.
    proof fn lemma_install_wf(&self, pre: CoffeeManager, p: PluginView, try_dynamic: bool)
        requires
            pre.wf(),
            spec_plugin_scoped(spec_plugins_dir(pre.config@), p),
            forall|i: int|
                0 <= i < pre.installed().len() ==> (#[trigger] pre.installed()[i]).name != p.name,
            try_dynamic ==> p.enabled != Some(false),
            self.installed() == pre.installed().push(
                PluginView {
                    enabled: if try_dynamic {
                        p.enabled
                    } else {
                        Some(true)
                    },
                    ..p
                },
            ),
            !try_dynamic ==> self.fragment() == pre.fragment().push(
                ConfFieldView {
                    key: if spec_important(p) {
                        "important-plugin"@
                    } else {
                        "plugin"@
                    },
                    value: p.exec_path,
                },
            ),
            try_dynamic ==> self.fragment() == pre.fragment(),
            self.config@.root_path == pre.config@.root_path,
            self.config@.network == pre.config@.network,
            self.repos_v() == pre.repos_v(),
        ensures
            self.wf(),
    {
        lemma_key_literals();
        let dir = spec_plugins_dir(self.config@);
        let old_inst = pre.installed();
        let new_inst = self.installed();
        let n = old_inst.len() as int;
        let stored = new_inst[n];
        assert(dir == spec_plugins_dir(pre.config@));
        assert(spec_plugin_scoped(dir, stored));
        assert(spec_important(stored) == spec_important(p));
        assert forall|a: int, b: int| 0 <= a < b < new_inst.len() implies new_inst[a].name
            != new_inst[b].name by {
            if b < n {
                assert(old_inst[a].name != old_inst[b].name);
            } else {
                assert(new_inst[a] == old_inst[a]);
            }
        }
        assert forall|k: int| 0 <= k < new_inst.len() implies spec_plugin_scoped(
            dir,
            #[trigger] new_inst[k],
        ) by {
            if k < n {
                assert(new_inst[k] == old_inst[k]);
                assert(spec_plugin_scoped(dir, old_inst[k]));
            }
        }
        assert forall|k: int| 0 <= k < self.fragment().len() implies ((
        #[trigger] self.fragment()[k]).key == "plugin"@ || self.fragment()[k].key
            == "important-plugin"@ || self.fragment()[k].key == "disable-plugin"@) && spec_field_ok(
            new_inst,
            self.fragment()[k],
        ) by {
            if k < pre.fragment().len() {
                let f = pre.fragment()[k];
                assert(self.fragment()[k] == f);
                assert(spec_field_ok(old_inst, f));
                let w = field_ok_witness(old_inst, f);
                assert(new_inst[w] == old_inst[w]);
                assert(spec_field_ok(new_inst, f));
            } else {
                let f = self.fragment()[k];
                assert(new_inst[n].exec_path == f.value);
                assert(spec_field_ok(new_inst, f));
            }
        }
        assert forall|j: int|
            0 <= j < new_inst.len() && (#[trigger] new_inst[j]).enabled == Some(
                false,
            ) implies spec_has_field(
            self.fragment(),
            "disable-plugin"@,
            Some(new_inst[j].exec_path),
        ) by {
            assert(j < n);
            assert(new_inst[j] == old_inst[j]);
            let k = choose|k: int|
                0 <= k < pre.fragment().len() && spec_field_matches(
                    pre.fragment()[k],
                    "disable-plugin"@,
                    Some(old_inst[j].exec_path),
                );
            assert(spec_field_matches(
                self.fragment()[k],
                "disable-plugin"@,
                Some(new_inst[j].exec_path),
            ));
        }
    }
}

impl CoffeeManager {
    /// Remove an installed plugin: drop it from the catalogue and drop
    /// its directives from the fragment — the static `plugin=` or
    /// `important-plugin=` entry and, when the plugin was disabled, its
    /// `disable-plugin=` entry.  It is an error when no such plugin is
    /// installed.  The caller deletes the provisioned directory, unless
    /// it aliases the shared clones, and stops a dynamically started
    /// plugin over RPC when there was no static directive.
    pub fn remove(&mut self, plugin: &str) -> (r: Result<CoffeeRemove, CoffeeError>)
        requires
            old(self).wf(),
        ensures
            final(self).wf(),
            r is Ok <==> (exists|i: int|
                0 <= i < old(self).installed().len() && (#[trigger] old(self).installed()[i]).name
                    == plugin@),
            r is Err ==> *final(self) == *old(self) && r->Err_0.code == CODE_GENERIC
                && r->Err_0.msg@ == "plugin `"@ + plugin@ + "` is already not installed"@,
            r is Ok ==> ({
                let i = spec_name_index(old(self).installed(), plugin@);
                let p = old(self).installed()[i];
                let key = if spec_important(p) {
                    "important-plugin"@
                } else {
                    "plugin"@
                };
                &&& r.unwrap().plugin@ == p
                &&& final(self).installed() == old(self).installed().remove(i)
                &&& final(self).fragment() == spec_rm_field(
                    spec_rm_field(old(self).fragment(), key, Some(p.exec_path)),
                    "disable-plugin"@,
                    Some(p.exec_path),
                )
                &&& final(self).repos_v() == old(self).repos_v()
                &&& final(self).config@ == (CoffeeConfView {
                    plugins: final(self).config@.plugins,
                    ..old(self).config@
                })
                &&& final(self).coffee_cln_config@.path == old(self).coffee_cln_config@.path
                &&& final(self).coffee_cln_config@.network == old(self).coffee_cln_config@.network
            }),
    {
        let i = match self.find_plugin_index(plugin) {
            Some(i) => i,
            None => {
                let msg = concat3("plugin `", plugin, "` is already not installed");
                return Err(CoffeeError::new(CODE_GENERIC, msg.as_str()));
            },
        };
        proof {
            let ci = spec_name_index(old(self).installed(), plugin@);
            assert(0 <= ci < old(self).installed().len() && old(self).installed()[ci].name
                == plugin@);
            assert(ci == i as int);
        }
        let p = self.config.plugins[i].clone();
        let key = if p.important() {
            "important-plugin"
        } else {
            "plugin"
        };
        if self.coffee_cln_config.has_field(key, Some(p.exec_path.as_str())) {
            let removed = self.coffee_cln_config.rm_conf(key, Some(p.exec_path.as_str()));
            proof {
                assert(removed is Ok);
            }
        } else {
            proof {
                lemma_rm_field_absent(old(self).fragment(), key@, Some(p@.exec_path));
            }
        }
        let ghost inner = self.fragment();
        if self.coffee_cln_config.has_field("disable-plugin", Some(p.exec_path.as_str())) {
            let removed = self.coffee_cln_config.rm_conf(
                "disable-plugin",
                Some(p.exec_path.as_str()),
            );
            proof {
                assert(removed is Ok);
            }
        } else {
            proof {
                lemma_rm_field_absent(inner, "disable-plugin"@, Some(p@.exec_path));
            }
        }
        self.config.plugins.remove(i);
        proof {
            assert(self.installed() =~= old(self).installed().remove(i as int));
            self.lemma_remove_wf(*old(self), i as int);
        }
        Ok(CoffeeRemove { plugin: p })
    }

    /// Dropping one plugin from the catalogue, together with the removal
    /// of every directive valued at its executable, preserves
    /// well-formedness.
    proof fn lemma_remove_wf(&self, pre: CoffeeManager, i: int)
        requires
            pre.wf(),
            0 <= i < pre.installed().len(),
            self.installed() == pre.installed().remove(i),
            self.fragment() == spec_rm_field(
                spec_rm_field(
                    pre.fragment(),
                    if spec_important(pre.installed()[i]) {
                        "important-plugin"@
                    } else {
                        "plugin"@
                    },
                    Some(pre.installed()[i].exec_path),
                ),
                "disable-plugin"@,
                Some(pre.installed()[i].exec_path),
            ),
            self.config@.root_path == pre.config@.root_path,
            self.config@.network == pre.config@.network,
            self.repos_v() == pre.repos_v(),
        ensures
            self.wf(),
    {
        let dir = spec_plugins_dir(self.config@);
        let old_inst = pre.installed();
        let new_inst = self.installed();
        assert(dir == spec_plugins_dir(pre.config@));
        assert(new_inst.len() == old_inst.len() - 1);
        assert forall|j: int| 0 <= j < new_inst.len() implies #[trigger] new_inst[j] == (if j < i {
            old_inst[j]
        } else {
            old_inst[j + 1]
        }) by {
            pre.installed().remove_ensures(i);
        }
        assert forall|a: int, b: int| 0 <= a < b < new_inst.len() implies new_inst[a].name
            != new_inst[b].name by {}
        assert forall|k: int| 0 <= k < new_inst.len() implies spec_plugin_scoped(
            dir,
            #[trigger] new_inst[k],
        ) by {
            if k < i {
                assert(spec_plugin_scoped(dir, old_inst[k]));
            } else {
                assert(spec_plugin_scoped(dir, old_inst[k + 1]));
            }
        }
        lemma_remove_sync(dir, old_inst, pre.fragment(), i);
        lemma_remove_disabled(dir, old_inst, pre.fragment(), i);
    }
}

/// After a plugin is dropped and every directive valued at its
/// executable is removed, the fragment is still accounted for by the
/// shrunk catalogue.
proof fn lemma_remove_sync(
    dir: Seq<char>,
    old_inst: Seq<PluginView>,
    fields: Seq<ConfFieldView>,
    i: int,
)
    requires
        spec_unique_names(old_inst),
        forall|k: int| 0 <= k < old_inst.len() ==> spec_plugin_scoped(dir, #[trigger] old_inst[k]),
        spec_fragment_sync(old_inst, fields),
        0 <= i < old_inst.len(),
    ensures
        spec_fragment_sync(
            old_inst.remove(i),
            spec_rm_field(
                spec_rm_field(
                    fields,
                    if spec_important(old_inst[i]) {
                        "important-plugin"@
                    } else {
                        "plugin"@
                    },
                    Some(old_inst[i].exec_path),
                ),
                "disable-plugin"@,
                Some(old_inst[i].exec_path),
            ),
        ),
{
    lemma_key_literals();
    let new_inst = old_inst.remove(i);
    let p = old_inst[i];
    let exec = p.exec_path;
    let key = if spec_important(p) {
        "important-plugin"@
    } else {
        "plugin"@
    };
    let inner = spec_rm_field(fields, key, Some(exec));
    let outer = spec_rm_field(inner, "disable-plugin"@, Some(exec));
    lemma_rm_field_sound(fields, key, Some(exec));
    lemma_rm_field_sound(inner, "disable-plugin"@, Some(exec));
    old_inst.remove_ensures(i);
    assert forall|k: int| 0 <= k < outer.len() implies ((#[trigger] outer[k]).key == "plugin"@
        || outer[k].key == "important-plugin"@ || outer[k].key == "disable-plugin"@)
        && spec_field_ok(new_inst, outer[k]) by {
        let f = outer[k];
        assert(!spec_field_matches(f, "disable-plugin"@, Some(exec)));
        let ki = choose|ki: int| 0 <= ki < inner.len() && inner[ki] == f;
        assert(!spec_field_matches(f, key, Some(exec)));
        let k0 = choose|k0: int| 0 <= k0 < fields.len() && fields[k0] == f;
        assert(spec_field_ok(old_inst, f));
        let w = field_ok_witness(old_inst, f);
        if w == i {
            assert(f.value == exec);
            if f.key == key {
                assert(spec_field_matches(f, key, Some(exec)));
                assert(false);
            } else if f.key == "disable-plugin"@ {
                assert(spec_field_matches(f, "disable-plugin"@, Some(exec)));
                assert(false);
            } else {
                assert(false);
            }
        } else {
            lemma_installed_execs_injective(dir, old_inst, w, i);
            let w2: int = if w < i {
                w
            } else {
                w - 1
            };
            assert(new_inst[w2] == old_inst[w]);
            assert(spec_field_ok(new_inst, f));
        }
    }
}

/// After a plugin is dropped and every directive valued at its
/// executable is removed, the other disabled plugins keep their
/// `disable-plugin` directives.
proof fn lemma_remove_disabled(
    dir: Seq<char>,
    old_inst: Seq<PluginView>,
    fields: Seq<ConfFieldView>,
    i: int,
)
    requires
        spec_unique_names(old_inst),
        forall|k: int| 0 <= k < old_inst.len() ==> spec_plugin_scoped(dir, #[trigger] old_inst[k]),
        spec_disabled_have_fields(old_inst, fields),
        0 <= i < old_inst.len(),
    ensures
        spec_disabled_have_fields(
            old_inst.remove(i),
            spec_rm_field(
                spec_rm_field(
                    fields,
                    if spec_important(old_inst[i]) {
                        "important-plugin"@
                    } else {
                        "plugin"@
                    },
                    Some(old_inst[i].exec_path),
                ),
                "disable-plugin"@,
                Some(old_inst[i].exec_path),
            ),
        ),
{
    let new_inst = old_inst.remove(i);
    let p = old_inst[i];
    let exec = p.exec_path;
    let key = if spec_important(p) {
        "important-plugin"@
    } else {
        "plugin"@
    };
    let inner = spec_rm_field(fields, key, Some(exec));
    let outer = spec_rm_field(inner, "disable-plugin"@, Some(exec));
    lemma_rm_field_complete(fields, key, Some(exec));
    lemma_rm_field_complete(inner, "disable-plugin"@, Some(exec));
    old_inst.remove_ensures(i);
    assert forall|j: int|
        0 <= j < new_inst.len() && (#[trigger] new_inst[j]).enabled == Some(
            false,
        ) implies spec_has_field(outer, "disable-plugin"@, Some(new_inst[j].exec_path)) by {
        let oj: int = if j < i {
            j
        } else {
            j + 1
        };
        assert(new_inst[j] == old_inst[oj]);
        lemma_installed_execs_injective(dir, old_inst, oj, i);
        let k0 = choose|k0: int|
            0 <= k0 < fields.len() && spec_field_matches(
                fields[k0],
                "disable-plugin"@,
                Some(old_inst[oj].exec_path),
            );
        let g = fields[k0];
        assert(g.value == old_inst[oj].exec_path);
        assert(!spec_field_matches(g, key, Some(exec)));
        let k1 = choose|k1: int| 0 <= k1 < inner.len() && inner[k1] == g;
        assert(!spec_field_matches(g, "disable-plugin"@, Some(exec)));
        let k2 = choose|k2: int| 0 <= k2 < outer.len() && outer[k2] == g;
        assert(spec_field_matches(outer[k2], "disable-plugin"@, Some(new_inst[j].exec_path)));
    }
}

/// A repository lookup fails exactly when no tracked repository carries
/// the name.
pub proof fn lemma_find_repo_absent(s: Seq<GithubView>, name: Seq<char>)
    ensures
        spec_find_repo(s, name) is None <==> (forall|m: int|
            0 <= m < s.len() ==> (#[trigger] s[m]).name != name),
    decreases s.len(),
{
    if s.len() > 0 {
        lemma_find_repo_absent(s.drop_first(), name);
        assert(forall|m: int|
            0 <= m < s.drop_first().len() ==> #[trigger] s.drop_first()[m] == s[m + 1]);
        if s.first().name != name && (forall|m: int|
            0 <= m < s.drop_first().len() ==> (#[trigger] s.drop_first()[m]).name != name) {
            assert forall|m: int| 0 <= m < s.len() implies (#[trigger] s[m]).name != name by {
                if m > 0 {
                    assert(s.drop_first()[m - 1] == s[m]);
                }
            }
        }
    }
}

/// The index of the tracked repository with this name, when one exists.
pub open spec fn spec_repo_index(s: Seq<GithubView>, name: Seq<char>) -> int {
    choose|i: int| 0 <= i < s.len() && s[i].name == name
}

impl CoffeeManager {
    /// Start tracking a remote: reject a name that is already tracked,
    /// normalize the URL, derive the deterministic clone location under
    /// `{root}/{network}/repositories/{name}`, and hand back the fresh
    /// repository.  The caller clones and indexes it, then enters it in
    /// the catalogue through `add_remote_commit`.
    pub fn add_remote(&self, name: &str, url: &str) -> (r: Result<Github, CoffeeError>)
        ensures
            r is Ok <==> spec_find_repo(self.repos_v(), name@) is None,
            r is Err ==> r->Err_0.code == CODE_GENERIC,
            r is Ok ==> ({
                let g = r.unwrap()@;
                &&& g.name == name@
                &&& g.url.name == name@
                &&& g.url.url_string == crate::url::spec_normalize_url(url@)
                &&& g.url.path_string == self.config@.root_path + seq!['/'] + self.config@.network
                    + "/repositories/"@ + name@
                &&& g.url.repo_name == crate::url::spec_repo_name_from_url(url@)
                &&& g.plugins == Seq::<PluginView>::empty()
                &&& g.git_head is None
                &&& g.last_activity is None
            }),
    {
        if self.find_repo_index(name).is_some() {
            let msg = concat3("repository with name: ", name, " already exists");
            return Err(CoffeeError::new(CODE_GENERIC, msg.as_str()));
        }
        let net_path = self.config.path();
        let url = URL::new(net_path.as_str(), url, name);
        let repo = Github::new(name, &url);
        proof {
            assert(repo@.url.path_string =~= self.config@.root_path + seq!['/']
                + self.config@.network + "/repositories/"@ + name@);
        }
        Ok(repo)
    }

    /// Enter a cloned and indexed repository into the catalogue.  It is
    /// an error when a repository of that name is already tracked.
    pub fn add_remote_commit(&mut self, repo: Github) -> (r: Result<(), CoffeeError>)
        requires
            old(self).wf(),
        ensures
            final(self).wf(),
            r is Ok <==> spec_find_repo(old(self).repos_v(), repo@.name) is None,
            r is Err ==> *final(self) == *old(self) && r->Err_0.code == CODE_GENERIC,
            r is Ok ==> ({
                &&& final(self).repos_v() == old(self).repos_v().push(repo@)
                &&& final(self).installed() == old(self).installed()
                &&& final(self).fragment() == old(self).fragment()
                &&& final(self).config@ == old(self).config@
                &&& final(self).coffee_cln_config@ == old(self).coffee_cln_config@
            }),
    {
        if self.find_repo_index(repo.name.as_str()).is_some() {
            let msg = concat3("repository with name: ", repo.name.as_str(), " already exists");
            return Err(CoffeeError::new(CODE_GENERIC, msg.as_str()));
        }
        proof {
            lemma_find_repo_absent(self.repos_v(), repo@.name);
        }
        let ghost repo_v = repo@;
        self.repos.push(repo);
        proof {
            assert(self.repos_v() =~= old(self).repos_v().push(repo_v));
            assert forall|a: int, b: int|
                0 <= a < b < self.repos_v().len() implies self.repos_v()[a].name
                != self.repos_v()[b].name by {
                if b < old(self).repos_v().len() {
                    assert(old(self).repos_v()[a].name != old(self).repos_v()[b].name);
                } else {
                    assert(self.repos_v()[a] == old(self).repos_v()[a]);
                }
            }
        }
        Ok(())
    }

    /// Stop tracking a remote: uninstall every plugin sourced from it —
    /// installed plugins whose names appear in its catalogue — then drop
    /// the repository itself.  The caller deletes the clone directory and
    /// the uninstalled plugins' directories.  It is an error when no such
    /// repository is tracked.
    pub fn rm_remote(&mut self, name: &str) -> (r: Result<(), CoffeeError>)
        requires
            old(self).wf(),
        ensures
            final(self).wf(),
            r is Ok <==> spec_find_repo(old(self).repos_v(), name@) is Some,
            r is Err ==> *final(self) == *old(self) && r->Err_0.code == CODE_GENERIC
                && r->Err_0.msg@ == "repository with name: "@ + name@ + " not found"@,
            r is Ok ==> ({
                let repo = spec_find_repo(old(self).repos_v(), name@).unwrap();
                &&& final(self).repos_v() == old(self).repos_v().remove(
                    spec_repo_index(old(self).repos_v(), name@),
                )
                &&& (forall|j: int|
                    0 <= j < final(self).installed().len() ==> spec_find_plugin(
                        repo.plugins,
                        (#[trigger] final(self).installed()[j]).name,
                    ) is None)
                &&& (forall|j: int|
                    0 <= j < old(self).installed().len() && spec_find_plugin(
                        repo.plugins,
                        (#[trigger] old(self).installed()[j]).name,
                    ) is None ==> final(self).installed().contains(old(self).installed()[j]))
                &&& (forall|j: int|
                    0 <= j < final(self).installed().len() ==> old(self).installed().contains(
                        #[trigger] final(self).installed()[j],
                    ))
                &&& final(self).config@ == (CoffeeConfView {
                    plugins: final(self).config@.plugins,
                    ..old(self).config@
                })
                &&& final(self).coffee_cln_config@.path == old(self).coffee_cln_config@.path
                &&& final(self).coffee_cln_config@.network == old(self).coffee_cln_config@.network
            }),
    {
        let ri = match self.find_repo_index(name) {
            Some(i) => i,
            None => {
                let msg = concat3("repository with name: ", name, " not found");
                return Err(CoffeeError::new(CODE_GENERIC, msg.as_str()));
            },
        };
        let catalogue = crate::plugin::clone_plugins(&self.repos[ri].plugins);
        let ghost repo = spec_find_repo(old(self).repos_v(), name@).unwrap();
        let ghost cat = repo.plugins;
        proof {
            assert(plugins_view(catalogue@) == cat);
        }
        let mut k: usize = 0;
        while k < catalogue.len()
            invariant
                old(self).wf(),
                self.wf(),
                0 <= k <= catalogue.len(),
                plugins_view(catalogue@) == cat,
                forall|m: int| #![trigger cat[m]]
                    0 <= m < k ==> !(exists|j: int|
                        0 <= j < self.installed().len() && (#[trigger] self.installed()[j]).name
                            == cat[m].name),
                forall|j: int|
                    0 <= j < self.installed().len() ==> old(self).installed().contains(
                        #[trigger] self.installed()[j],
                    ),
                forall|j: int|
                    0 <= j < old(self).installed().len() && (forall|m: int| #![trigger cat[m]]
                        0 <= m < k ==> (#[trigger] old(self).installed()[j]).name != cat[m].name)
                        ==> self.installed().contains(old(self).installed()[j]),
                self.repos_v() == old(self).repos_v(),
                self.config@ == (CoffeeConfView {
                    plugins: self.config@.plugins,
                    ..old(self).config@
                }),
                self.coffee_cln_config@.path == old(self).coffee_cln_config@.path,
                self.coffee_cln_config@.network == old(self).coffee_cln_config@.network,
            decreases catalogue.len() - k,
        {
            let pname = catalogue[k].name.clone();
            let ghost pre_loop = *self;
            if crate::github::contains_plugin_name(&self.config.plugins, pname.as_str()) {
                let res = self.remove(pname.as_str());
                proof {
                    assert(res is Ok);
                    assert(pname@ == cat[k as int].name);
                    let i = spec_name_index(pre_loop.installed(), pname@);
                    assert(0 <= i < pre_loop.installed().len() && pre_loop.installed()[i].name
                        == pname@);
                    pre_loop.installed().remove_ensures(i);
                    // the one plugin with this name is gone, nothing new
                    // appeared, and the other plugins survive
                    assert forall|j: int|
                        0 <= j < self.installed().len() implies old(self).installed().contains(
                        #[trigger] self.installed()[j],
                    ) by {
                        assert(pre_loop.installed().contains(self.installed()[j]));
                    }
                    assert forall|m: int| #![trigger cat[m]]
                        0 <= m < k + 1 implies !(exists|j: int|
                        0 <= j < self.installed().len() && (#[trigger] self.installed()[j]).name
                            == cat[m].name) by {
                        if exists|j: int|
                            0 <= j < self.installed().len() && (#[trigger] self.installed()[j]).name
                                == cat[m].name {
                            let j = choose|j: int|
                                0 <= j < self.installed().len() && (
                                #[trigger] self.installed()[j]).name == cat[m].name;
                            if m < k {
                                let t = choose|t: int|
                                    0 <= t < pre_loop.installed().len()
                                        && pre_loop.installed()[t] == self.installed()[j];
                                assert(false);
                            } else {
                                // the removed plugin was the unique carrier
                                // of this name
                                let jj: int = if j < i {
                                    j
                                } else {
                                    j + 1
                                };
                                assert(self.installed()[j] == pre_loop.installed()[jj]);
                                assert(pre_loop.installed()[jj].name == pre_loop.installed()[
                                    i
                                ].name);
                                assert(jj != i);
                                assert(false);
                            }
                        }
                    }
                    assert forall|j: int|
                        0 <= j < old(self).installed().len() && (forall|m: int| #![trigger cat[m]]
                            0 <= m < k + 1 ==> (#[trigger] old(self).installed()[j]).name
                                != cat[m].name) implies self.installed().contains(
                        old(self).installed()[j],
                    ) by {
                        let t = choose|t: int|
                            0 <= t < pre_loop.installed().len() && pre_loop.installed()[t] == old(
                                self,
                            ).installed()[j];
                        assert(old(self).installed()[j].name != cat[k as int].name);
                        assert(pre_loop.installed()[t].name != pre_loop.installed()[i].name);
                        assert(t != i);
                        let t2: int = if t < i {
                            t
                        } else {
                            t - 1
                        };
                        assert(self.installed()[t2] == pre_loop.installed()[t]);
                    }
                }
            } else {
                proof {
                    assert forall|m: int| #![trigger cat[m]]
                        0 <= m < k + 1 implies !(exists|j: int|
                        0 <= j < self.installed().len() && (#[trigger] self.installed()[j]).name
                            == cat[m].name) by {}
                }
            }
            k = k + 1;
        }
        self.repos.remove(ri);
        proof {
            assert(self.repos_v() =~= old(self).repos_v().remove(ri as int));
            let ci = spec_repo_index(old(self).repos_v(), name@);
            assert(0 <= ci < old(self).repos_v().len() && old(self).repos_v()[ci].name == name@);
            assert(ci == ri as int);
            old(self).repos_v().remove_ensures(ri as int);
            assert forall|a: int, b: int|
                0 <= a < b < self.repos_v().len() implies self.repos_v()[a].name
                != self.repos_v()[b].name by {}
            assert forall|j: int|
                0 <= j < self.installed().len() implies spec_find_plugin(
                cat,
                (#[trigger] self.installed()[j]).name,
            ) is None by {
                crate::github::lemma_find_plugin_absent(cat, self.installed()[j].name);
                if spec_find_plugin(cat, self.installed()[j].name) is Some {
                    let m = choose|m: int|
                        0 <= m < cat.len() && (#[trigger] cat[m]).name == self.installed()[j].name;
                    assert(false);
                }
            }
            assert forall|j: int|
                0 <= j < old(self).installed().len() && spec_find_plugin(
                    cat,
                    (#[trigger] old(self).installed()[j]).name,
                ) is None implies self.installed().contains(old(self).installed()[j]) by {
                crate::github::lemma_find_plugin_absent(cat, old(self).installed()[j].name);
            }
        }
        Ok(())
    }

    /// Take the outcome of fetching a tracked repository — the upstream
    /// tip and its timestamp — restamp the repository and report which
    /// installed plugins the move affects.  The caller then provisions
    /// each affected plugin again, by a remove and an install; that pair
    /// is not transactional.
    pub fn upgrade(&mut self, repo: &str, new_commit: &str, new_ts: i64) -> (r: Result<
        crate::types::CoffeeUpgrade,
        CoffeeError,
    >)
        requires
            old(self).wf(),
        ensures
            final(self).wf(),
            r is Ok <==> (spec_find_repo(old(self).repos_v(), repo@) is Some
                && crate::github::commit_ts_valid(new_ts as int)),
            r is Err ==> *final(self) == *old(self) && r->Err_0.code == CODE_GENERIC,
            spec_find_repo(old(self).repos_v(), repo@) is None ==> r is Err && r->Err_0.msg@
                == "Repository with name: `"@ + repo@ + "` not found"@,
            r is Ok ==> ({
                let i = spec_repo_index(old(self).repos_v(), repo@);
                let g = old(self).repos_v()[i];
                let up_to_date = (match g.git_head {
                    Some(c) => c == new_commit@,
                    None => false,
                });
                &&& final(self).repos_v() == old(self).repos_v().update(
                    i,
                    GithubView {
                        git_head: Some(new_commit@),
                        last_activity: Some(crate::github::commit_date_of(new_ts as int)),
                        ..g
                    },
                )
                &&& r.unwrap().repo@ == g.name
                &&& crate::plugin_conf::strings_view(r.unwrap().plugins_effected@)
                    == crate::github::spec_effected(g.plugins, old(self).installed())
                &&& (up_to_date ==> (r.unwrap().status matches
                    crate::types::UpgradeStatus::UpToDate(c, d) && c@ == new_commit@ && d@
                    == crate::github::commit_date_of(new_ts as int)))
                &&& (!up_to_date ==> (r.unwrap().status matches
                    crate::types::UpgradeStatus::Updated(c, d) && c@ == new_commit@ && d@
                    == crate::github::commit_date_of(new_ts as int)))
                &&& final(self).installed() == old(self).installed()
                &&& final(self).fragment() == old(self).fragment()
                &&& final(self).config@ == old(self).config@
                &&& final(self).coffee_cln_config@ == old(self).coffee_cln_config@
            }),
    {
        let ri = match self.find_repo_index(repo) {
            Some(i) => i,
            None => {
                let msg = concat3("Repository with name: `", repo, "` not found");
                return Err(CoffeeError::new(CODE_GENERIC, msg.as_str()));
            },
        };
        proof {
            let ci = spec_repo_index(old(self).repos_v(), repo@);
            assert(0 <= ci < old(self).repos_v().len() && old(self).repos_v()[ci].name == repo@);
            assert(ci == ri as int);
        }
        let mut g = self.repos[ri].clone();
        let up = g.upgrade(&self.config.plugins, new_commit, new_ts)?;
        self.repos.set(ri, g);
        proof {
            let i = ri as int;
            assert(self.repos_v() =~= old(self).repos_v().update(
                i,
                GithubView {
                    git_head: Some(new_commit@),
                    last_activity: Some(crate::github::commit_date_of(new_ts as int)),
                    ..old(self).repos_v()[i]
                },
            ));
            assert forall|a: int, b: int|
                0 <= a < b < self.repos_v().len() implies self.repos_v()[a].name
                != self.repos_v()[b].name by {
                assert(self.repos_v()[a].name == old(self).repos_v()[a].name);
                assert(self.repos_v()[b].name == old(self).repos_v()[b].name);
            }
        }
        Ok(up)
    }

    /// Decide a tip: the named plugin has to be installed and its
    /// manifest has to declare a tipping offer.  The caller then fetches
    /// an invoice against the offer and pays it over RPC.
    pub fn tipping_of(&self, plugin: &str) -> (r: Result<
        crate::plugin_conf::Tipping,
        CoffeeError,
    >)
        requires
            self.wf(),
        ensures
            r is Ok <==> ((exists|i: int|
                0 <= i < self.installed().len() && (#[trigger] self.installed()[i]).name
                    == plugin@) && ({
                let p = self.installed()[spec_name_index(self.installed(), plugin@)];
                p.conf is Some && p.conf.unwrap().tipping is Some
            })),
            r is Ok ==> r.unwrap()@ == self.installed()[spec_name_index(
                self.installed(),
                plugin@,
            )].conf.unwrap().tipping.unwrap(),
            r is Err ==> r->Err_0.code == CODE_GENERIC,
    {
        let i = match self.find_plugin_index(plugin) {
            Some(i) => i,
            None => {
                let msg = concat3(
                    "No plugin with name `",
                    plugin,
                    "` found in the plugins installed",
                );
                return Err(CoffeeError::new(CODE_GENERIC, msg.as_str()));
            },
        };
        proof {
            let ci = spec_name_index(self.installed(), plugin@);
            assert(0 <= ci < self.installed().len() && self.installed()[ci].name == plugin@);
            assert(ci == i as int);
        }
        match self.config.plugins[i].tipping_info() {
            Some(t) => Ok(t),
            None => {
                let msg = concat3("Plugin `", plugin, "` has no tipping information");
                Err(CoffeeError::new(CODE_GENERIC, msg.as_str()))
            },
        }
    }

    /// Bind the manager to a node's configuration directory for the
    /// active network.  The caller parses the node configuration and
    /// splices the managed fragment in as a sub-include.
    pub fn setup(&mut self, cln_dir: &str)
        requires
            old(self).wf(),
        ensures
            final(self).wf(),
            final(self).config@ == (CoffeeConfView {
                cln_root: Some(cln_dir@),
                cln_config_path: Some(
                    cln_dir@ + seq!['/'] + old(self).config@.network + "/config"@,
                ),
                ..old(self).config@
            }),
            final(self).repos_v() == old(self).repos_v(),
            final(self).coffee_cln_config@ == old(self).coffee_cln_config@,
    {
        let with_network = join_path(cln_dir, self.config.network.as_str());
        let path = concat_str(with_network.as_str(), "/config");
        self.config.cln_config_path = Some(path);
        self.config.cln_root = Some(cln_dir.to_owned());
        proof {
            assert(self.config@ =~= (CoffeeConfView {
                cln_root: Some(cln_dir@),
                cln_config_path: Some(
                    cln_dir@ + seq!['/'] + old(self).config@.network + "/config"@,
                ),
                ..old(self).config@
            }));
        }
    }
}

impl CoffeeManager {
    /// Whether the installed plugins carry pairwise distinct names.
    fn check_unique_plugin_names(&self) -> (r: bool)
        ensures
            r == spec_unique_names(self.installed()),
    {
        let n = self.config.plugins.len();
        let mut i: usize = 0;
        while i < n
            invariant
                0 <= i <= n,
                n == self.config.plugins.len(),
                forall|a: int, b: int|
                    0 <= a < b < self.installed().len() && a < i ==> self.installed()[a].name
                        != self.installed()[b].name,
            decreases n - i,
        {
            let mut j = i + 1;
            while j < n
                invariant
                    0 <= i < j <= n,
                    n == self.config.plugins.len(),
                    forall|b: int|
                        i < b < j ==> self.installed()[i as int].name != (
                        #[trigger] self.installed()[b]).name,
                decreases n - j,
            {
                if eq_str(
                    self.config.plugins[i].name.as_str(),
                    self.config.plugins[j].name.as_str(),
                ) {
                    proof {
                        assert(self.installed()[i as int].name == self.installed()[j as int].name);
                    }
                    return false;
                }
                j = j + 1;
            }
            i = i + 1;
        }
        true
    }

    /// Whether every installed plugin is scoped under the network's
    /// plugins directory.
    fn check_plugins_scoped(&self) -> (r: bool)
        ensures
            r == (forall|i: int|
                0 <= i < self.installed().len() ==> spec_plugin_scoped(
                    spec_plugins_dir(self.config@),
                    #[trigger] self.installed()[i],
                )),
    {
        let mut i: usize = 0;
        while i < self.config.plugins.len()
            invariant
                0 <= i <= self.config.plugins.len(),
                forall|k: int|
                    0 <= k < i ==> spec_plugin_scoped(
                        spec_plugins_dir(self.config@),
                        #[trigger] self.installed()[k],
                    ),
            decreases self.config.plugins.len() - i,
        {
            if !self.check_plugin_scoped(&self.config.plugins[i]) {
                proof {
                    assert(!spec_plugin_scoped(
                        spec_plugins_dir(self.config@),
                        self.installed()[i as int],
                    ));
                }
                return false;
            }
            i = i + 1;
        }
        true
    }

    /// Whether some installed plugin accounts for this directive.
    fn check_field_ok(&self, field: &ConfField) -> (r: bool)
        ensures
            r == spec_field_ok(self.installed(), field@),
    {
        let is_disable = eq_str(field.key.as_str(), "disable-plugin");
        let is_plain = eq_str(field.key.as_str(), "plugin");
        let is_important = eq_str(field.key.as_str(), "important-plugin");
        let mut i: usize = 0;
        while i < self.config.plugins.len()
            invariant
                0 <= i <= self.config.plugins.len(),
                is_disable == (field@.key == "disable-plugin"@),
                is_plain == (field@.key == "plugin"@),
                is_important == (field@.key == "important-plugin"@),
                forall|w: int|
                    0 <= w < i ==> !((#[trigger] self.installed()[w]).exec_path == field@.value
                        && (field@.key == "disable-plugin"@ ==> self.installed()[w].enabled
                        == Some(false)) && (field@.key == "plugin"@ ==> !spec_important(
                        self.installed()[w],
                    )) && (field@.key == "important-plugin"@ ==> spec_important(
                        self.installed()[w],
                    ))),
            decreases self.config.plugins.len() - i,
        {
            let p = &self.config.plugins[i];
            let exec_matches = eq_str(p.exec_path.as_str(), field.value.as_str());
            if exec_matches {
                let disable_ok = !is_disable || matches!(p.enabled, Some(false));
                let plain_ok = !is_plain || !p.important();
                let important_ok = !is_important || p.important();
                if disable_ok && plain_ok && important_ok {
                    proof {
                        assert(self.installed()[i as int].exec_path == field@.value);
                    }
                    return true;
                }
            }
            i = i + 1;
        }
        proof {
            if spec_field_ok(self.installed(), field@) {
                let w = field_ok_witness(self.installed(), field@);
                assert(false);
            }
        }
        false
    }

    /// Whether every directive of the fragment is one this crate writes
    /// and is accounted for by an installed plugin.
    fn check_fragment_sync(&self) -> (r: bool)
        ensures
            r == spec_fragment_sync(self.installed(), self.fragment()),
    {
        let mut k: usize = 0;
        while k < self.coffee_cln_config.fields.len()
            invariant
                0 <= k <= self.coffee_cln_config.fields.len(),
                forall|m: int|
                    0 <= m < k ==> ((#[trigger] self.fragment()[m]).key == "plugin"@
                        || self.fragment()[m].key == "important-plugin"@ || self.fragment()[m].key
                        == "disable-plugin"@) && spec_field_ok(self.installed(), self.fragment()[m]),
            decreases self.coffee_cln_config.fields.len() - k,
        {
            let field = &self.coffee_cln_config.fields[k];
            let key_ok = eq_str(field.key.as_str(), "plugin") || eq_str(
                field.key.as_str(),
                "important-plugin",
            ) || eq_str(field.key.as_str(), "disable-plugin");
            if !key_ok || !self.check_field_ok(field) {
                proof {
                    assert(self.fragment()[k as int] == field@);
                    assert(!(((self.fragment()[k as int]).key == "plugin"@
                        || self.fragment()[k as int].key == "important-plugin"@
                        || self.fragment()[k as int].key == "disable-plugin"@) && spec_field_ok(
                        self.installed(),
                        self.fragment()[k as int],
                    )));
                }
                return false;
            }
            k = k + 1;
        }
        true
    }

    /// Whether every disabled plugin has its `disable-plugin` directive.
    fn check_disabled_have_fields(&self) -> (r: bool)
        ensures
            r == spec_disabled_have_fields(self.installed(), self.fragment()),
    {
        let mut i: usize = 0;
        while i < self.config.plugins.len()
            invariant
                0 <= i <= self.config.plugins.len(),
                forall|k: int|
                    0 <= k < i && (#[trigger] self.installed()[k]).enabled == Some(false)
                        ==> spec_has_field(
                        self.fragment(),
                        "disable-plugin"@,
                        Some(self.installed()[k].exec_path),
                    ),
            decreases self.config.plugins.len() - i,
        {
            let p = &self.config.plugins[i];
            if matches!(p.enabled, Some(false)) && !self.coffee_cln_config.has_field(
                "disable-plugin",
                Some(p.exec_path.as_str()),
            ) {
                proof {
                    assert(self.installed()[i as int].enabled == Some(false));
                    assert(!spec_has_field(
                        self.fragment(),
                        "disable-plugin"@,
                        Some(self.installed()[i as int].exec_path),
                    ));
                }
                return false;
            }
            i = i + 1;
        }
        true
    }

    /// Whether the tracked repositories carry pairwise distinct names.
    fn check_unique_repo_names(&self) -> (r: bool)
        ensures
            r == spec_unique_repo_names(self.repos_v()),
    {
        let n = self.repos.len();
        let mut i: usize = 0;
        while i < n
            invariant
                0 <= i <= n,
                n == self.repos.len(),
                forall|a: int, b: int|
                    0 <= a < b < self.repos_v().len() && a < i ==> self.repos_v()[a].name
                        != self.repos_v()[b].name,
            decreases n - i,
        {
            let mut j = i + 1;
            while j < n
                invariant
                    0 <= i < j <= n,
                    n == self.repos.len(),
                    forall|b: int|
                        i < b < j ==> self.repos_v()[i as int].name != (
                        #[trigger] self.repos_v()[b]).name,
                decreases n - j,
            {
                if eq_str(self.repos[i].name.as_str(), self.repos[j].name.as_str()) {
                    proof {
                        assert(self.repos_v()[i as int].name == self.repos_v()[j as int].name);
                    }
                    return false;
                }
                j = j + 1;
            }
            i = i + 1;
        }
        true
    }

    /// Whether this manager is well formed.
    fn check_wf(&self) -> (r: bool)
        ensures
            r == self.wf(),
    {
        self.check_unique_plugin_names() && self.check_plugins_scoped()
            && self.check_fragment_sync() && self.check_disabled_have_fields()
            && self.check_unique_repo_names()
    }

    /// Rebuild a manager from what an earlier run persisted: its
    /// configuration with the installed plugins, the tracked
    /// repositories, and the managed fragment read back from disk.  A
    /// state that is not well formed — the inconsistency a crash or a
    /// manual edit can leave — is refused rather than operated on.
    pub fn rehydrate(config: CoffeeConf, repos: Vec<Github>, fragment: CLNConf) -> (r: Result<
        CoffeeManager,
        CoffeeError,
    >)
        ensures
            ({
                let m = CoffeeManager { config, repos, coffee_cln_config: fragment };
                &&& (r is Ok <==> m.wf())
                &&& (r is Ok ==> r.unwrap() == m)
                &&& (r is Err ==> r->Err_0.code == CODE_GENERIC)
            }),
    {
        let m = CoffeeManager { config, repos, coffee_cln_config: fragment };
        if m.check_wf() {
            Ok(m)
        } else {
            Err(
                CoffeeError::new(
                    CODE_GENERIC,
                    "the stored state is inconsistent; run the recovery command",
                ),
            )
        }
    }
}

/// Whether a directive is anchored in a catalogue, its enabled flags
/// aside: its key is one this crate writes, its value is the executable
/// path of an installed plugin, and a static key agrees with that
/// plugin's importance.
pub open spec fn spec_anchored(installed: Seq<PluginView>, f: ConfFieldView) -> bool {
    &&& (f.key == "plugin"@ || f.key == "important-plugin"@ || f.key == "disable-plugin"@)
    &&& (exists|i: int|
        0 <= i < installed.len() && (#[trigger] installed[i]).exec_path == f.value && (f.key
            == "plugin"@ ==> !spec_important(installed[i])) && (f.key == "important-plugin"@
            ==> spec_important(installed[i])))
}

/// The anchored directives of a fragment, in order.
pub open spec fn spec_keep_anchored(
    installed: Seq<PluginView>,
    fields: Seq<ConfFieldView>,
) -> Seq<ConfFieldView>
    decreases fields.len(),
{
    if fields.len() == 0 {
        fields
    } else if spec_anchored(installed, fields.last()) {
        spec_keep_anchored(installed, fields.drop_last()).push(fields.last())
    } else {
        spec_keep_anchored(installed, fields.drop_last())
    }
}

/// Everything the anchored filter keeps is anchored.
proof fn lemma_keep_anchored_sound(installed: Seq<PluginView>, fields: Seq<ConfFieldView>)
    ensures
        forall|k: int|
            0 <= k < spec_keep_anchored(installed, fields).len() ==> spec_anchored(
                installed,
                #[trigger] spec_keep_anchored(installed, fields)[k],
            ),
    decreases fields.len(),
{
    if fields.len() > 0 {
        lemma_keep_anchored_sound(installed, fields.drop_last());
        let r = spec_keep_anchored(installed, fields);
        let rd = spec_keep_anchored(installed, fields.drop_last());
        assert forall|k: int| 0 <= k < r.len() implies spec_anchored(
            installed,
            #[trigger] r[k],
        ) by {
            if spec_anchored(installed, fields.last()) {
                if k < rd.len() {
                    assert(r[k] == rd[k]);
                } else {
                    assert(r[k] == fields.last());
                }
            } else {
                assert(r[k] == rd[k]);
            }
        }
    }
}

/// A plugin with its enabled flag read off a fragment: disabled when the
/// fragment holds its `disable-plugin` directive, no longer disabled
/// when it does not.
pub open spec fn spec_realign_one(p: PluginView, fields: Seq<ConfFieldView>) -> PluginView {
    PluginView {
        enabled: if spec_has_field(fields, "disable-plugin"@, Some(p.exec_path)) {
            Some(false)
        } else if p.enabled == Some(false) {
            Some(true)
        } else {
            p.enabled
        },
        ..p
    }
}

impl CoffeeManager {
    /// The witness an anchored directive has in a catalogue.
    proof fn anchored_witness(installed: Seq<PluginView>, f: ConfFieldView) -> (w: int)
        requires
            spec_anchored(installed, f),
        ensures
            0 <= w < installed.len(),
            installed[w].exec_path == f.value,
            f.key == "plugin"@ ==> !spec_important(installed[w]),
            f.key == "important-plugin"@ ==> spec_important(installed[w]),
    {
        choose|i: int|
            0 <= i < installed.len() && (#[trigger] installed[i]).exec_path == f.value && (f.key
                == "plugin"@ ==> !spec_important(installed[i])) && (f.key == "important-plugin"@
                ==> spec_important(installed[i]))
    }

    /// Whether a directive is anchored in the installed catalogue.
    fn check_field_anchored(&self, field: &ConfField) -> (r: bool)
        ensures
            r == spec_anchored(self.installed(), field@),
    {
        let is_disable = eq_str(field.key.as_str(), "disable-plugin");
        let is_plain = eq_str(field.key.as_str(), "plugin");
        let is_important = eq_str(field.key.as_str(), "important-plugin");
        if !(is_disable || is_plain || is_important) {
            return false;
        }
        let mut i: usize = 0;
        while i < self.config.plugins.len()
            invariant
                0 <= i <= self.config.plugins.len(),
                is_disable == (field@.key == "disable-plugin"@),
                is_plain == (field@.key == "plugin"@),
                is_important == (field@.key == "important-plugin"@),
                is_disable || is_plain || is_important,
                forall|w: int|
                    0 <= w < i ==> !((#[trigger] self.installed()[w]).exec_path == field@.value
                        && (field@.key == "plugin"@ ==> !spec_important(self.installed()[w])) && (
                    field@.key == "important-plugin"@ ==> spec_important(self.installed()[w]))),
            decreases self.config.plugins.len() - i,
        {
            let p = &self.config.plugins[i];
            if eq_str(p.exec_path.as_str(), field.value.as_str()) {
                let plain_ok = !is_plain || !p.important();
                let important_ok = !is_important || p.important();
                if plain_ok && important_ok {
                    proof {
                        assert(self.installed()[i as int].exec_path == field@.value);
                    }
                    return true;
                }
            }
            i = i + 1;
        }
        proof {
            if spec_anchored(self.installed(), field@) {
                let w = Self::anchored_witness(self.installed(), field@);
                assert(false);
            }
        }
        false
    }

    /// Repair the inconsistency window a crash between the two persisted
    /// writes can leave — a fragment that does not line up with the
    /// catalogue: drop every directive the catalogue does not account
    /// for, then read the enabled flags off what is left.  A catalogue
    /// that is itself broken (duplicate names, paths outside the
    /// network's plugins directory, duplicate repositories) cannot be
    /// repaired this way and is refused.
    pub fn reconcile(config: CoffeeConf, repos: Vec<Github>, fragment: CLNConf) -> (r: Result<
        CoffeeManager,
        CoffeeError,
    >)
        ensures
            ({
                let given = CoffeeManager { config, repos, coffee_cln_config: fragment };
                &&& (r is Ok <==> (spec_unique_names(given.installed()) && (forall|i: int|
                    0 <= i < given.installed().len() ==> spec_plugin_scoped(
                        spec_plugins_dir(given.config@),
                        #[trigger] given.installed()[i],
                    )) && spec_unique_repo_names(given.repos_v())))
                &&& (r is Err ==> r->Err_0.code == CODE_GENERIC)
                &&& (r is Ok ==> ({
                    let m = r.unwrap();
                    let kept = spec_keep_anchored(given.installed(), given.fragment());
                    &&& m.wf()
                    &&& m.fragment() == kept
                    &&& m.installed() == given.installed().map_values(
                        |p: PluginView| spec_realign_one(p, kept),
                    )
                    &&& m.repos_v() == given.repos_v()
                    &&& m.config@ == (CoffeeConfView { plugins: m.config@.plugins, ..given.config@ })
                    &&& m.coffee_cln_config@.path == given.coffee_cln_config@.path
                    &&& m.coffee_cln_config@.network == given.coffee_cln_config@.network
                }))
            }),
    {
        let mut m = CoffeeManager { config, repos, coffee_cln_config: fragment };
        if !(m.check_unique_plugin_names() && m.check_plugins_scoped()
            && m.check_unique_repo_names()) {
            return Err(
                CoffeeError::new(
                    CODE_GENERIC,
                    "the stored catalogue is inconsistent; run the recovery command",
                ),
            );
        }
        let ghost given_installed = m.installed();
        let ghost given_fields = m.fragment();
        // drop every directive the catalogue does not account for
        let mut kept = CLNConf::new(
            m.coffee_cln_config.network.as_str(),
            m.coffee_cln_config.path.as_str(),
        );
        let mut k: usize = 0;
        while k < m.coffee_cln_config.fields.len()
            invariant
                0 <= k <= m.coffee_cln_config.fields.len(),
                given_installed == m.installed(),
                given_fields == m.fragment(),
                kept@.network == m.coffee_cln_config@.network,
                kept@.path == m.coffee_cln_config@.path,
                kept@.fields == spec_keep_anchored(given_installed, given_fields.take(k as int)),
            decreases m.coffee_cln_config.fields.len() - k,
        {
            proof {
                assert(given_fields.take(k + 1 as int).drop_last() =~= given_fields.take(k as int));
                assert(given_fields.take(k + 1 as int).last() == given_fields[k as int]);
            }
            let field = &m.coffee_cln_config.fields[k];
            if m.check_field_anchored(field) {
                kept.add_conf(field.key.as_str(), field.value.as_str());
                proof {
                    assert(kept@.fields =~= spec_keep_anchored(
                        given_installed,
                        given_fields.take(k + 1 as int),
                    ));
                }
            }
            k = k + 1;
        }
        proof {
            assert(given_fields.take(m.coffee_cln_config.fields.len() as int) =~= given_fields);
        }
        let ghost kept_fields = kept@.fields;
        let ghost given_repos = m.repos_v();
        let ghost given_config = m.config@;
        let ghost given_frag = m.coffee_cln_config@;
        // read the enabled flags off the surviving directives
        let mut i: usize = 0;
        while i < m.config.plugins.len()
            invariant
                0 <= i <= m.config.plugins.len(),
                m.installed().len() == given_installed.len(),
                forall|j: int|
                    0 <= j < i ==> #[trigger] m.installed()[j] == spec_realign_one(
                        given_installed[j],
                        kept_fields,
                    ),
                forall|j: int|
                    i <= j < given_installed.len() ==> #[trigger] m.installed()[j]
                        == given_installed[j],
                kept@.fields == kept_fields,
                kept@.network == given_frag.network,
                kept@.path == given_frag.path,
                m.repos_v() == given_repos,
                m.config@ == (CoffeeConfView { plugins: m.config@.plugins, ..given_config }),
            decreases m.config.plugins.len() - i,
        {
            let exec = m.config.plugins[i].exec_path.clone();
            let disabled = kept.has_field("disable-plugin", Some(exec.as_str()));
            let mut p = m.config.plugins[i].clone();
            proof {
                assert(m.installed()[i as int] == given_installed[i as int]);
                assert(p@ == given_installed[i as int]);
                assert(exec@ == given_installed[i as int].exec_path);
            }
            p.enabled = if disabled {
                Some(false)
            } else if matches!(p.enabled, Some(false)) {
                Some(true)
            } else {
                p.enabled
            };
            proof {
                assert(p@ =~= spec_realign_one(given_installed[i as int], kept_fields));
            }
            let ghost pre_inst = m.installed();
            let ghost pv = p@;
            self_set_plugin(&mut m.config.plugins, i, p);
            proof {
                assert forall|j: int|
                    0 <= j < m.installed().len() implies #[trigger] m.installed()[j] == (if j
                    == i as int {
                    pv
                } else {
                    pre_inst[j]
                }) by {}
            }
            i = i + 1;
        }
        m.coffee_cln_config = kept;
        proof {
            assert(m.installed() =~= given_installed.map_values(
                |p: PluginView| spec_realign_one(p, kept_fields),
            ));
            lemma_keep_anchored_sound(given_installed, given_fields);
            m.lemma_reconcile_wf(given_installed, kept_fields);
        }
        Ok(m)
    }

    /// A catalogue with sound names and paths, a fragment filtered to
    /// its anchored directives, and flags read off that fragment make a
    /// well-formed manager.
    proof fn lemma_reconcile_wf(&self, given: Seq<PluginView>, kept: Seq<ConfFieldView>)
        requires
            spec_unique_names(given),
            forall|i: int|
                0 <= i < given.len() ==> spec_plugin_scoped(
                    spec_plugins_dir(self.config@),
                    #[trigger] given[i],
                ),
            spec_unique_repo_names(self.repos_v()),
            forall|k: int|
                0 <= k < kept.len() ==> spec_anchored(given, #[trigger] kept[k]),
            self.installed() == given.map_values(|p: PluginView| spec_realign_one(p, kept)),
            self.fragment() == kept,
        ensures
            self.wf(),
    {
        lemma_key_literals();
        let new_inst = self.installed();
        assert(new_inst.len() == given.len());
        assert(forall|j: int|
            0 <= j < given.len() ==> #[trigger] new_inst[j] == spec_realign_one(given[j], kept));
        assert forall|a: int, b: int| 0 <= a < b < new_inst.len() implies new_inst[a].name
            != new_inst[b].name by {
            assert(given[a].name != given[b].name);
        }
        assert forall|j: int| 0 <= j < new_inst.len() implies spec_plugin_scoped(
            spec_plugins_dir(self.config@),
            #[trigger] new_inst[j],
        ) by {
            assert(spec_plugin_scoped(spec_plugins_dir(self.config@), given[j]));
        }
        assert forall|k: int| 0 <= k < kept.len() implies ((#[trigger] self.fragment()[k]).key
            == "plugin"@ || self.fragment()[k].key == "important-plugin"@ || self.fragment()[k].key
            == "disable-plugin"@) && spec_field_ok(new_inst, self.fragment()[k]) by {
            let f = kept[k];
            let w = Self::anchored_witness(given, f);
            assert(new_inst[w].exec_path == f.value);
            assert(spec_important(new_inst[w]) == spec_important(given[w]));
            if f.key == "disable-plugin"@ {
                assert(spec_field_matches(kept[k], "disable-plugin"@, Some(given[w].exec_path)));
                assert(spec_has_field(kept, "disable-plugin"@, Some(given[w].exec_path)));
                assert(new_inst[w].enabled == Some(false));
            }
            assert(spec_field_ok(new_inst, f));
        }
        assert forall|j: int|
            0 <= j < new_inst.len() && (#[trigger] new_inst[j]).enabled == Some(
                false,
            ) implies spec_has_field(
            self.fragment(),
            "disable-plugin"@,
            Some(new_inst[j].exec_path),
        ) by {
            assert(new_inst[j] == spec_realign_one(given[j], kept));
            assert(spec_has_field(kept, "disable-plugin"@, Some(given[j].exec_path)));
        }
    }
}

/// Replace one plugin of the catalogue.
fn self_set_plugin(plugins: &mut Vec<Plugin>, i: usize, p: Plugin)
    requires
        i < old(plugins).len(),
    ensures
        final(plugins)@ == old(plugins)@.update(i as int, p),
{
    plugins.set(i, p);
}

/// In a well-formed manager, no installed plugin shares the executable
/// path of a fresh, scoped plugin whose name is not installed.
proof fn lemma_fresh_exec_not_installed(m: &CoffeeManager, p: PluginView)
    requires
        m.wf(),
        spec_plugin_scoped(spec_plugins_dir(m.config@), p),
        forall|i: int|
            0 <= i < m.installed().len() ==> (#[trigger] m.installed()[i]).name != p.name,
    ensures
        forall|i: int|
            0 <= i < m.installed().len() ==> (#[trigger] m.installed()[i]).exec_path
                != p.exec_path,
{
    assert forall|i: int|
        0 <= i < m.installed().len() implies (#[trigger] m.installed()[i]).exec_path
        != p.exec_path by {
        lemma_scoped_exec_distinct(spec_plugins_dir(m.config@), m.installed()[i], p);
    }
}

/// Law: installing a plugin and then removing that same plugin restores
/// the pre-install catalogue and the pre-install configuration fragment.
///
/// `install_commit` appends the plugin — statically also its directive —
/// and `remove` then finds it at the appended position and takes back
/// exactly what was added: the catalogue and the fragment end up as they
/// were.
pub proof fn lemma_install_remove_roundtrip(m: &CoffeeManager, p: PluginView, try_dynamic: bool)
    requires
        m.wf(),
        spec_plugin_scoped(spec_plugins_dir(m.config@), p),
        forall|i: int|
            0 <= i < m.installed().len() ==> (#[trigger] m.installed()[i]).name != p.name,
    ensures
        ({
            let stored = PluginView {
                enabled: if try_dynamic {
                    p.enabled
                } else {
                    Some(true)
                },
                ..p
            };
            let key = if spec_important(p) {
                "important-plugin"@
            } else {
                "plugin"@
            };
            // `remove` finds the freshly installed plugin at the appended
            // position, and dropping it restores the catalogue
            &&& spec_name_index(m.installed().push(stored), p.name) == m.installed().len()
            &&& m.installed().push(stored).remove(m.installed().len() as int) == m.installed()
            // a static install leaves exactly one new directive, and the
            // removal takes it back
            &&& spec_rm_field(
                spec_rm_field(
                    m.fragment().push(ConfFieldView { key, value: p.exec_path }),
                    key,
                    Some(p.exec_path),
                ),
                "disable-plugin"@,
                Some(p.exec_path),
            ) == m.fragment()
            // a dynamic install leaves the fragment alone, and so does
            // the removal
            &&& spec_rm_field(
                spec_rm_field(m.fragment(), key, Some(p.exec_path)),
                "disable-plugin"@,
                Some(p.exec_path),
            ) == m.fragment()
        }),
{
    let stored = PluginView {
        enabled: if try_dynamic {
            p.enabled
        } else {
            Some(true)
        },
        ..p
    };
    let key = if spec_important(p) {
        "important-plugin"@
    } else {
        "plugin"@
    };
    let n = m.installed().len() as int;
    let pushed = m.installed().push(stored);
    let ci = spec_name_index(pushed, p.name);
    assert(pushed[n].name == p.name);
    assert(0 <= ci < pushed.len() && pushed[ci].name == p.name);
    assert(ci == n) by {
        if ci < n {
            assert(m.installed()[ci].name != p.name);
        }
    }
    assert(pushed.remove(n) =~= m.installed());
    lemma_fresh_exec_not_installed(m, p);
    lemma_no_field_for_fresh_value(m.installed(), m.fragment(), key, p.exec_path);
    lemma_no_field_for_fresh_value(m.installed(), m.fragment(), "disable-plugin"@, p.exec_path);
    lemma_add_then_rm(
        m.fragment(),
        ConfFieldView { key, value: p.exec_path },
        Some(p.exec_path),
    );
    lemma_rm_field_absent(m.fragment(), "disable-plugin"@, Some(p.exec_path));
    lemma_rm_field_absent(m.fragment(), key, Some(p.exec_path));
}

/// Law: disabling an enabled plugin and then enabling it again returns
/// the configuration fragment to its pre-disable content.
///
/// `disable` appends the one `disable-plugin` directive for the plugin's
/// executable, and `enable` removes every directive that matches it; a
/// well-formed fragment held none before, so exactly the appended one
/// goes.
pub proof fn lemma_disable_enable_fragment_roundtrip(m: &CoffeeManager, i: int)
    requires
        m.wf(),
        0 <= i < m.installed().len(),
        m.installed()[i].enabled != Some(false),
    ensures
        spec_rm_field(
            m.fragment().push(
                ConfFieldView { key: "disable-plugin"@, value: m.installed()[i].exec_path },
            ),
            "disable-plugin"@,
            Some(m.installed()[i].exec_path),
        ) == m.fragment(),
{
    let exec = m.installed()[i].exec_path;
    assert(!spec_has_field(m.fragment(), "disable-plugin"@, Some(exec))) by {
        if spec_has_field(m.fragment(), "disable-plugin"@, Some(exec)) {
            let k = choose|k: int|
                0 <= k < m.fragment().len() && spec_field_matches(
                    m.fragment()[k],
                    "disable-plugin"@,
                    Some(exec),
                );
            assert(spec_field_ok(m.installed(), m.fragment()[k]));
            let w = field_ok_witness(m.installed(), m.fragment()[k]);
            if w != i {
                lemma_installed_execs_injective(
                    spec_plugins_dir(m.config@),
                    m.installed(),
                    w,
                    i,
                );
            }
            assert(false);
        }
    }
    lemma_add_then_rm(
        m.fragment(),
        ConfFieldView { key: "disable-plugin"@, value: exec },
        Some(exec),
    );
}

/// No directive of a synced fragment carries a value that is not the
/// executable path of an installed plugin.
pub proof fn lemma_no_field_for_fresh_value(
    installed: Seq<PluginView>,
    fields: Seq<ConfFieldView>,
    key: Seq<char>,
    v: Seq<char>,
)
    requires
        spec_fragment_sync(installed, fields),
        forall|i: int| 0 <= i < installed.len() ==> (#[trigger] installed[i]).exec_path != v,
    ensures
        !spec_has_field(fields, key, Some(v)),
{
    if spec_has_field(fields, key, Some(v)) {
        let k = choose|k: int|
            0 <= k < fields.len() && spec_field_matches(fields[k], key, Some(v));
        assert(spec_field_ok(installed, fields[k]));
        let i = choose|i: int|
            0 <= i < installed.len() && (#[trigger] installed[i]).exec_path == fields[k].value;
        assert(false);
    }
}

} // verus!
