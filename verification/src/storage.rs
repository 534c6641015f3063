//! What the manager persists: a plain record per repository and one
//! record carrying the whole configuration.  How the records are made
//! durable is the caller's business; the manager only assembles them.
use vstd::prelude::*;

use crate::coffee::CoffeeManager;
use crate::config::CoffeeConf;
use crate::github::{Github, GithubView};
use crate::plugin::{clone_plugins, plugins_view, Plugin};
use crate::text::{clone_opt_string, join_path, opt_string_view};
use crate::url::URL;

verus! {

/// The kind of source a repository record was made from.
#[derive(Debug, Clone, Copy, PartialEq, Eq, Structural)]
pub enum Kind {
    Git,
}

/// Minimal information to make a repository persistent.
#[derive(Debug, PartialEq, Eq)]
pub struct Repository {
    pub kind: Kind,
    pub name: String,
    pub url: URL,
    pub plugins: Vec<Plugin>,
    pub branch: String,
    pub git_head: Option<String>,
    pub last_activity: Option<String>,
}

impl Repository {
    /// The persistent record of a repository.
    pub fn of_github(g: &Github) -> (r: Self)
        ensures
            r.kind is Git,
            r.name@ == g@.name,
            r.url@ == g@.url,
            plugins_view(r.plugins@) == g@.plugins,
            r.branch@ == g@.branch,
            opt_string_view(r.git_head) == g@.git_head,
            opt_string_view(r.last_activity) == g@.last_activity,
    {
        Repository {
            kind: Kind::Git,
            name: g.name.clone(),
            url: g.url.clone(),
            plugins: clone_plugins(&g.plugins),
            branch: g.branch.clone(),
            git_head: clone_opt_string(&g.git_head),
            last_activity: clone_opt_string(&g.last_activity),
        }
    }

    /// Rehydrate the repository a record was made from.
    pub fn into_github(self) -> (r: Github)
        ensures
            r@ == (GithubView {
                name: self.name@,
                url: self.url@,
                plugins: plugins_view(self.plugins@),
                branch: self.branch@,
                git_head: opt_string_view(self.git_head),
                last_activity: opt_string_view(self.last_activity),
            }),
    {
        let r = Github {
            name: self.name,
            url: self.url,
            plugins: self.plugins,
            branch: self.branch,
            git_head: self.git_head,
            last_activity: self.last_activity,
        };
        proof {
            assert(r@ =~= (GithubView {
                name: r.name@,
                url: r.url@,
                plugins: plugins_view(r.plugins@),
                branch: r.branch@,
                git_head: opt_string_view(r.git_head),
                last_activity: opt_string_view(r.last_activity),
            }));
        }
        r
    }
}

/// Everything the manager persists: the configuration with the installed
/// plugins, and one record per tracked repository.
#[derive(Debug, PartialEq, Eq)]
pub struct CoffeeStorageInfo {
    pub config: CoffeeConf,
    pub repositories: Vec<Repository>,
}

impl CoffeeManager {
    /// Assemble the records to persist.
    pub fn storage_info(&self) -> (r: CoffeeStorageInfo)
        ensures
            r.config@ == self.config@,
            r.repositories@.len() == self.repos_v().len(),
            forall|i: int|
                0 <= i < self.repos_v().len() ==> {
                    let rec = (#[trigger] r.repositories@[i]);
                    &&& rec.kind is Git
                    &&& rec.name@ == self.repos_v()[i].name
                    &&& rec.url@ == self.repos_v()[i].url
                    &&& plugins_view(rec.plugins@) == self.repos_v()[i].plugins
                    &&& rec.branch@ == self.repos_v()[i].branch
                    &&& opt_string_view(rec.git_head) == self.repos_v()[i].git_head
                    &&& opt_string_view(rec.last_activity) == self.repos_v()[i].last_activity
                },
    {
        let mut repositories: Vec<Repository> = Vec::new();
        let mut i: usize = 0;
        while i < self.repos.len()
            invariant
                0 <= i <= self.repos.len(),
                repositories@.len() == i,
                forall|k: int|
                    0 <= k < i ==> {
                        let rec = (#[trigger] repositories@[k]);
                        &&& rec.kind is Git
                        &&& rec.name@ == self.repos_v()[k].name
                        &&& rec.url@ == self.repos_v()[k].url
                        &&& plugins_view(rec.plugins@) == self.repos_v()[k].plugins
                        &&& rec.branch@ == self.repos_v()[k].branch
                        &&& opt_string_view(rec.git_head) == self.repos_v()[k].git_head
                        &&& opt_string_view(rec.last_activity) == self.repos_v()[k].last_activity
                    },
            decreases self.repos.len() - i,
        {
            repositories.push(Repository::of_github(&self.repos[i]));
            i = i + 1;
        }
        CoffeeStorageInfo { config: self.config.clone(), repositories }
    }
}

/// A persistence backend that keeps one JSON dump of the manager status
/// in a file on disk.  Reading and writing the file is the caller's
/// business; this only pins the file's location.
#[derive(Debug, PartialEq, Eq)]
pub struct FileStorage {
    /// directory of the storage file
    pub path: String,
    pub name_file: String,
}

impl FileStorage {
    /// A file storage rooted at `path`.
    pub fn new(path: &str) -> (r: Self)
        ensures
            r.path@ == path@,
            r.name_file@ == "storage.json"@,
    {
        FileStorage { path: path.to_owned(), name_file: "storage.json".to_owned() }
    }

    /// Where the dump lives.
    pub fn get_path(&self) -> (r: String)
        ensures
            r@ == self.path@ + seq!['/'] + self.name_file@,
    {
        join_path(self.path.as_str(), self.name_file.as_str())
    }
}

} // verus!
