//! Request and response types of the plugin manager's operations.
use vstd::prelude::*;

use crate::plugin::{Plugin, PluginView};

verus! {

// ------------------------------------------------------------------
// Requests
// ------------------------------------------------------------------

/// Ask to install a plugin by name.
#[derive(Debug, PartialEq, Eq)]
pub struct Install {
    pub plugin: String,
    pub try_dynamic: bool,
}

/// Ask to remove an installed plugin by name.
#[derive(Debug, PartialEq, Eq)]
pub struct Remove {
    pub plugin: String,
}

/// Ask to track a new remote repository.
#[derive(Debug, PartialEq, Eq)]
pub struct RemoteAdd {
    pub repository_name: String,
    pub repository_url: String,
}

/// Ask to drop a tracked remote repository.
#[derive(Debug, PartialEq, Eq)]
pub struct RemoteRm {
    pub repository_name: String,
}

/// Ask for the catalogue of one tracked repository.
#[derive(Debug, PartialEq, Eq)]
pub struct RemotePluginsList {
    pub repository_name: String,
}

/// Ask for the README of a plugin.
#[derive(Debug, PartialEq, Eq)]
pub struct Show {
    pub plugin: String,
}

/// Ask in which repository a plugin lives.
#[derive(Debug, PartialEq, Eq)]
pub struct Search {
    pub plugin: String,
}

// ------------------------------------------------------------------
// Responses
// ------------------------------------------------------------------

/// The plugin that a remove operation dropped from the catalogue.
#[derive(Debug, PartialEq, Eq)]
pub struct CoffeeRemove {
    pub plugin: Plugin,
}

/// A list of plugins: the installed ones, or a repository's catalogue.
#[derive(Debug, PartialEq, Eq)]
pub struct CoffeeList {
    pub plugins: Vec<Plugin>,
}

/// All tracked remote repositories.
#[derive(Debug, PartialEq, Eq)]
pub struct CoffeeRemote {
    pub remotes: Option<Vec<CoffeeListRemote>>,
}

/// One tracked remote repository, with its catalogue.
#[derive(Debug, PartialEq, Eq)]
pub struct CoffeeListRemote {
    pub local_name: String,
    pub url: String,
    pub plugins: Vec<Plugin>,
    pub commit_id: Option<String>,
    pub date: Option<String>,
}

/// Outcome of refreshing a repository: either the local clone already
/// was at the upstream tip, or it advanced to a new commit.  Both carry
/// the commit id and its date.
#[derive(Debug, PartialEq, Eq)]
pub enum UpgradeStatus {
    UpToDate(String, String),
    Updated(String, String),
}

impl UpgradeStatus {
    /// The commit id the repository is at after the refresh.
    pub fn commit_id(&self) -> (r: String)
        ensures
            r@ == (match self {
                UpgradeStatus::UpToDate(c, _) => c@,
                UpgradeStatus::Updated(c, _) => c@,
            }),
    {
        match self {
            UpgradeStatus::UpToDate(c, _) => c.clone(),
            UpgradeStatus::Updated(c, _) => c.clone(),
        }
    }

    /// The date of that commit.
    pub fn date(&self) -> (r: String)
        ensures
            r@ == (match self {
                UpgradeStatus::UpToDate(_, d) => d@,
                UpgradeStatus::Updated(_, d) => d@,
            }),
    {
        match self {
            UpgradeStatus::UpToDate(_, d) => d.clone(),
            UpgradeStatus::Updated(_, d) => d.clone(),
        }
    }
}

/// Outcome of upgrading a repository, with the installed plugins that
/// the move affected and that have to be provisioned again.
#[derive(Debug, PartialEq, Eq)]
pub struct CoffeeUpgrade {
    pub repo: String,
    pub status: UpgradeStatus,
    pub plugins_effected: Vec<String>,
}

/// The README of a plugin.
#[derive(Debug, PartialEq, Eq)]
pub struct CoffeeShow {
    pub readme: String,
}

/// Where a plugin was found.
#[derive(Debug, PartialEq, Eq)]
pub struct CoffeeSearch {
    pub repository_url: String,
    pub plugin: Plugin,
}

/// Outcome of tipping a plugin author.
#[derive(Debug, PartialEq, Eq)]
pub struct CoffeeTip {
    pub for_plugin: String,
    pub invoice: String,
    pub status: String,
    pub destination: Option<String>,
    pub amount_msat: Option<u64>,
    pub amount_sent_msat: Option<u64>,
    pub warning_partial_completion: Option<String>,
}

/// A defect that the recovery subsystem can patch.
#[derive(Debug, PartialEq, Eq)]
pub enum Defect {
    /// Repositories present in the configuration but absent from the
    /// local storage, by name.
    RepositoryLocallyAbsent(Vec<String>),
    /// Networks whose repository directory still follows the legacy
    /// global layout, with the legacy path.
    CoffeeGlobalRepoCleanup(Vec<(String, String)>),
}

/// Every defect found by a scan of the recovery chain.
#[derive(Debug, PartialEq, Eq)]
pub struct ChainOfResponsibilityStatus {
    pub defects: Vec<Defect>,
}

/// One action the recovery subsystem took.
#[derive(Debug, PartialEq, Eq)]
pub enum NurseStatus {
    RepositoryLocallyRestored(Vec<String>),
    RepositoryLocallyRemoved(Vec<String>),
}

/// The names a sequence of nurse actions reports as restored.
pub open spec fn spec_restored_names(s: Seq<NurseStatus>) -> Seq<Seq<char>>
    decreases s.len(),
{
    if s.len() == 0 {
        Seq::empty()
    } else {
        spec_restored_names(s.drop_last()) + (match s.last() {
            NurseStatus::RepositoryLocallyRestored(v) => crate::plugin_conf::strings_view(v@),
            NurseStatus::RepositoryLocallyRemoved(_) => Seq::empty(),
        })
    }
}

/// The names a sequence of nurse actions reports as removed.
pub open spec fn spec_removed_names(s: Seq<NurseStatus>) -> Seq<Seq<char>>
    decreases s.len(),
{
    if s.len() == 0 {
        Seq::empty()
    } else {
        spec_removed_names(s.drop_last()) + (match s.last() {
            NurseStatus::RepositoryLocallyRestored(_) => Seq::empty(),
            NurseStatus::RepositoryLocallyRemoved(v) => crate::plugin_conf::strings_view(v@),
        })
    }
}

/// What the recovery subsystem did; empty means the state was already
/// sane.
#[derive(Debug, PartialEq, Eq)]
pub struct CoffeeNurse {
    pub status: Vec<NurseStatus>,
}

impl CoffeeNurse {
    /// Whether the recovery run found nothing to do.
    pub fn is_sane(&self) -> (r: bool)
        ensures
            r == (self.status@.len() == 0),
    {
        self.status.is_empty()
    }

    /// Merge multiple occurrences of the same tag into one entry per
    /// tag: at most one restored entry, then at most one removed entry.
    pub fn organize(&mut self)
        ensures
            spec_restored_names(final(self).status@) == spec_restored_names(old(self).status@),
            spec_removed_names(final(self).status@) == spec_removed_names(old(self).status@),
            final(self).status@.len() == (if spec_restored_names(old(self).status@).len() > 0 {
                1 as int
            } else {
                0 as int
            }) + (if spec_removed_names(old(self).status@).len() > 0 {
                1 as int
            } else {
                0 as int
            }),
    {
        let mut restored: Vec<String> = Vec::new();
        let mut removed: Vec<String> = Vec::new();
        let mut i: usize = 0;
        while i < self.status.len()
            invariant
                0 <= i <= self.status.len(),
                crate::plugin_conf::strings_view(restored@) == spec_restored_names(
                    self.status@.take(i as int),
                ),
                crate::plugin_conf::strings_view(removed@) == spec_removed_names(
                    self.status@.take(i as int),
                ),
            decreases self.status.len() - i,
        {
            proof {
                assert(self.status@.take(i + 1 as int) =~= self.status@.take(i as int).push(
                    self.status@[i as int],
                ));
                assert(self.status@.take(i + 1 as int).drop_last() =~= self.status@.take(i as int));
            }
            let ghost restored0 = restored@;
            let ghost removed0 = removed@;
            match &self.status[i] {
                NurseStatus::RepositoryLocallyRestored(v) => {
                    let mut c = v.clone();
                    proof {
                        assert(crate::plugin_conf::strings_view(c@) =~= crate::plugin_conf::strings_view(v@));
                    }
                    restored.append(&mut c);
                    proof {
                        assert(crate::plugin_conf::strings_view(restored@) =~= crate::plugin_conf::strings_view(restored0) + crate::plugin_conf::strings_view(v@));
                    }
                },
                NurseStatus::RepositoryLocallyRemoved(v) => {
                    let mut c = v.clone();
                    proof {
                        assert(crate::plugin_conf::strings_view(c@) =~= crate::plugin_conf::strings_view(v@));
                    }
                    removed.append(&mut c);
                    proof {
                        assert(crate::plugin_conf::strings_view(removed@) =~= crate::plugin_conf::strings_view(removed0) + crate::plugin_conf::strings_view(v@));
                    }
                },
            }
            proof {
                assert(crate::plugin_conf::strings_view(restored@) =~= spec_restored_names(
                    self.status@.take(i + 1 as int),
                ));
                assert(crate::plugin_conf::strings_view(removed@) =~= spec_removed_names(
                    self.status@.take(i + 1 as int),
                ));
            }
            i = i + 1;
        }
        proof {
            assert(self.status@.take(self.status.len() as int) =~= self.status@);
        }
        let mut out: Vec<NurseStatus> = Vec::new();
        let has_restored = restored.len() > 0;
        let has_removed = removed.len() > 0;
        if has_restored {
            out.push(NurseStatus::RepositoryLocallyRestored(restored));
        }
        if has_removed {
            out.push(NurseStatus::RepositoryLocallyRemoved(removed));
        }
        proof {
            lemma_names_of_organized(out@);
        }
        self.status = out;
    }
}

/// For a status list in organized shape (at most one entry per tag, the
/// restored entry first), the projections are just the entries' lists.
proof fn lemma_names_of_organized(s: Seq<NurseStatus>)
    ensures
        s.len() == 0 ==> spec_restored_names(s) == Seq::<Seq<char>>::empty()
            && spec_removed_names(s) == Seq::<Seq<char>>::empty(),
        s.len() == 1 ==> spec_restored_names(s) == (match s[0] {
            NurseStatus::RepositoryLocallyRestored(v) => crate::plugin_conf::strings_view(v@),
            NurseStatus::RepositoryLocallyRemoved(_) => Seq::<Seq<char>>::empty(),
        }) && spec_removed_names(s) == (match s[0] {
            NurseStatus::RepositoryLocallyRestored(_) => Seq::<Seq<char>>::empty(),
            NurseStatus::RepositoryLocallyRemoved(v) => crate::plugin_conf::strings_view(v@),
        }),
        s.len() == 2 ==> spec_restored_names(s) == (match s[0] {
            NurseStatus::RepositoryLocallyRestored(v) => crate::plugin_conf::strings_view(v@),
            NurseStatus::RepositoryLocallyRemoved(_) => Seq::<Seq<char>>::empty(),
        }) + (match s[1] {
            NurseStatus::RepositoryLocallyRestored(v) => crate::plugin_conf::strings_view(v@),
            NurseStatus::RepositoryLocallyRemoved(_) => Seq::<Seq<char>>::empty(),
        }) && spec_removed_names(s) == (match s[0] {
            NurseStatus::RepositoryLocallyRestored(_) => Seq::<Seq<char>>::empty(),
            NurseStatus::RepositoryLocallyRemoved(v) => crate::plugin_conf::strings_view(v@),
        }) + (match s[1] {
            NurseStatus::RepositoryLocallyRestored(_) => Seq::<Seq<char>>::empty(),
            NurseStatus::RepositoryLocallyRemoved(v) => crate::plugin_conf::strings_view(v@),
        }),
    decreases s.len(),
{
    assert(spec_restored_names(Seq::<NurseStatus>::empty()) == Seq::<Seq<char>>::empty());
    assert(spec_removed_names(Seq::<NurseStatus>::empty()) == Seq::<Seq<char>>::empty());
    if s.len() == 1 {
        assert(s.last() == s[0]);
        assert(s.drop_last() =~= Seq::<NurseStatus>::empty());
        assert(Seq::<Seq<char>>::empty() + (match s[0] {
            NurseStatus::RepositoryLocallyRestored(v) => crate::plugin_conf::strings_view(v@),
            NurseStatus::RepositoryLocallyRemoved(_) => Seq::<Seq<char>>::empty(),
        }) =~= (match s[0] {
            NurseStatus::RepositoryLocallyRestored(v) => crate::plugin_conf::strings_view(v@),
            NurseStatus::RepositoryLocallyRemoved(_) => Seq::<Seq<char>>::empty(),
        }));
        assert(Seq::<Seq<char>>::empty() + (match s[0] {
            NurseStatus::RepositoryLocallyRestored(_) => Seq::<Seq<char>>::empty(),
            NurseStatus::RepositoryLocallyRemoved(v) => crate::plugin_conf::strings_view(v@),
        }) =~= (match s[0] {
            NurseStatus::RepositoryLocallyRestored(_) => Seq::<Seq<char>>::empty(),
            NurseStatus::RepositoryLocallyRemoved(v) => crate::plugin_conf::strings_view(v@),
        }));
    }
    if s.len() == 2 {
        lemma_names_of_organized(s.drop_last());
        assert(s.drop_last().len() == 1);
        assert(s.drop_last()[0] == s[0]);
        assert(s.last() == s[1]);
    }
}

} // verus!
