//! Recovery subsystem ("nurse"): an ordered chain of defect detectors
//! plus matching repair actions, run passively as a startup gate and
//! actively on demand.  The detectors decide over what the caller reports
//! about the disk; the repair updates the catalogue from the outcome of
//! each attempted re-clone.
use vstd::prelude::*;

use crate::coffee::{spec_find_repo, spec_repo_index, CoffeeManager};
use crate::errors::{CoffeeError, CODE_GENERIC};
use crate::github::GithubView;
use crate::plugin_conf::strings_view;
use crate::text::concat3;
use crate::types::{
    spec_removed_names, spec_restored_names, ChainOfResponsibilityStatus, CoffeeNurse, Defect,
    NurseStatus,
};

verus! {

/// Names of the repositories whose clones are missing on disk, in
/// catalogue order: `on_disk[i]` reports whether the clone of the i-th
/// repository exists.
pub open spec fn spec_missing_names(repos: Seq<GithubView>, on_disk: Seq<bool>) -> Seq<Seq<char>>
    recommends
        repos.len() == on_disk.len(),
    decreases repos.len(),
{
    if repos.len() == 0 {
        Seq::empty()
    } else {
        spec_missing_names(repos.drop_last(), on_disk.drop_last()) + (if on_disk[repos.len()
            - 1] {
            Seq::<Seq<char>>::empty()
        } else {
            seq![repos.last().name]
        })
    }
}

/// The entries of `names` whose outcome flag is set.
pub open spec fn spec_flagged_names(names: Seq<Seq<char>>, flags: Seq<bool>, want: bool) -> Seq<
    Seq<char>,
>
    recommends
        names.len() == flags.len(),
    decreases names.len(),
{
    if names.len() == 0 {
        Seq::empty()
    } else {
        spec_flagged_names(names.drop_last(), flags.drop_last(), want) + (if flags[names.len()
            - 1] == want {
            seq![names.last()]
        } else {
            Seq::<Seq<char>>::empty()
        })
    }
}

/// The catalogue after one repair: a failed recovery drops the named
/// repository, anything else leaves the catalogue as it is.
pub open spec fn spec_patch_step(repos: Seq<GithubView>, name: Seq<char>, ok: bool) -> Seq<
    GithubView,
> {
    if !ok && spec_find_repo(repos, name) is Some {
        repos.remove(spec_repo_index(repos, name))
    } else {
        repos
    }
}

/// Whether the repair walk finds every named repository, searching the
/// catalogue as it shrinks by each failed recovery.
pub open spec fn spec_patch_ok(repos: Seq<GithubView>, names: Seq<Seq<char>>, ok: Seq<bool>) -> bool
    recommends
        names.len() == ok.len(),
    decreases names.len(),
{
    if names.len() == 0 {
        true
    } else {
        &&& spec_find_repo(repos, names.first()) is Some
        &&& spec_patch_ok(
            spec_patch_step(repos, names.first(), ok.first()),
            names.drop_first(),
            ok.drop_first(),
        )
    }
}

/// The catalogue after the whole repair walk.
pub open spec fn spec_patch_repos(
    repos: Seq<GithubView>,
    names: Seq<Seq<char>>,
    ok: Seq<bool>,
) -> Seq<GithubView>
    recommends
        names.len() == ok.len(),
    decreases names.len(),
{
    if names.len() == 0 {
        repos
    } else {
        spec_patch_repos(
            spec_patch_step(repos, names.first(), ok.first()),
            names.drop_first(),
            ok.drop_first(),
        )
    }
}

/// Strategy for handling the situation when a git repository exists in
/// the configuration but is absent from the local storage.
pub struct GitRepositoryLocallyAbsentStrategy;

impl GitRepositoryLocallyAbsentStrategy {
    /// Determines if a repository is missing from local storage.
    ///
    /// The caller reports in `on_disk[i]` whether the clone of the i-th
    /// catalogued repository still exists; any missing one makes the
    /// defect, carrying the missing repositories' names.
    pub fn can_be_applied(&self, manager: &CoffeeManager, on_disk: &Vec<bool>) -> (r: Result<
        Option<Defect>,
        CoffeeError,
    >)
        requires
            on_disk@.len() == manager.repos_v().len(),
        ensures
            r is Ok,
            ({
                let missing = spec_missing_names(manager.repos_v(), on_disk@);
                &&& (r.unwrap() is Some <==> missing.len() > 0)
                &&& (r.unwrap() is Some ==> (r.unwrap().unwrap() matches
                    Defect::RepositoryLocallyAbsent(v) && strings_view(v@) == missing))
            }),
    {
        let mut missing: Vec<String> = Vec::new();
        let mut i: usize = 0;
        while i < manager.repos.len()
            invariant
                0 <= i <= manager.repos.len(),
                on_disk@.len() == manager.repos_v().len(),
                strings_view(missing@) == spec_missing_names(
                    manager.repos_v().take(i as int),
                    on_disk@.take(i as int),
                ),
            decreases manager.repos.len() - i,
        {
            proof {
                let rv = manager.repos_v();
                assert(rv.take(i + 1 as int) =~= rv.take(i as int).push(rv[i as int]));
                assert(rv.take(i + 1 as int).drop_last() =~= rv.take(i as int));
                assert(on_disk@.take(i + 1 as int).drop_last() =~= on_disk@.take(i as int));
            }
            if !on_disk[i] {
                let ghost missing0 = missing@;
                missing.push(manager.repos[i].name());
                proof {
                    assert(strings_view(missing@) =~= strings_view(missing0).push(
                        manager.repos_v()[i as int].name,
                    ));
                    assert(strings_view(missing0).push(manager.repos_v()[i as int].name)
                        =~= strings_view(missing0) + seq![manager.repos_v()[i as int].name]);
                }
            }
            i = i + 1;
        }
        proof {
            assert(manager.repos_v().take(manager.repos.len() as int) =~= manager.repos_v());
            assert(on_disk@.take(manager.repos.len() as int) =~= on_disk@);
        }
        if missing.len() > 0 {
            Ok(Some(Defect::RepositoryLocallyAbsent(missing)))
        } else {
            Ok(None)
        }
    }
}

/// Strategy for the migration of the legacy global repositories
/// directory to a per-network directory.
pub struct CoffeeRepositoryDirCleanUpStrategy;

impl CoffeeRepositoryDirCleanUpStrategy {
    /// Determines if the manager root still holds the legacy global
    /// `{root}/repositories` directory, which predates the per-network
    /// layout and needs migration.  The caller reports whether that
    /// directory exists.
    pub fn can_be_applied(&self, manager: &CoffeeManager, legacy_dir_exists: bool) -> (r: Result<
        Option<Defect>,
        CoffeeError,
    >)
        ensures
            r is Ok,
            r.unwrap() is Some <==> legacy_dir_exists,
            legacy_dir_exists ==> (r.unwrap().unwrap() matches Defect::CoffeeGlobalRepoCleanup(v)
                && v@.len() == 1 && v@[0].0@ == manager.config@.network && v@[0].1@
                == manager.config@.root_path + "/repositories"@),
    {
        if legacy_dir_exists {
            let legacy = crate::text::concat_str(manager.config.root_path.as_str(), "/repositories");
            let mut dirs: Vec<(String, String)> = Vec::new();
            dirs.push((manager.config.network.clone(), legacy));
            Ok(Some(Defect::CoffeeGlobalRepoCleanup(dirs)))
        } else {
            Ok(None)
        }
    }
}

/// The ordered chain of defect detectors.
pub struct RecoveryChainOfResponsibility {
    pub cleanup: CoffeeRepositoryDirCleanUpStrategy,
    pub locally_absent: GitRepositoryLocallyAbsentStrategy,
}

impl RecoveryChainOfResponsibility {
    /// Create a new instance of the chain of responsibility.
    pub fn new() -> (r: Result<Self, CoffeeError>)
        ensures
            r is Ok,
    {
        Ok(
            RecoveryChainOfResponsibility {
                cleanup: CoffeeRepositoryDirCleanUpStrategy,
                locally_absent: GitRepositoryLocallyAbsentStrategy,
            },
        )
    }

    /// Run every detector, unconditionally and in order, and accumulate
    /// the defects found.
    pub fn scan(&self, manager: &CoffeeManager, on_disk: &Vec<bool>, legacy_dir_exists: bool) -> (r:
        Result<ChainOfResponsibilityStatus, CoffeeError>)
        requires
            on_disk@.len() == manager.repos_v().len(),
        ensures
            r is Ok,
            ({
                let missing = spec_missing_names(manager.repos_v(), on_disk@);
                let defects = r.unwrap().defects@;
                &&& defects.len() == (if legacy_dir_exists {
                    1 as int
                } else {
                    0 as int
                }) + (if missing.len() > 0 {
                    1 as int
                } else {
                    0 as int
                })
                &&& (legacy_dir_exists ==> (defects[0] matches Defect::CoffeeGlobalRepoCleanup(v)
                    && v@.len() == 1 && v@[0].0@ == manager.config@.network && v@[0].1@
                    == manager.config@.root_path + "/repositories"@))
                &&& (missing.len() > 0 ==> (defects[defects.len() - 1] matches
                    Defect::RepositoryLocallyAbsent(v) && strings_view(v@) == missing))
            }),
    {
        let mut defects: Vec<Defect> = Vec::new();
        let first = self.cleanup.can_be_applied(manager, legacy_dir_exists)?;
        if let Some(defect) = first {
            defects.push(defect);
        }
        let second = self.locally_absent.can_be_applied(manager, on_disk)?;
        if let Some(defect) = second {
            defects.push(defect);
        }
        Ok(ChainOfResponsibilityStatus { defects })
    }
}

impl CoffeeManager {
    /// Verify that the configuration is sane without taking any action:
    /// run the detector chain over what the caller reports about the
    /// disk.
    pub fn nurse_verify(&self, on_disk: &Vec<bool>, legacy_dir_exists: bool) -> (r: Result<
        ChainOfResponsibilityStatus,
        CoffeeError,
    >)
        requires
            on_disk@.len() == self.repos_v().len(),
        ensures
            r is Ok,
            ({
                let missing = spec_missing_names(self.repos_v(), on_disk@);
                let defects = r.unwrap().defects@;
                &&& defects.len() == (if legacy_dir_exists {
                    1 as int
                } else {
                    0 as int
                }) + (if missing.len() > 0 {
                    1 as int
                } else {
                    0 as int
                })
                &&& (legacy_dir_exists ==> (defects[0] matches Defect::CoffeeGlobalRepoCleanup(v)
                    && v@.len() == 1 && v@[0].0@ == self.config@.network && v@[0].1@
                    == self.config@.root_path + "/repositories"@))
                &&& (missing.len() > 0 ==> (defects[defects.len() - 1] matches
                    Defect::RepositoryLocallyAbsent(v) && strings_view(v@) == missing))
            }),
    {
        let chain = RecoveryChainOfResponsibility::new()?;
        chain.scan(self, on_disk, legacy_dir_exists)
    }

    /// The passive gate run on startup: with defects present and
    /// verification not skipped, the manager refuses to proceed and the
    /// user has to run the active recovery.
    pub fn verify_gate(&self, status: &ChainOfResponsibilityStatus) -> (r: Result<(), CoffeeError>)
        ensures
            r is Ok <==> (self.config@.skip_verify || status.defects@.len() == 0),
            r is Err ==> r->Err_0.code == CODE_GENERIC,
    {
        if self.config.skip_verify || status.defects.is_empty() {
            Ok(())
        } else {
            Err(
                CoffeeError::new(
                    CODE_GENERIC,
                    "found some defects in the configuration. Please run the recovery command to fix them, or skip the verification",
                ),
            )
        }
    }

    /// Patch the configuration for repositories that are present in the
    /// configuration but absent from the local storage.  For each named
    /// repository the caller has attempted the pinned re-clone and
    /// reports the outcome: a recovered repository is kept and reported
    /// restored; a failed one leaves the catalogue entirely and is
    /// reported removed.  It is an error to name a repository that is
    /// not in the catalogue.
    pub fn patch_repository_locally_absent(&mut self, repos: Vec<String>, recover_ok: &Vec<bool>) -> (r:
        Result<Vec<NurseStatus>, CoffeeError>)
        requires
            old(self).wf(),
            repos@.len() == recover_ok@.len(),
        ensures
            final(self).wf(),
            r is Ok <==> spec_patch_ok(old(self).repos_v(), strings_view(repos@), recover_ok@),
            r is Err ==> r->Err_0.code == CODE_GENERIC,
            r is Ok ==> ({
                let names = strings_view(repos@);
                &&& final(self).repos_v() == spec_patch_repos(
                    old(self).repos_v(),
                    names,
                    recover_ok@,
                )
                &&& r.unwrap()@.len() == names.len()
                &&& (forall|m: int| #![trigger recover_ok@[m]]
                    0 <= m < names.len() && recover_ok@[m] ==> (r.unwrap()@[m] matches
                        NurseStatus::RepositoryLocallyRestored(v) && strings_view(v@)
                        == seq![names[m]]))
                &&& (forall|m: int| #![trigger recover_ok@[m]]
                    0 <= m < names.len() && !recover_ok@[m] ==> (r.unwrap()@[m] matches
                        NurseStatus::RepositoryLocallyRemoved(v) && strings_view(v@)
                        == seq![names[m]]))
                &&& spec_restored_names(r.unwrap()@) == spec_flagged_names(
                    names,
                    recover_ok@,
                    true,
                )
                &&& spec_removed_names(r.unwrap()@) == spec_flagged_names(
                    names,
                    recover_ok@,
                    false,
                )
                &&& (forall|k: int|
                    0 <= k < names.len() && !recover_ok@[k] ==> spec_find_repo(
                        final(self).repos_v(),
                        #[trigger] names[k],
                    ) is None)
                &&& (forall|j: int|
                    0 <= j < final(self).repos_v().len() ==> old(self).repos_v().contains(
                        #[trigger] final(self).repos_v()[j],
                    ))
                &&& final(self).installed() == old(self).installed()
                &&& final(self).fragment() == old(self).fragment()
                &&& final(self).config@ == old(self).config@
                &&& final(self).coffee_cln_config@ == old(self).coffee_cln_config@
            }),
    {
        let ghost names = strings_view(repos@);
        let mut actions: Vec<NurseStatus> = Vec::new();
        let mut k: usize = 0;
        proof {
            assert(names.skip(0) =~= names);
            assert(recover_ok@.skip(0) =~= recover_ok@);
        }
        while k < repos.len()
            invariant
                self.wf(),
                repos@.len() == recover_ok@.len(),
                names == strings_view(repos@),
                0 <= k <= repos.len(),
                spec_patch_ok(old(self).repos_v(), names, recover_ok@) == spec_patch_ok(
                    self.repos_v(),
                    names.skip(k as int),
                    recover_ok@.skip(k as int),
                ),
                spec_patch_repos(old(self).repos_v(), names, recover_ok@) == spec_patch_repos(
                    self.repos_v(),
                    names.skip(k as int),
                    recover_ok@.skip(k as int),
                ),
                actions@.len() == k,
                forall|m: int| #![trigger recover_ok@[m]]
                    0 <= m < k && recover_ok@[m] ==> (actions@[m] matches
                        NurseStatus::RepositoryLocallyRestored(v) && strings_view(v@)
                        == seq![names[m]]),
                forall|m: int| #![trigger recover_ok@[m]]
                    0 <= m < k && !recover_ok@[m] ==> (actions@[m] matches
                        NurseStatus::RepositoryLocallyRemoved(v) && strings_view(v@)
                        == seq![names[m]]),
                spec_restored_names(actions@) == spec_flagged_names(
                    names.take(k as int),
                    recover_ok@.take(k as int),
                    true,
                ),
                spec_removed_names(actions@) == spec_flagged_names(
                    names.take(k as int),
                    recover_ok@.take(k as int),
                    false,
                ),
                forall|m: int|
                    0 <= m < k && !recover_ok@[m] ==> spec_find_repo(
                        self.repos_v(),
                        #[trigger] names[m],
                    ) is None,
                forall|j: int|
                    0 <= j < self.repos_v().len() ==> old(self).repos_v().contains(
                        #[trigger] self.repos_v()[j],
                    ),
                self.installed() == old(self).installed(),
                self.fragment() == old(self).fragment(),
                self.config@ == old(self).config@,
                self.coffee_cln_config@ == old(self).coffee_cln_config@,
            decreases repos.len() - k,
        {
            proof {
                assert(names.take(k + 1 as int).drop_last() =~= names.take(k as int));
                assert(recover_ok@.take(k + 1 as int).drop_last() =~= recover_ok@.take(k as int));
                assert(names.take(k + 1 as int).last() == names[k as int]);
                assert(names.skip(k as int).first() == names[k as int]);
                assert(names.skip(k as int).drop_first() =~= names.skip(k + 1 as int));
                assert(recover_ok@.skip(k as int).first() == recover_ok@[k as int]);
                assert(recover_ok@.skip(k as int).drop_first() =~= recover_ok@.skip(k + 1 as int));
            }
            let name = &repos[k];
            let idx = match self.find_repo_index(name.as_str()) {
                Some(i) => i,
                None => {
                    proof {
                        assert(names.skip(k as int).len() > 0);
                        assert(!spec_patch_ok(
                            self.repos_v(),
                            names.skip(k as int),
                            recover_ok@.skip(k as int),
                        ));
                    }
                    let msg = concat3("repository with name: ", name.as_str(), " not found");
                    return Err(CoffeeError::new(CODE_GENERIC, msg.as_str()));
                },
            };
            let ghost pre_loop = *self;
            let ghost actions0 = actions@;
            if recover_ok[k] {
                proof {
                    assert(spec_patch_step(
                        pre_loop.repos_v(),
                        names[k as int],
                        recover_ok@[k as int],
                    ) =~= pre_loop.repos_v());
                }
                let mut one: Vec<String> = Vec::new();
                one.push(name.clone());
                actions.push(NurseStatus::RepositoryLocallyRestored(one));
                proof {
                    assert(actions@[k as int] == actions@.last());
                    assert(actions@[k as int] matches NurseStatus::RepositoryLocallyRestored(v)
                        && strings_view(v@) =~= seq![names[k as int]]);
                    assert(actions@.drop_last() =~= actions0);
                    assert(spec_restored_names(actions@) =~= spec_flagged_names(
                        names.take(k + 1 as int),
                        recover_ok@.take(k + 1 as int),
                        true,
                    ));
                    assert(spec_removed_names(actions@) =~= spec_flagged_names(
                        names.take(k + 1 as int),
                        recover_ok@.take(k + 1 as int),
                        false,
                    ));
                }
            } else {
                proof {
                    let ci = spec_repo_index(pre_loop.repos_v(), names[k as int]);
                    assert(0 <= ci < pre_loop.repos_v().len() && pre_loop.repos_v()[ci].name
                        == names[k as int]);
                    assert(ci == idx as int);
                }
                self.repos.remove(idx);
                let mut one: Vec<String> = Vec::new();
                one.push(name.clone());
                actions.push(NurseStatus::RepositoryLocallyRemoved(one));
                proof {
                    assert(self.repos_v() =~= pre_loop.repos_v().remove(idx as int));
                    assert(self.repos_v() == spec_patch_step(
                        pre_loop.repos_v(),
                        names[k as int],
                        recover_ok@[k as int],
                    ));
                    pre_loop.repos_v().remove_ensures(idx as int);
                    assert(actions@[k as int] == actions@.last());
                    assert(actions@[k as int] matches NurseStatus::RepositoryLocallyRemoved(v)
                        && strings_view(v@) =~= seq![names[k as int]]);
                    assert(actions@.drop_last() =~= actions0);
                    assert(spec_restored_names(actions@) =~= spec_flagged_names(
                        names.take(k + 1 as int),
                        recover_ok@.take(k + 1 as int),
                        true,
                    ));
                    assert(spec_removed_names(actions@) =~= spec_flagged_names(
                        names.take(k + 1 as int),
                        recover_ok@.take(k + 1 as int),
                        false,
                    ));
                    // uniqueness carries over to the shrunk catalogue
                    assert forall|a: int, b: int|
                        0 <= a < b < self.repos_v().len() implies self.repos_v()[a].name
                        != self.repos_v()[b].name by {}
                    // the named repository was the only one, so none is left
                    crate::coffee::lemma_find_repo_absent(self.repos_v(), names[k as int]);
                    assert forall|m: int|
                        0 <= m < k + 1 && !recover_ok@[m] implies spec_find_repo(
                        self.repos_v(),
                        #[trigger] names[m],
                    ) is None by {
                        crate::coffee::lemma_find_repo_absent(self.repos_v(), names[m]);
                        crate::coffee::lemma_find_repo_absent(pre_loop.repos_v(), names[m]);
                        if spec_find_repo(self.repos_v(), names[m]) is Some {
                            let j = choose|j: int|
                                0 <= j < self.repos_v().len() && (#[trigger] self.repos_v()[
                                    j
                                ]).name == names[m];
                            if m < k {
                                let jj: int = if j < idx {
                                    j
                                } else {
                                    j + 1
                                };
                                assert(self.repos_v()[j] == pre_loop.repos_v()[jj]);
                                assert(false);
                            } else {
                                assert(false);
                            }
                        }
                    }
                    assert forall|j: int|
                        0 <= j < self.repos_v().len() implies old(self).repos_v().contains(
                        #[trigger] self.repos_v()[j],
                    ) by {
                        assert(pre_loop.repos_v().contains(self.repos_v()[j]));
                    }
                }
            }
            proof {
                if recover_ok[k as int] {
                    assert forall|m: int|
                        0 <= m < k + 1 && !recover_ok@[m] implies spec_find_repo(
                        self.repos_v(),
                        #[trigger] names[m],
                    ) is None by {}
                }
            }
            k = k + 1;
        }
        proof {
            assert(names.take(repos.len() as int) =~= names);
            assert(recover_ok@.take(repos.len() as int) =~= recover_ok@);
            assert(names.skip(repos.len() as int) =~= Seq::<Seq<char>>::empty());
            assert(recover_ok@.skip(repos.len() as int) =~= Seq::<bool>::empty());
        }
        Ok(actions)
    }

    /// Clean up the storage information about the tracked repositories:
    /// run the repair for every repository reported locally absent, from
    /// the re-clone outcomes the caller observed, and merge the result
    /// into at most one restored and one removed entry.  An empty status
    /// means the configuration was already sane.
    pub fn nurse(&mut self, absent: Vec<String>, recover_ok: &Vec<bool>) -> (r: Result<
        CoffeeNurse,
        CoffeeError,
    >)
        requires
            old(self).wf(),
            absent@.len() == recover_ok@.len(),
        ensures
            final(self).wf(),
            r is Ok <==> spec_patch_ok(old(self).repos_v(), strings_view(absent@), recover_ok@),
            r is Err ==> r->Err_0.code == CODE_GENERIC,
            r is Ok ==> ({
                let names = strings_view(absent@);
                let restored = spec_flagged_names(names, recover_ok@, true);
                let removed = spec_flagged_names(names, recover_ok@, false);
                &&& final(self).repos_v() == spec_patch_repos(
                    old(self).repos_v(),
                    names,
                    recover_ok@,
                )
                &&& spec_restored_names(r.unwrap().status@) == restored
                &&& spec_removed_names(r.unwrap().status@) == removed
                &&& r.unwrap().status@.len() == (if restored.len() > 0 {
                    1 as int
                } else {
                    0 as int
                }) + (if removed.len() > 0 {
                    1 as int
                } else {
                    0 as int
                })
                &&& (forall|k: int|
                    0 <= k < names.len() && !recover_ok@[k] ==> spec_find_repo(
                        final(self).repos_v(),
                        #[trigger] names[k],
                    ) is None)
                &&& (forall|j: int|
                    0 <= j < final(self).repos_v().len() ==> old(self).repos_v().contains(
                        #[trigger] final(self).repos_v()[j],
                    ))
                &&& final(self).installed() == old(self).installed()
                &&& final(self).fragment() == old(self).fragment()
                &&& final(self).config@ == old(self).config@
            }),
    {
        let actions = self.patch_repository_locally_absent(absent, recover_ok)?;
        let mut nurse = CoffeeNurse { status: actions };
        nurse.organize();
        Ok(nurse)
    }
}

/// Law: the active recovery is a fixed point.  A nurse run leaves a
/// catalogue in which every repository's clone exists on disk: restored
/// repositories exist by the successful re-clone, the untouched ones
/// still exist when nothing changed externally, and the failed ones left
/// the catalogue.  A scan of such a catalogue reports no missing
/// repository, so a second run, with no external change in between,
/// finds the configuration already sane and does nothing.
pub proof fn lemma_nurse_fixed_point(repos: Seq<GithubView>, on_disk: Seq<bool>)
    requires
        repos.len() == on_disk.len(),
        forall|j: int| 0 <= j < on_disk.len() ==> on_disk[j],
    ensures
        spec_missing_names(repos, on_disk) == Seq::<Seq<char>>::empty(),
    decreases repos.len(),
{
    if repos.len() > 0 {
        lemma_nurse_fixed_point(repos.drop_last(), on_disk.drop_last());
        assert(spec_missing_names(repos, on_disk) =~= Seq::<Seq<char>>::empty());
    }
}

} // verus!
