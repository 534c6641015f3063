//! Plugin module that abstracts the concept of a node plugin
//! from a plugin manager point of view.
use vstd::prelude::*;

use crate::errors::{CoffeeError, CODE_GENERIC};
use crate::plugin_conf::{Conf, ConfView, Tipping};
use crate::text::{concat_str, join_path};

verus! {

/// Plugin language definition
#[derive(Debug, Clone, Copy, PartialEq, Eq, Structural)]
pub enum PluginLang {
    PyPip,
    PyPoetry,
    Go,
    Rust,
    Dart,
    JVM,
    JavaScript,
    TypeScript,
    Unknown,
}

/// The language a manifest's `lang` field names, when the string is in
/// the supported set.
pub open spec fn spec_lang_of(s: Seq<char>) -> Option<PluginLang> {
    if s == "pypip"@ {
        Some(PluginLang::PyPip)
    } else if s == "pypoetry"@ {
        Some(PluginLang::PyPoetry)
    } else if s == "go"@ {
        Some(PluginLang::Go)
    } else if s == "rs"@ || s == "rust"@ {
        Some(PluginLang::Rust)
    } else if s == "dart"@ {
        Some(PluginLang::Dart)
    } else if s == "js"@ {
        Some(PluginLang::JavaScript)
    } else if s == "ts"@ {
        Some(PluginLang::TypeScript)
    } else if s == "java"@ || s == "kotlin"@ || s == "scala"@ {
        Some(PluginLang::JVM)
    } else {
        None
    }
}

impl PluginLang {
    /// Resolve a manifest's `lang` field against the fixed table of
    /// supported languages; any other string is a hard error for the
    /// plugin that declared it.
    pub fn from_manifest_lang(s: &str) -> (r: Result<PluginLang, CoffeeError>)
        ensures
            r is Ok <==> spec_lang_of(s@) is Some,
            r is Ok ==> r.unwrap() == spec_lang_of(s@).unwrap(),
            r is Err ==> r->Err_0.code == CODE_GENERIC,
    {
        if crate::text::eq_str(s, "pypip") {
            Ok(PluginLang::PyPip)
        } else if crate::text::eq_str(s, "pypoetry") {
            Ok(PluginLang::PyPoetry)
        } else if crate::text::eq_str(s, "go") {
            Ok(PluginLang::Go)
        } else if crate::text::eq_str(s, "rs") || crate::text::eq_str(s, "rust") {
            Ok(PluginLang::Rust)
        } else if crate::text::eq_str(s, "dart") {
            Ok(PluginLang::Dart)
        } else if crate::text::eq_str(s, "js") {
            Ok(PluginLang::JavaScript)
        } else if crate::text::eq_str(s, "ts") {
            Ok(PluginLang::TypeScript)
        } else if crate::text::eq_str(s, "java") || crate::text::eq_str(s, "kotlin")
            || crate::text::eq_str(s, "scala") {
            Ok(PluginLang::JVM)
        } else {
            Err(CoffeeError::new(CODE_GENERIC, "language not supported"))
        }
    }

    /// What the default provisioning of this language runs and where the
    /// executable lands afterwards.  Languages without a safe default fail
    /// explicitly: the user has to supply a manifest.
    pub fn default_install(&self, path: &str, name: &str) -> (r: Result<
        InstallRecipe,
        CoffeeError,
    >)
        ensures
            r is Ok <==> (self is PyPip || self is PyPoetry),
            self is PyPip ==> r is Ok && r.unwrap().script@
                == "pip3 install -r requirements.txt --break-system-packages"@
                && r.unwrap().exec_path@ == path@ + seq!['/'] + name@ + ".py"@,
            self is PyPoetry ==> r is Ok && r.unwrap().script@
                == "pip3 install poetry\npoetry export -f requirements.txt --output requirements.txt\npip3 install -r requirements.txt"@
                && r.unwrap().exec_path@ == path@ + seq!['/'] + name@ + ".py"@,
            r is Err ==> r->Err_0.code == CODE_GENERIC,
    {
        match self {
            PluginLang::PyPip => {
                let main_file = concat_str(
                    join_path(path, name).as_str(),
                    ".py",
                );
                Ok(InstallRecipe {
                    script: "pip3 install -r requirements.txt --break-system-packages".to_owned(),
                    exec_path: main_file,
                })
            },
            PluginLang::PyPoetry => {
                let main_file = concat_str(
                    join_path(path, name).as_str(),
                    ".py",
                );
                Ok(InstallRecipe {
                    script:
                        "pip3 install poetry\npoetry export -f requirements.txt --output requirements.txt\npip3 install -r requirements.txt".to_owned(),
                    exec_path: main_file,
                })
            },
            PluginLang::Go => Err(
                CoffeeError::new(
                    CODE_GENERIC,
                    "golang is not supported as default language, please use the manifest",
                ),
            ),
            PluginLang::Rust => Err(
                CoffeeError::new(
                    CODE_GENERIC,
                    "rust is not supported as default language, please use the manifest",
                ),
            ),
            PluginLang::Dart => Err(
                CoffeeError::new(
                    CODE_GENERIC,
                    "dart is not supported as default language, please use the manifest",
                ),
            ),
            PluginLang::JavaScript => Err(
                CoffeeError::new(
                    CODE_GENERIC,
                    "js is not supported as default language, please use the manifest",
                ),
            ),
            PluginLang::TypeScript => Err(
                CoffeeError::new(
                    CODE_GENERIC,
                    "ts is not supported as default language, please use the manifest",
                ),
            ),
            PluginLang::JVM => Err(
                CoffeeError::new(
                    CODE_GENERIC,
                    "JVM is not supported as default language, please use the manifest",
                ),
            ),
            PluginLang::Unknown => Err(
                CoffeeError::new(
                    CODE_GENERIC,
                    "unknown default install procedure, the language is undefined",
                ),
            ),
        }
    }
}

/// What provisioning a plugin amounts to: a shell script to run inside the
/// plugin's root directory, and the path of the executable it leaves behind.
#[derive(Debug, PartialEq, Eq)]
pub struct InstallRecipe {
    pub script: String,
    pub exec_path: String,
}

/// Mathematical content of a [`Plugin`].
#[verifier::ext_equal]
pub ghost struct PluginView {
    pub name: Seq<char>,
    pub root_path: Seq<char>,
    pub exec_path: Seq<char>,
    pub lang: PluginLang,
    pub conf: Option<ConfView>,
    pub commit: Option<Seq<char>>,
    pub enabled: Option<bool>,
}

/// Whether a manifest flags this plugin as important.
pub open spec fn spec_important(p: PluginView) -> bool {
    match p.conf {
        Some(c) => match c.plugin.important {
            Some(b) => b,
            None => false,
        },
        None => false,
    }
}

/// The contents of a list of plugins, as their mathematical views.
pub open spec fn plugins_view(v: Seq<Plugin>) -> Seq<PluginView> {
    v.map_values(|p: Plugin| p@)
}

/// Clone a list of plugins, keeping its contents.
pub fn clone_plugins(v: &Vec<Plugin>) -> (r: Vec<Plugin>)
    ensures
        plugins_view(r@) == plugins_view(v@),
{
    let mut out: Vec<Plugin> = Vec::new();
    let mut i: usize = 0;
    while i < v.len()
        invariant
            0 <= i <= v.len(),
            plugins_view(out@) == plugins_view(v@.take(i as int)),
        decreases v.len() - i,
    {
        let ghost out0 = out@;
        out.push(v[i].clone());
        proof {
            assert(plugins_view(out@) =~= plugins_view(out0).push(v@[i as int]@));
            assert(plugins_view(v@.take(i + 1 as int)) =~= plugins_view(v@.take(i as int)).push(
                v@[i as int]@,
            ));
        }
        i = i + 1;
    }
    proof {
        assert(v@.take(v.len() as int) =~= v@);
    }
    out
}

/// Plugin struct definition
#[derive(Debug, PartialEq, Eq)]
pub struct Plugin {
    pub name: String,
    /// root path of the plugin
    pub root_path: String,
    /// path of the main file
    pub exec_path: String,
    pub lang: PluginLang,
    pub conf: Option<Conf>,
    pub commit: Option<String>,
    /// If the plugin is enabled or not
    pub enabled: Option<bool>,
}

impl View for Plugin {
    type V = PluginView;

    open spec fn view(&self) -> PluginView {
        PluginView {
            name: self.name@,
            root_path: self.root_path@,
            exec_path: self.exec_path@,
            lang: self.lang,
            conf: match self.conf {
                Some(c) => Some(c@),
                None => None,
            },
            commit: match self.commit {
                Some(c) => Some(c@),
                None => None,
            },
            enabled: self.enabled,
        }
    }
}

impl Clone for Plugin {
    fn clone(&self) -> (r: Self)
        ensures
            r@ == self@,
    {
        let r = Plugin {
            name: self.name.clone(),
            root_path: self.root_path.clone(),
            exec_path: self.exec_path.clone(),
            lang: self.lang,
            conf: match &self.conf {
                Some(c) => Some(c.clone()),
                None => None,
            },
            commit: match &self.commit {
                Some(c) => Some(c.clone()),
                None => None,
            },
            enabled: self.enabled,
        };
        proof {
            assert(r@ =~= self@);
        }
        r
    }
}

impl Plugin {
    /// create a new instance of the plugin.
    pub fn new(
        name: &str,
        root_path: &str,
        path: &str,
        plugin_lang: PluginLang,
        config: Option<Conf>,
        commit_id: Option<String>,
        enabled: Option<bool>,
    ) -> (r: Self)
        ensures
            r.name@ == name@,
            r.root_path@ == root_path@,
            r.exec_path@ == path@,
            r.lang == plugin_lang,
            r@.conf == (match config {
                Some(c) => Some(c@),
                None => None,
            }),
            r@.commit == (match commit_id {
                Some(c) => Some(c@),
                None => None,
            }),
            r.enabled == enabled,
    {
        Plugin {
            name: name.to_owned(),
            root_path: root_path.to_owned(),
            exec_path: path.to_owned(),
            lang: plugin_lang,
            conf: config,
            commit: commit_id,
            enabled,
        }
    }

    /// The unique name of the plugin.
    pub fn name(&self) -> (r: String)
        ensures
            r@ == self.name@,
    {
        self.name.clone()
    }

    /// Whether the manifest flags this plugin as important.
    pub fn important(&self) -> (r: bool)
        ensures
            r == spec_important(self@),
    {
        match &self.conf {
            Some(c) => match c.plugin.important {
                Some(b) => b,
                None => false,
            },
            None => false,
        }
    }

    /// The tipping information the manifest declares, if any.
    pub fn tipping_info(&self) -> (r: Option<Tipping>)
        ensures
            r is Some <==> (self@.conf is Some && self@.conf.unwrap().tipping is Some),
            r is Some ==> r.unwrap()@ == self@.conf.unwrap().tipping.unwrap(),
    {
        match &self.conf {
            Some(c) => match &c.tipping {
                Some(t) => Some(t.clone()),
                None => None,
            },
            None => None,
        }
    }

    /// Decide how this plugin is provisioned: a manifest-declared install
    /// script wins; otherwise the language's default provisioning applies
    /// and the executable path is recomputed under the current root.
    ///
    /// In case of success return the script to run inside `root_path` and
    /// the path of the executable.
    pub fn configure(&mut self) -> (r: Result<InstallRecipe, CoffeeError>)
        ensures
            (match old(self)@.conf {
                Some(c) => c.plugin.install is Some,
                None => false,
            }) ==> r is Ok && r.unwrap().script@ == old(self)@.conf.unwrap().plugin.install.unwrap()
                && r.unwrap().exec_path@ == old(self).exec_path@ && final(self)@ == old(self)@,
            !(match old(self)@.conf {
                Some(c) => c.plugin.install is Some,
                None => false,
            }) ==> {
                &&& (r is Ok <==> (old(self).lang is PyPip || old(self).lang is PyPoetry))
                &&& r is Ok ==> final(self)@ == PluginView {
                    exec_path: old(self)@.root_path + seq!['/'] + old(self)@.name + ".py"@,
                    ..old(self)@
                } && r.unwrap().exec_path@ == final(self).exec_path@
                &&& (old(self).lang is PyPip ==> r is Ok && r.unwrap().script@
                    == "pip3 install -r requirements.txt --break-system-packages"@)
                &&& (old(self).lang is PyPoetry ==> r is Ok && r.unwrap().script@
                    == "pip3 install poetry\npoetry export -f requirements.txt --output requirements.txt\npip3 install -r requirements.txt"@)
                &&& r is Err ==> final(self)@ == old(self)@ && r->Err_0.code == CODE_GENERIC
            },
    {
        let script: Option<String> = match &self.conf {
            Some(c) => match &c.plugin.install {
                Some(s) => Some(s.clone()),
                None => None,
            },
            None => None,
        };
        match script {
            Some(s) => {
                let exec = self.exec_path.clone();
                Ok(InstallRecipe { script: s, exec_path: exec })
            },
            None => {
                let recipe = self.lang.default_install(
                    self.root_path.as_str(),
                    self.name.as_str(),
                )?;
                self.exec_path = recipe.exec_path.clone();
                proof {
                    assert(final(self)@ =~= PluginView {
                        exec_path: old(self)@.root_path + seq!['/'] + old(self)@.name + ".py"@,
                        ..old(self)@
                    });
                }
                Ok(recipe)
            },
        }
    }
}

} // verus!
