//! Per-plugin manifest descriptor, as declared by a repository's
//! `coffee.yaml` file.  When present it fully overrides the default
//! language provisioning.
use vstd::prelude::*;

verus! {

/// Mathematical content of a [`Tipping`] record.
#[verifier::ext_equal]
pub ghost struct TippingView {
    pub bolt12: Seq<char>,
}

/// Offer that a plugin author publishes to receive donations.
#[derive(Debug, PartialEq, Eq)]
pub struct Tipping {
    pub bolt12: String,
}

impl View for Tipping {
    type V = TippingView;

    open spec fn view(&self) -> TippingView {
        TippingView { bolt12: self.bolt12@ }
    }
}

impl Clone for Tipping {
    fn clone(&self) -> (r: Self)
        ensures
            r@ == self@,
    {
        Tipping { bolt12: self.bolt12.clone() }
    }
}

/// Mathematical content of a manifest's `plugin` section.
#[verifier::ext_equal]
pub ghost struct ConfPluginView {
    pub name: Seq<char>,
    pub version: Seq<char>,
    pub lang: Seq<char>,
    pub deprecated: Option<()>,
    pub dependencies: Option<Seq<Seq<char>>>,
    pub install: Option<Seq<char>>,
    pub main: Seq<char>,
    pub important: Option<bool>,
}

/// The `plugin` section of a manifest.
#[derive(Debug, PartialEq, Eq)]
pub struct Plugin {
    pub name: String,
    pub version: String,
    pub lang: String,
    pub deprecated: Option<()>,
    pub dependencies: Option<Vec<String>>,
    pub install: Option<String>,
    pub main: String,
    pub important: Option<bool>,
}

/// The contents of a `Vec<String>` as a sequence of character sequences.
pub open spec fn strings_view(v: Seq<String>) -> Seq<Seq<char>> {
    v.map_values(|s: String| s@)
}

impl View for Plugin {
    type V = ConfPluginView;

    open spec fn view(&self) -> ConfPluginView {
        ConfPluginView {
            name: self.name@,
            version: self.version@,
            lang: self.lang@,
            deprecated: self.deprecated,
            dependencies: match self.dependencies {
                Some(d) => Some(strings_view(d@)),
                None => None,
            },
            install: match self.install {
                Some(i) => Some(i@),
                None => None,
            },
            main: self.main@,
            important: self.important,
        }
    }
}

impl Clone for Plugin {
    fn clone(&self) -> (r: Self)
        ensures
            r@ == self@,
    {
        let deps: Option<Vec<String>> = match &self.dependencies {
            Some(d) => {
                let c = d.clone();
                proof {
                    assert(c@ =~= d@);
                    assert(strings_view(c@) =~= strings_view(d@));
                }
                Some(c)
            },
            None => None,
        };
        let r = Plugin {
            name: self.name.clone(),
            version: self.version.clone(),
            lang: self.lang.clone(),
            deprecated: self.deprecated,
            dependencies: deps,
            install: crate::text::clone_opt_string(&self.install),
            main: self.main.clone(),
            important: self.important,
        };
        proof {
            assert(r@ =~= self@);
        }
        r
    }
}

/// Mathematical content of a whole manifest.
#[verifier::ext_equal]
pub ghost struct ConfView {
    pub plugin: ConfPluginView,
    pub tipping: Option<TippingView>,
}

/// A whole manifest: the `plugin` section and the optional tipping offer.
#[derive(Debug, PartialEq, Eq)]
pub struct Conf {
    pub plugin: Plugin,
    pub tipping: Option<Tipping>,
}

impl View for Conf {
    type V = ConfView;

    open spec fn view(&self) -> ConfView {
        ConfView {
            plugin: self.plugin@,
            tipping: match self.tipping {
                Some(t) => Some(t@),
                None => None,
            },
        }
    }
}

impl Clone for Conf {
    fn clone(&self) -> (r: Self)
        ensures
            r@ == self@,
    {
        let r = Conf {
            plugin: self.plugin.clone(),
            tipping: match &self.tipping {
                Some(t) => Some(t.clone()),
                None => None,
            },
        };
        proof {
            assert(r@ =~= self@);
        }
        r
    }
}

/// Reason a manifest gives for deprecating its plugin.
#[derive(Debug, PartialEq, Eq)]
pub struct Deprecaterd {
    pub reason: String,
}

} // verus!
