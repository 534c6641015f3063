//! Manager configuration: the network it works for, where its state
//! lives, and the catalogue of installed plugins.
use vstd::prelude::*;

use crate::plugin::{clone_plugins, plugins_view, Plugin, PluginView};
use crate::text::{clone_opt_string, concat3, join_path, opt_string_view};

verus! {

/// Mathematical content of a [`CoffeeConf`].
#[verifier::ext_equal]
pub ghost struct CoffeeConfView {
    pub network: Seq<char>,
    pub root_path: Seq<char>,
    pub config_path: Seq<char>,
    pub cln_config_path: Option<Seq<char>>,
    pub cln_root: Option<Seq<char>>,
    pub plugins: Seq<PluginView>,
    pub skip_verify: bool,
}

/// Custom manager configuration, bound from command line arguments
/// or from a stored configuration.
#[derive(Debug, PartialEq, Eq)]
pub struct CoffeeConf {
    /// network of the node this configuration provisions
    pub network: String,
    /// root path of the plugin manager
    pub root_path: String,
    /// path of the configuration fragment managed by this crate
    pub config_path: String,
    /// path of the node configuration file that includes the fragment
    pub cln_config_path: Option<String>,
    /// root directory of the node
    pub cln_root: Option<String>,
    /// all plugins installed with the plugin manager
    pub plugins: Vec<Plugin>,
    /// whether the startup consistency scan is skipped
    pub skip_verify: bool,
}

impl View for CoffeeConf {
    type V = CoffeeConfView;

    open spec fn view(&self) -> CoffeeConfView {
        CoffeeConfView {
            network: self.network@,
            root_path: self.root_path@,
            config_path: self.config_path@,
            cln_config_path: opt_string_view(self.cln_config_path),
            cln_root: opt_string_view(self.cln_root),
            plugins: plugins_view(self.plugins@),
            skip_verify: self.skip_verify,
        }
    }
}

impl Clone for CoffeeConf {
    fn clone(&self) -> (r: Self)
        ensures
            r@ == self@,
    {
        let r = CoffeeConf {
            network: self.network.clone(),
            root_path: self.root_path.clone(),
            config_path: self.config_path.clone(),
            cln_config_path: clone_opt_string(&self.cln_config_path),
            cln_root: clone_opt_string(&self.cln_root),
            plugins: clone_plugins(&self.plugins),
            skip_verify: self.skip_verify,
        };
        proof {
            assert(r@ =~= self@);
        }
        r
    }
}

impl CoffeeConf {
    /// A fresh configuration rooted at `def_path`, for the default
    /// network, with nothing installed yet.
    pub fn new(def_path: &str) -> (r: Self)
        ensures
            r@.network == "bitcoin"@,
            r@.root_path == def_path@,
            r@.config_path == def_path@ + "/bitcoin/coffee.conf"@,
            r@.cln_config_path is None,
            r@.cln_root is None,
            r@.plugins == Seq::<PluginView>::empty(),
            !r@.skip_verify,
    {
        let r = CoffeeConf {
            network: "bitcoin".to_owned(),
            root_path: def_path.to_owned(),
            config_path: crate::text::concat_str(def_path, "/bitcoin/coffee.conf"),
            cln_config_path: None,
            cln_root: None,
            plugins: Vec::new(),
            skip_verify: false,
        };
        proof {
            assert(plugins_view(r.plugins@) =~= Seq::<PluginView>::empty());
        }
        r
    }

    /// Bind the command line arguments inside the configuration: an
    /// explicit network moves the fragment under that network's
    /// directory, an explicit configuration path wins over both, and
    /// verification is skipped when the user asked for it or when the
    /// command being run is the recovery command itself.
    pub fn bind_cmd_line_params(
        &mut self,
        network: &Option<String>,
        conf_path: &Option<String>,
        skip_verify: bool,
        command_is_nurse: bool,
    )
        ensures
            final(self)@.network == (match *network {
                Some(n) => n@,
                None => old(self)@.network,
            }),
            final(self)@.config_path == (match *conf_path {
                Some(c) => c@,
                None => match *network {
                    Some(n) => old(self)@.root_path + seq!['/'] + n@ + "/coffee.conf"@,
                    None => old(self)@.config_path,
                },
            }),
            final(self)@.skip_verify == (skip_verify || command_is_nurse),
            final(self)@.root_path == old(self)@.root_path,
            final(self)@.cln_config_path == old(self)@.cln_config_path,
            final(self)@.cln_root == old(self)@.cln_root,
            final(self)@.plugins == old(self)@.plugins,
    {
        if let Some(network) = network {
            self.network = network.clone();
            let netdir = join_path(self.root_path.as_str(), network.as_str());
            self.config_path = crate::text::concat_str(netdir.as_str(), "/coffee.conf");
        }
        if let Some(config) = conf_path {
            self.config_path = config.clone();
        }
        self.skip_verify = skip_verify || command_is_nurse;
    }

    /// Return the root path of the manager instance;
    /// this includes also the network path.
    pub fn path(&self) -> (r: String)
        ensures
            r@ == self@.root_path + seq!['/'] + self@.network,
    {
        join_path(self.root_path.as_str(), self.network.as_str())
    }
}

} // verus!
