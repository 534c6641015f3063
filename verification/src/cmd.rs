//! The operations a front end can ask of the manager, and the plain
//! shape of the command line that names them.
use vstd::prelude::*;

verus! {

/// One operation of the manager, as a front end requests it.
#[derive(Debug, PartialEq, Eq)]
pub enum CoffeeOperation {
    /// Link the manager to the node configuration file (directory)
    Link(String),
    /// Unlink the manager from the node configuration file
    Unlink(String),
    /// Install(plugin name, verbose run, dynamic installation)
    Install(String, bool, bool),
    /// List the installed plugins
    List,
    /// Upgrade(name of the repository, verbose run)
    Upgrade(String, bool),
    /// Remove an installed plugin
    Remove(String),
    /// Remote(action, name of the repository)
    Remote(Option<RemoteAction>, Option<String>),
    /// Show the README of a plugin
    Show(String),
    /// Search(plugin name)
    Search(String),
    /// Run the recovery, or only verify when the flag is set
    Nurse(bool),
    /// Tip(plugin name, amount in millisatoshi)
    Tip(String, u64),
    /// Disable a plugin
    Disable(String),
    /// Enable a plugin
    Enable(String),
}

/// One action on the set of tracked remote repositories.
#[derive(Debug, PartialEq, Eq)]
pub enum RemoteAction {
    Add(String, String),
    Rm(String),
    Inspect(String),
    List,
}

/// The subcommands of the command line front end, in plain shape.
#[derive(Debug, PartialEq, Eq)]
pub enum CoffeeCommand {
    /// Configure the manager with the node configuration
    Link { cln_conf: String },
    /// Install a single plugin by name
    Install { plugin: String, verbose: bool, dynamic: bool },
    /// Upgrade a single repository
    Upgrade { repo: String, verbose: bool },
    /// Print the list of plugins installed
    List,
    /// Remove an installed plugin
    Remove { plugin: String },
    /// Manage the tracked repositories
    Remote { action: Option<RemoteAction>, name: Option<String> },
    /// Show the README file of the plugin
    Show { plugin: String },
    /// Search the tracked repositories for a plugin
    Search { plugin: String },
    /// Clean up the storage information about the tracked repositories
    Nurse { verify: bool },
    /// Tip a plugin developer
    Tip { plugin: String, amount_msat: u64 },
    /// Disable a plugin
    Disable { plugin: String },
    /// Enable a plugin
    Enable { plugin: String },
}

impl RemoteAction {
    /// The remote action a command line subcommand names.
    pub fn from_action(value: &RemoteAction) -> (r: RemoteAction)
        ensures
            (value matches RemoteAction::Add(n, u) ==> (r matches RemoteAction::Add(n2, u2)
                && n2@ == n@ && u2@ == u@)),
            (value matches RemoteAction::Rm(n) ==> (r matches RemoteAction::Rm(n2) && n2@ == n@)),
            (value matches RemoteAction::Inspect(n) ==> (r matches RemoteAction::Inspect(n2)
                && n2@ == n@)),
            (value matches RemoteAction::List ==> r matches RemoteAction::List),
    {
        match value {
            RemoteAction::Add(name, url) => RemoteAction::Add(name.clone(), url.clone()),
            RemoteAction::Rm(name) => RemoteAction::Rm(name.clone()),
            RemoteAction::Inspect(name) => RemoteAction::Inspect(name.clone()),
            RemoteAction::List => RemoteAction::List,
        }
    }
}

impl CoffeeOperation {
    /// The operation a command line subcommand names.
    pub fn from_command(value: &CoffeeCommand) -> (r: CoffeeOperation)
        ensures
            (value matches CoffeeCommand::Link { cln_conf } ==> (r matches CoffeeOperation::Link(c)
                && c@ == cln_conf@)),
            (value matches CoffeeCommand::Install { plugin, verbose, dynamic } ==> (r matches
                CoffeeOperation::Install(p, v, d) && p@ == plugin@ && v == verbose
                && d == dynamic)),
            (value matches CoffeeCommand::Upgrade { repo, verbose } ==> (r matches
                CoffeeOperation::Upgrade(x, v) && x@ == repo@ && v == verbose)),
            (value matches CoffeeCommand::List ==> r matches CoffeeOperation::List),
            (value matches CoffeeCommand::Remove { plugin } ==> (r matches
                CoffeeOperation::Remove(p) && p@ == plugin@)),
            (value matches CoffeeCommand::Remote { action: a, name: n } ==> (r matches
                CoffeeOperation::Remote(a2, n2) && (a is Some <==> a2 is Some) && (match n {
                Some(s) => n2 is Some && n2.unwrap()@ == s@,
                None => n2 is None,
            }))),
            (value matches CoffeeCommand::Show { plugin } ==> (r matches CoffeeOperation::Show(p)
                && p@ == plugin@)),
            (value matches CoffeeCommand::Search { plugin } ==> (r matches
                CoffeeOperation::Search(p) && p@ == plugin@)),
            (value matches CoffeeCommand::Nurse { verify } ==> (r matches
                CoffeeOperation::Nurse(v) && v == verify)),
            (value matches CoffeeCommand::Tip { plugin, amount_msat } ==> (r matches
                CoffeeOperation::Tip(p, a) && p@ == plugin@ && a == amount_msat)),
            (value matches CoffeeCommand::Disable { plugin } ==> (r matches
                CoffeeOperation::Disable(p) && p@ == plugin@)),
            (value matches CoffeeCommand::Enable { plugin } ==> (r matches
                CoffeeOperation::Enable(p) && p@ == plugin@)),
    {
        match value {
            CoffeeCommand::Link { cln_conf } => CoffeeOperation::Link(cln_conf.clone()),
            CoffeeCommand::Install { plugin, verbose, dynamic } => CoffeeOperation::Install(
                plugin.clone(),
                *verbose,
                *dynamic,
            ),
            CoffeeCommand::Upgrade { repo, verbose } => CoffeeOperation::Upgrade(
                repo.clone(),
                *verbose,
            ),
            CoffeeCommand::List => CoffeeOperation::List,
            CoffeeCommand::Remove { plugin } => CoffeeOperation::Remove(plugin.clone()),
            CoffeeCommand::Remote { action, name } => {
                let named = match name {
                    Some(n) => Some(n.clone()),
                    None => None,
                };
                match action {
                    Some(a) => CoffeeOperation::Remote(Some(RemoteAction::from_action(a)), named),
                    None => CoffeeOperation::Remote(None, named),
                }
            },
            CoffeeCommand::Show { plugin } => CoffeeOperation::Show(plugin.clone()),
            CoffeeCommand::Search { plugin } => CoffeeOperation::Search(plugin.clone()),
            CoffeeCommand::Nurse { verify } => CoffeeOperation::Nurse(*verify),
            CoffeeCommand::Tip { plugin, amount_msat } => CoffeeOperation::Tip(
                plugin.clone(),
                *amount_msat,
            ),
            CoffeeCommand::Disable { plugin } => CoffeeOperation::Disable(plugin.clone()),
            CoffeeCommand::Enable { plugin } => CoffeeOperation::Enable(plugin.clone()),
        }
    }
}

/// What every front end hands the manager to configure itself.
pub trait CoffeeArgs {
    /// return the command that the manager has to execute
    fn command(&self) -> CoffeeOperation;

    /// return the configuration path, when one was given
    fn conf(&self) -> Option<String>;

    /// return the network, when one was given
    fn network(&self) -> Option<String>;

    /// return the data directory, when one was given
    fn data_dir(&self) -> Option<String>;

    /// return the skip verify flag
    fn skip_verify(&self) -> bool;
}

} // verus!
