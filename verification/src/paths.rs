//! The well-known locations the surrounding tool works with, derived
//! from the user's home directory: the configuration directory
//! `~/.config/ambit`, the configuration file, the dotfile repository
//! and its git directory. Paths are held as plain strings; all
//! filesystem work on them belongs to the caller.

use vstd::prelude::*;

use vstd::string::StringExecFns;

verus! {

/// The derived locations, each a fixed suffix under the home
/// directory.
pub struct AmbitPaths {
    home_dir: String,
    configuration_dir: String,
    config_file: String,
    repo_dir: String,
    git_dir: String,
}

/// Relies on dirs::home_dir: the platform's home directory, if the
/// platform reports one. The result depends on the environment, so
/// nothing is promised of it.
#[verifier::external_body]
fn home_dir_string() -> Option<String> {
    dirs::home_dir().and_then(|p| p.to_str().map(|s| s.to_owned()))
}

impl AmbitPaths {
    /// The home directory these paths were derived from.
    pub closed spec fn home_view(&self) -> Seq<char> {
        self.home_dir@
    }

    pub closed spec fn wf(&self) -> bool {
        &&& self.configuration_dir@ == self.home_dir@ + "/.config/ambit"@
        &&& self.config_file@ == self.home_dir@ + "/.config/ambit"@ + "/config"@
        &&& self.repo_dir@ == self.home_dir@ + "/.config/ambit"@ + "/repo"@
        &&& self.git_dir@ == self.home_dir@ + "/.config/ambit"@ + "/repo"@ + "/.git"@
    }

    /// The locations derived from the given home directory.
    pub fn from_home(home: String) -> (r: AmbitPaths)
        ensures
            r.wf(),
            r.home_view() == home@,
    {
        let configuration_dir = home.clone().concat("/.config/ambit");
        let config_file = configuration_dir.clone().concat("/config");
        let repo_dir = configuration_dir.clone().concat("/repo");
        let git_dir = repo_dir.clone().concat("/.git");
        AmbitPaths { home_dir: home, configuration_dir, config_file, repo_dir, git_dir }
    }

    /// The locations under the home directory the environment reports,
    /// or `None` where it reports none.
    pub fn new() -> (r: Option<AmbitPaths>)
        ensures
            r matches Some(p) ==> p.wf(),
    {
        match home_dir_string() {
            Some(home) => Some(AmbitPaths::from_home(home)),
            None => None,
        }
    }

    pub fn home_dir(&self) -> (r: &str)
        ensures
            r@ == self.home_view(),
    {
        self.home_dir.as_str()
    }

    pub fn configuration_dir(&self) -> (r: &str)
        requires
            self.wf(),
        ensures
            r@ == self.home_view() + "/.config/ambit"@,
    {
        self.configuration_dir.as_str()
    }

    pub fn config_file(&self) -> (r: &str)
        requires
            self.wf(),
        ensures
            r@ == self.home_view() + "/.config/ambit"@ + "/config"@,
    {
        self.config_file.as_str()
    }

    pub fn repo_dir(&self) -> (r: &str)
        requires
            self.wf(),
        ensures
            r@ == self.home_view() + "/.config/ambit"@ + "/repo"@,
    {
        self.repo_dir.as_str()
    }

    pub fn repo_dir_str(&self) -> (r: &str)
        requires
            self.wf(),
        ensures
            r@ == self.home_view() + "/.config/ambit"@ + "/repo"@,
    {
        self.repo_dir.as_str()
    }

    pub fn git_dir(&self) -> (r: &str)
        requires
            self.wf(),
        ensures
            r@ == self.home_view() + "/.config/ambit"@ + "/repo"@ + "/.git"@,
    {
        self.git_dir.as_str()
    }

    pub fn git_dir_str(&self) -> (r: &str)
        requires
            self.wf(),
        ensures
            r@ == self.home_view() + "/.config/ambit"@ + "/repo"@ + "/.git"@,
    {
        self.git_dir.as_str()
    }
}

} // verus!
