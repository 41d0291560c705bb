//! Where the data of the user is kept.

use vstd::prelude::*;

verus! {

/// The directory of configurations, by the variable that leads to it.
#[derive(Clone, Copy, Debug, PartialEq, Eq, Structural)]
pub enum ConfigDir {
    /// The directory that `XDG_CONFIG_HOME` names.
    XdgConfigHome,
    /// A directory in that which `HOME` names.
    InHome,
    /// A directory in that which `USERPROFILE` names.
    InUserProfile,
}

impl ConfigDir {
    /// The directory below the one that the variable names.
    pub fn subdirectory(self) -> (name: Option<&'static str>)
        ensures
            match name {
                Some(name) => self != ConfigDir::XdgConfigHome && name@ == ".config"@,
                None => self == ConfigDir::XdgConfigHome,
            },
    {
        match self {
            ConfigDir::XdgConfigHome => None,
            ConfigDir::InHome | ConfigDir::InUserProfile => Some(".config"),
        }
    }
}

/// The variable that leads to the directory of configurations.
pub open spec fn leads_there(
    xdg_config_home: Option<bool>,
    home: Option<bool>,
    user_profile: Option<bool>,
) -> Option<ConfigDir> {
    if xdg_config_home == Some(true) {
        Some(ConfigDir::XdgConfigHome)
    } else if home == Some(true) {
        Some(ConfigDir::InHome)
    } else if user_profile == Some(true) {
        Some(ConfigDir::InUserProfile)
    } else {
        None
    }
}

/// A variable leads to the directory only where it is an absolute path, and only where none that
/// goes before it is one.
pub proof fn absolute_paths_lead_there_in_order(
    xdg_config_home: Option<bool>,
    home: Option<bool>,
    user_profile: Option<bool>,
)
    ensures
        ({
            let dir = leads_there(xdg_config_home, home, user_profile);
            &&& dir == Some(ConfigDir::XdgConfigHome) <==> xdg_config_home == Some(true)
            &&& dir == Some(ConfigDir::InHome) <==> xdg_config_home != Some(true) && home == Some(
                true,
            )
            &&& dir == Some(ConfigDir::InUserProfile) <==> xdg_config_home != Some(true) && home
                != Some(true) && user_profile == Some(true)
        }),
{
}

/// Which variable leads to the directory of configurations. Of each it is known whether it is set,
/// and whether its value is an absolute path: any other would move with the working directory.
pub fn config_dir_from_env(
    xdg_config_home: Option<bool>,
    home: Option<bool>,
    user_profile: Option<bool>,
) -> (dir: Option<ConfigDir>)
    ensures
        dir == leads_there(xdg_config_home, home, user_profile),
        dir == if xdg_config_home == Some(true) {
            Some(ConfigDir::XdgConfigHome)
        } else if home == Some(true) {
            Some(ConfigDir::InHome)
        } else if user_profile == Some(true) {
            Some(ConfigDir::InUserProfile)
        } else {
            None
        },
{
    match xdg_config_home {
        Some(true) => {
            return Some(ConfigDir::XdgConfigHome);
        },
        _ => {},
    }
    match home {
        Some(true) => {
            return Some(ConfigDir::InHome);
        },
        _ => {},
    }
    match user_profile {
        Some(true) => Some(ConfigDir::InUserProfile),
        _ => None,
    }
}

} // verus!
