use vstd::prelude::*;
use vstd::string::*;
use crate::error::{DriftersError, Result};
use crate::fileset::{join_path, join_paths};
use crate::host::{home_dir, host_name};
use crate::paths::{with_extension, with_extension_exec};

verus! {

/// This machine's settings.
#[derive(Debug, Clone)]
pub struct LocalConfig {
    pub machine_id: String,
    pub repo_url: String,
    /// Where the shared working copy is checked out; derived, never stored.
    pub repo_path: String,
    /// When to look for a newer release: `never`, `always` or `daily`.
    pub self_update_frequency: String,
    /// When that was last done, in seconds since the Unix epoch.
    pub last_update_check: Option<u64>,
}

/// The working copy's place under the home directory `home`.
pub open spec fn temp_repo_path_in(home: Seq<char>) -> Seq<char> {
    join_path(join_path(join_path(home, ".config"@), "drifters"@), "tmp-repo"@)
}

/// The settings file's place under the home directory `home`.
pub open spec fn config_file_path_in(home: Seq<char>) -> Seq<char> {
    join_path(join_path(join_path(home, ".config"@), "drifters"@), "config.toml"@)
}

/// The lock file of the working copy at `repo`: beside it, with the extension `lock`.
pub open spec fn lock_path_for(repo: Seq<char>) -> Seq<char> {
    with_extension(repo, "lock"@)
}

pub fn default_self_update_frequency() -> (r: String)
    ensures
        r@ == "always"@,
{
    String::from_str("always")
}

/// The working copy's place under the home directory `home`.
pub fn temp_repo_path_under(home: &str) -> (r: String)
    ensures
        r@ == temp_repo_path_in(home@),
{
    let a = join_paths(home, ".config");
    let b = join_paths(a.as_str(), "drifters");
    join_paths(b.as_str(), "tmp-repo")
}

/// The lock file that guards the working copy at `repo_path`.
pub fn lock_path_of(repo_path: &str) -> (r: String)
    ensures
        r@ == lock_path_for(repo_path@),
{
    with_extension_exec(repo_path, "lock")
}

/// The machine id to use for the host name `host`: the name itself, or `unknown`.
pub fn machine_id_from(host: Option<String>) -> (r: String)
    ensures
        r@ == match host {
            Some(h) => h@,
            None => "unknown"@,
        },
{
    match host {
        Some(h) => h,
        None => String::from_str("unknown"),
    }
}

fn no_home() -> (e: DriftersError)
    ensures
        e matches DriftersError::Config(_),
{
    DriftersError::config("Could not find home directory")
}

impl LocalConfig {
    /// Settings for a new machine: the update check on every run, never done yet.
    pub fn new(machine_id: String, repo_url: String) -> (r: Self)
        ensures
            r.machine_id@ == machine_id@,
            r.repo_url@ == repo_url@,
            r.self_update_frequency@ == "always"@,
            r.last_update_check is None,
            r.repo_path@.len() == 0 || exists|h: Seq<char>| r.repo_path@ == temp_repo_path_in(h),
    {
        let repo_path = match Self::get_temp_repo_path() {
            Ok(p) => p,
            Err(_) => String::new(),
        };
        LocalConfig {
            machine_id,
            repo_url,
            repo_path,
            self_update_frequency: default_self_update_frequency(),
            last_update_check: None,
        }
    }

    /// Where the settings file lives; an error when there is no home directory.
    pub fn config_file_path() -> (r: Result<String>)
        ensures
            match r {
                Ok(p) => exists|h: Seq<char>| p@ == config_file_path_in(h),
                Err(e) => e matches DriftersError::Config(_),
            },
    {
        match home_dir() {
            Some(h) => {
                let a = join_paths(h.as_str(), ".config");
                let b = join_paths(a.as_str(), "drifters");
                let p = join_paths(b.as_str(), "config.toml");
                assert(p@ == config_file_path_in(h@));
                Ok(p)
            },
            None => Err(no_home()),
        }
    }

    /// Where the working copy is checked out; an error when there is no home directory.
    pub fn get_temp_repo_path() -> (r: Result<String>)
        ensures
            match r {
                Ok(p) => exists|h: Seq<char>| p@ == temp_repo_path_in(h),
                Err(e) => e matches DriftersError::Config(_),
            },
    {
        match home_dir() {
            Some(h) => Ok(temp_repo_path_under(h.as_str())),
            None => Err(no_home()),
        }
    }

    /// This machine's host name, or `unknown`.
    pub fn detect_machine_id() -> (r: String) {
        machine_id_from(host_name())
    }
}

/// The lock file of the working copy; an error when there is no home directory.
pub fn lock_path() -> (r: Result<String>)
    ensures
        match r {
            Ok(p) => exists|h: Seq<char>| p@ == lock_path_for(temp_repo_path_in(h)),
            Err(e) => e matches DriftersError::Config(_),
        },
{
    let repo = LocalConfig::get_temp_repo_path()?;
    Ok(lock_path_of(repo.as_str()))
}

/// Where the repository is checked out during initialisation.
pub fn get_repo_path() -> (r: Result<String>)
    ensures
        match r {
            Ok(p) => exists|h: Seq<char>| p@ == temp_repo_path_in(h),
            Err(e) => e matches DriftersError::Config(_),
        },
{
    LocalConfig::get_temp_repo_path()
}

} // verus!
