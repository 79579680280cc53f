//! The tool's configuration: defaults, the documents directory, and the settings read from
//! `.oxd/config.toml`.

use crate::paths::{join, path_join};
use vstd::prelude::*;

verus! {

/// Where the documents and their bookkeeping live, and how removals and git are handled.
#[derive(Debug, Clone)]
pub struct Config {
    pub project_root: String,
    pub docs_directory: String,
    pub state_file: String,
    pub dustbin_directory: String,
    pub preserve_dustbin_structure: bool,
    pub auto_stage_git: bool,
}

/// The settings a configuration file may give; absent ones keep their value.
#[derive(Debug, Clone)]
pub struct PartialConfig {
    pub project_root: Option<String>,
    pub dustbin_directory: Option<String>,
    pub preserve_dustbin_structure: Option<bool>,
    pub auto_stage_git: Option<bool>,
}

pub struct ConfigV {
    pub project_root: Seq<char>,
    pub docs_directory: Seq<char>,
    pub state_file: Seq<char>,
    pub dustbin_directory: Seq<char>,
    pub preserve_dustbin_structure: bool,
    pub auto_stage_git: bool,
}

impl View for Config {
    type V = ConfigV;

    open spec fn view(&self) -> ConfigV {
        ConfigV {
            project_root: self.project_root@,
            docs_directory: self.docs_directory@,
            state_file: self.state_file@,
            dustbin_directory: self.dustbin_directory@,
            preserve_dustbin_structure: self.preserve_dustbin_structure,
            auto_stage_git: self.auto_stage_git,
        }
    }
}

pub open spec fn opt_text(o: Option<String>) -> Option<Seq<char>> {
    match o {
        Some(s) => Some(s@),
        None => None,
    }
}

/// The defaults: the project in the working directory, the documents under `design/docs`.
pub open spec fn default_config() -> ConfigV {
    ConfigV {
        project_root: "."@,
        docs_directory: "./design/docs"@,
        state_file: "./design/docs/.oxd/state.json"@,
        dustbin_directory: "./design/docs/.dustbin"@,
        preserve_dustbin_structure: true,
        auto_stage_git: true,
    }
}

/// `c` with each setting that `p` gives replaced by it; the documents directory and the
/// state file stay.
pub open spec fn merged(c: ConfigV, p: PartialConfig) -> ConfigV {
    ConfigV {
        project_root: match p.project_root {
            Some(v) => v@,
            None => c.project_root,
        },
        docs_directory: c.docs_directory,
        state_file: c.state_file,
        dustbin_directory: match p.dustbin_directory {
            Some(v) => v@,
            None => c.dustbin_directory,
        },
        preserve_dustbin_structure: match p.preserve_dustbin_structure {
            Some(v) => v,
            None => c.preserve_dustbin_structure,
        },
        auto_stage_git: match p.auto_stage_git {
            Some(v) => v,
            None => c.auto_stage_git,
        },
    }
}

/// The defaults, moved to the documents directory `d` when one is given: the state file and
/// the dustbin follow it.
pub open spec fn base_config(docs_dir: Option<Seq<char>>) -> ConfigV {
    match docs_dir {
        None => default_config(),
        Some(d) => ConfigV {
            docs_directory: d,
            state_file: path_join(d, ".oxd/state.json"@),
            dustbin_directory: path_join(d, ".dustbin"@),
            ..default_config()
        },
    }
}

impl Default for Config {
    fn default() -> (c: Self)
        ensures
            c@ == default_config(),
    {
        Config {
            project_root: ".".to_string(),
            docs_directory: "./design/docs".to_string(),
            state_file: "./design/docs/.oxd/state.json".to_string(),
            dustbin_directory: "./design/docs/.dustbin".to_string(),
            preserve_dustbin_structure: true,
            auto_stage_git: true,
        }
    }
}

impl Config {
    /// The configuration for a documents directory (the default one when `docs_dir` is
    /// `None`), with the settings of its configuration file on top. `file_config` is what
    /// reading that file gave: no file, its settings, or the message of a failure to read
    /// or parse it, which the load then fails with.
    pub fn load(docs_dir: Option<&str>, file_config: Result<Option<PartialConfig>, String>) -> (r:
        Result<Config, String>)
        ensures
            match file_config {
                Err(m) => r matches Err(e) && e@ == m@,
                Ok(Some(p)) => r matches Ok(c) && c@ == merged(base_config(opt_str(docs_dir)), p),
                Ok(None) => r matches Ok(c) && c@ == base_config(opt_str(docs_dir)),
            },
    {
        let file_config = match file_config {
            Ok(f) => f,
            Err(m) => {
                return Err(m);
            },
        };
        let mut config = Config::default();
        match docs_dir {
            Some(dir) => {
                config.docs_directory = dir.to_string();
                config.state_file = join(dir, ".oxd/state.json");
                config.dustbin_directory = join(dir, ".dustbin");
            },
            None => {},
        }
        match file_config {
            Some(p) => config.merge(p),
            None => {},
        }
        Ok(config)
    }

    /// Takes each setting that `other` gives.
    pub fn merge(&mut self, other: PartialConfig)
        ensures
            final(self)@ == merged(old(self)@, other),
    {
        let PartialConfig { project_root, dustbin_directory, preserve_dustbin_structure, auto_stage_git } = other;
        match project_root {
            Some(v) => {
                self.project_root = v;
            },
            None => {},
        }
        match dustbin_directory {
            Some(v) => {
                self.dustbin_directory = v;
            },
            None => {},
        }
        match preserve_dustbin_structure {
            Some(v) => {
                self.preserve_dustbin_structure = v;
            },
            None => {},
        }
        match auto_stage_git {
            Some(v) => {
                self.auto_stage_git = v;
            },
            None => {},
        }
    }

    /// Where removed documents of the state directory `state_dir` go: a subdirectory of the
    /// dustbin when its structure is preserved, the dustbin itself otherwise.
    pub fn dustbin_dir_for_state(&self, state_dir: &str) -> (r: String)
        ensures
            r@ == if self.preserve_dustbin_structure {
                path_join(self.dustbin_directory@, state_dir@)
            } else {
                self.dustbin_directory@
            },
    {
        if self.preserve_dustbin_structure {
            join(self.dustbin_directory.as_str(), state_dir)
        } else {
            self.dustbin_directory.clone()
        }
    }
}

pub open spec fn opt_str(o: Option<&str>) -> Option<Seq<char>> {
    match o {
        Some(s) => Some(s@),
        None => None,
    }
}

} // verus!
