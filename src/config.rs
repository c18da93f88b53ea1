//! The run's configuration, its defaults, and the merge of a configuration
//! file with command-line values.

use vstd::prelude::*;
use vstd::string::*;
use crate::text::str_equal;

verus! {

/// Everything a run is told.
#[derive(Clone, Debug)]
pub struct Config {
    /// Root of the input tree.
    pub path_in: String,
    /// Root of the output tree.
    pub path_out: String,
    /// How deep below the input root the walk goes.
    pub max_depth: usize,
    /// Target widths, in the order they are made.
    pub target_sizes: Vec<u32>,
    /// Number of jobs that may run at once.
    pub threads: usize,
    /// Configuration file to read, where one is named.
    pub config_file: Option<String>,
}

/// A configuration as plain values.
pub struct ConfigView {
    pub path_in: Seq<char>,
    pub path_out: Seq<char>,
    pub max_depth: usize,
    pub target_sizes: Seq<u32>,
    pub threads: usize,
    pub config_file: Option<Seq<char>>,
}

impl View for Config {
    type V = ConfigView;

    open spec fn view(&self) -> ConfigView {
        ConfigView {
            path_in: self.path_in@,
            path_out: self.path_out@,
            max_depth: self.max_depth,
            target_sizes: self.target_sizes@,
            threads: self.threads,
            config_file: match self.config_file {
                Some(f) => Some(f@),
                None => None,
            },
        }
    }
}

/// The configuration that a run starts from.
pub open spec fn default_view() -> ConfigView {
    ConfigView {
        path_in: Seq::empty(),
        path_out: default_path_out(),
        max_depth: usize::MAX,
        target_sizes: seq![DEFAULT_WIDTH],
        threads: DEFAULT_THREADS,
        config_file: None,
    }
}

/// The output root used when none is given.
pub open spec fn default_path_out() -> Seq<char> {
    "./images/output"@
}

pub const DEFAULT_WIDTH: u32 = 2048;

pub const DEFAULT_THREADS: usize = 4;

impl Default for Config {
    fn default() -> (r: Config)
        ensures
            r.path_in@.len() == 0,
            r.path_out@ == default_path_out(),
            r.max_depth == usize::MAX,
            r.target_sizes@ == seq![DEFAULT_WIDTH],
            r.threads == DEFAULT_THREADS,
            r.config_file is None,
            r@ == default_view(),
    {
        proof {
            reveal_strlit("");
        }
        let r = Config {
            path_in: String::new(),
            path_out: String::from_str("./images/output"),
            max_depth: usize::MAX,
            target_sizes: vec![DEFAULT_WIDTH],
            threads: DEFAULT_THREADS,
            config_file: None,
        };
        assert(r.path_in@ =~= Seq::<char>::empty());
        assert(r.target_sizes@ =~= seq![DEFAULT_WIDTH]);
        r
    }
}

/// A command-line output root counts as given where it is neither empty nor the default.
pub open spec fn path_out_given(p: Seq<char>) -> bool {
    p.len() > 0 && p != default_path_out()
}

/// Merges a configuration read from a file with one from the command line: a
/// command-line field wins where it differs from its default, the file's field
/// otherwise. The configuration file named on the command line is kept.
pub fn merge_configs(file_config: Config, cli_config: Config) -> (r: Config)
    ensures
        r.path_in == if cli_config.path_in@.len() > 0 { cli_config.path_in } else { file_config.path_in },
        r.path_out == if path_out_given(cli_config.path_out@) { cli_config.path_out } else { file_config.path_out },
        r.max_depth == if cli_config.max_depth != usize::MAX { cli_config.max_depth } else { file_config.max_depth },
        r.target_sizes@ == if cli_config.target_sizes@ != seq![DEFAULT_WIDTH] {
            cli_config.target_sizes@
        } else {
            file_config.target_sizes@
        },
        r.threads == if cli_config.threads != DEFAULT_THREADS { cli_config.threads } else { file_config.threads },
        r.config_file == cli_config.config_file,
{
    proof {
        reveal_strlit("");
    }
    let in_given = cli_config.path_in.unicode_len() > 0;
    let out_given = cli_config.path_out.unicode_len() > 0
        && !str_equal(cli_config.path_out.as_str(), "./images/output");
    let depth_given = cli_config.max_depth != usize::MAX;
    let sizes_given = !(cli_config.target_sizes.len() == 1 && cli_config.target_sizes[0] == DEFAULT_WIDTH);
    proof {
        if !sizes_given {
            assert(cli_config.target_sizes@ =~= seq![DEFAULT_WIDTH]);
        }
    }
    let threads_given = cli_config.threads != DEFAULT_THREADS;
    let Config {
        path_in: cli_in,
        path_out: cli_out,
        max_depth: cli_depth,
        target_sizes: cli_sizes,
        threads: cli_threads,
        config_file: cli_file,
    } = cli_config;
    let Config {
        path_in: file_in,
        path_out: file_out,
        max_depth: file_depth,
        target_sizes: file_sizes,
        threads: file_threads,
        config_file: _,
    } = file_config;
    Config {
        path_in: if in_given { cli_in } else { file_in },
        path_out: if out_given { cli_out } else { file_out },
        max_depth: if depth_given { cli_depth } else { file_depth },
        target_sizes: if sizes_given { cli_sizes } else { file_sizes },
        threads: if threads_given { cli_threads } else { file_threads },
        config_file: cli_file,
    }
}

} // verus!
