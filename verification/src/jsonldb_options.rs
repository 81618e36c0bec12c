//! The options as the host gives them: every one of them may be missing.

use vstd::prelude::*;
use vstd::std_specs::convert::FromSpecImpl;
use crate::db_options::{AutoCompressOptions, DBOptions, DBOptionsView, ThrottleFSOptions};

verus! {

/// The options of a store, each given or not.
#[derive(Debug)]
pub struct JsonlDBOptions {
    pub ignore_read_errors: Option<bool>,
    pub throttle_fs: Option<JsonlDBOptionsThrottleFS>,
    pub auto_compress: Option<JsonlDBOptionsAutoCompress>,
    pub lockfile_directory: Option<String>,
    pub index_paths: Option<Vec<String>>,
}

/// The throttling options as the host gives them.
#[derive(Debug, Clone, Copy)]
pub struct JsonlDBOptionsThrottleFS {
    pub interval_ms: u32,
    pub max_buffered_commands: Option<u32>,
}

/// The compaction options as the host gives them.
#[derive(Debug, Clone, Copy)]
pub struct JsonlDBOptionsAutoCompress {
    pub size_factor: Option<u32>,
    pub size_factor_minimum_size: Option<u32>,
    pub interval_ms: Option<u32>,
    pub interval_min_changes: Option<u32>,
    pub on_close: Option<bool>,
    pub on_open: Option<bool>,
}

/// A given value, or the default where none is given.
pub open spec fn given<T>(value: Option<T>, default: T) -> T {
    match value {
        Some(v) => v,
        None => default,
    }
}

impl JsonlDBOptionsAutoCompress {
    /// The compaction options that these stand for: what is given, and the
    /// defaults for the rest.
    pub open spec fn resolved(self) -> AutoCompressOptions {
        let defaults = AutoCompressOptions::default_options();
        AutoCompressOptions {
            size_factor: given(self.size_factor, defaults.size_factor),
            size_factor_min_size: given(self.size_factor_minimum_size, defaults.size_factor_min_size),
            interval_ms: given(self.interval_ms, defaults.interval_ms),
            interval_min_changes: given(self.interval_min_changes, defaults.interval_min_changes),
            on_close: given(self.on_close, defaults.on_close),
            on_open: given(self.on_open, defaults.on_open),
        }
    }

    /// Fills in the defaults.
    pub fn resolve(&self) -> (r: AutoCompressOptions)
        ensures
            r == self.resolved(),
    {
        let mut r = AutoCompressOptions::default();
        if let Some(size_factor) = self.size_factor {
            r.size_factor = size_factor;
        }
        if let Some(size_factor_min_size) = self.size_factor_minimum_size {
            r.size_factor_min_size = size_factor_min_size;
        }
        if let Some(interval_ms) = self.interval_ms {
            r.interval_ms = interval_ms;
        }
        if let Some(interval_min_changes) = self.interval_min_changes {
            r.interval_min_changes = interval_min_changes;
        }
        if let Some(on_close) = self.on_close {
            r.on_close = on_close;
        }
        if let Some(on_open) = self.on_open {
            r.on_open = on_open;
        }
        r
    }
}

impl JsonlDBOptionsThrottleFS {
    /// The throttling options that these stand for.
    pub open spec fn resolved(self) -> ThrottleFSOptions {
        ThrottleFSOptions {
            interval_ms: self.interval_ms,
            max_buffered_commands: match self.max_buffered_commands {
                Some(n) => n as usize,
                None => ThrottleFSOptions::default_options().max_buffered_commands,
            },
        }
    }

    /// Fills in the defaults.
    pub fn resolve(&self) -> (r: ThrottleFSOptions)
        ensures
            r == self.resolved(),
    {
        let mut r = ThrottleFSOptions::default();
        r.interval_ms = self.interval_ms;
        if let Some(max_buf) = self.max_buffered_commands {
            r.max_buffered_commands = max_buf as usize;
        }
        r
    }
}

impl JsonlDBOptions {
    /// The options that these stand for: what is given, and the defaults for
    /// the rest.
    pub open spec fn resolved(self) -> DBOptionsView {
        DBOptionsView {
            ignore_read_errors: given(self.ignore_read_errors, false),
            auto_compress: match self.auto_compress {
                Some(o) => o.resolved(),
                None => AutoCompressOptions::default_options(),
            },
            throttle_fs: match self.throttle_fs {
                Some(o) => o.resolved(),
                None => ThrottleFSOptions::default_options(),
            },
            lockfile_directory: match self.lockfile_directory {
                Some(dir) => dir@,
                None => seq!['.'],
            },
            index_paths: match self.index_paths {
                Some(paths) => paths.deep_view(),
                None => Seq::empty(),
            },
        }
    }
}

impl Default for JsonlDBOptions {
    fn default() -> (r: Self)
        ensures
            r.ignore_read_errors is None,
            r.throttle_fs is None,
            r.auto_compress is None,
            r.lockfile_directory is None,
            r.index_paths is None,
    {
        JsonlDBOptions {
            ignore_read_errors: None,
            throttle_fs: None,
            auto_compress: None,
            lockfile_directory: None,
            index_paths: None,
        }
    }
}

impl From<JsonlDBOptions> for DBOptions {
    fn from(v: JsonlDBOptions) -> (ret: Self)
        ensures
            ret@ == v.resolved(),
    {
        let mut ret = DBOptions::default();
        if let Some(ignore_read_errors) = v.ignore_read_errors {
            ret.ignore_read_errors = ignore_read_errors;
        }
        if let Some(opts) = v.auto_compress {
            ret.auto_compress = opts.resolve();
        }
        if let Some(opts) = v.throttle_fs {
            ret.throttle_fs = opts.resolve();
        }
        if let Some(lockfile_directory) = v.lockfile_directory {
            ret.lockfile_directory = lockfile_directory;
        }
        if let Some(index_paths) = v.index_paths {
            ret.index_paths = index_paths;
        }
        assert(ret@.index_paths =~= v.resolved().index_paths);
        ret
    }
}

impl FromSpecImpl<JsonlDBOptions> for DBOptions {
    open spec fn obeys_from_spec() -> bool {
        false
    }

    open spec fn from_spec(v: JsonlDBOptions) -> Self {
        arbitrary()
    }
}

impl From<Option<JsonlDBOptions>> for DBOptions {
    fn from(v: Option<JsonlDBOptions>) -> (ret: Self)
        ensures
            ret@ == (match v {
                Some(o) => o.resolved(),
                None => DBOptions::default_view(),
            }),
    {
        match v {
            Some(o) => DBOptions::from(o),
            None => DBOptions::default(),
        }
    }
}

impl FromSpecImpl<Option<JsonlDBOptions>> for DBOptions {
    open spec fn obeys_from_spec() -> bool {
        false
    }

    open spec fn from_spec(v: Option<JsonlDBOptions>) -> Self {
        arbitrary()
    }
}

} // verus!
