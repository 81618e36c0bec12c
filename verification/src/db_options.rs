//! Options that govern parsing, automatic compaction and write throttling.

use vstd::prelude::*;
use vstd::string::StringExecFns;

verus! {

/// When the persistence loop compacts the log on its own.
#[derive(Debug, Clone, Copy)]
pub struct AutoCompressOptions {
    /// Compact once the log holds at least this many times the records that
    /// the map has entries. `0` switches the trigger off.
    pub size_factor: u32,
    /// The size trigger stays quiet while the log holds fewer records than this.
    pub size_factor_min_size: u32,
    /// Compact when this many milliseconds have passed since the last
    /// compaction. `0` switches the trigger off.
    pub interval_ms: u32,
    /// The time trigger stays quiet until this many records were written
    /// since the last compaction.
    pub interval_min_changes: u32,
    /// Compact before the store closes.
    pub on_close: bool,
    /// Compact right after the store was opened.
    pub on_open: bool,
}

impl AutoCompressOptions {
    /// The defaults: both triggers off, no compaction on open or close.
    pub open spec fn default_options() -> AutoCompressOptions {
        AutoCompressOptions {
            size_factor: 0,
            size_factor_min_size: 0,
            interval_ms: 0,
            interval_min_changes: 1,
            on_close: false,
            on_open: false,
        }
    }
}

impl Default for AutoCompressOptions {
    fn default() -> (r: Self)
        ensures
            r == AutoCompressOptions::default_options(),
    {
        AutoCompressOptions {
            size_factor: 0,
            size_factor_min_size: 0,
            interval_ms: 0,
            interval_min_changes: 1,
            on_close: false,
            on_open: false,
        }
    }
}

/// How often the pending writes reach the file.
#[derive(Debug, Clone, Copy)]
pub struct ThrottleFSOptions {
    /// At least this many milliseconds lie between two writes. `0` means that
    /// every wake of the loop writes what is pending.
    pub interval_ms: u32,
    /// A journal longer than this is written at once, whatever the timer says.
    pub max_buffered_commands: usize,
}

impl ThrottleFSOptions {
    /// The defaults: no time gating, and no bound on the journal.
    pub open spec fn default_options() -> ThrottleFSOptions {
        ThrottleFSOptions { interval_ms: 0, max_buffered_commands: usize::MAX }
    }
}

impl Default for ThrottleFSOptions {
    fn default() -> (r: Self)
        ensures
            r == ThrottleFSOptions::default_options(),
    {
        ThrottleFSOptions { interval_ms: 0, max_buffered_commands: usize::MAX }
    }
}

/// The options of a store.
#[derive(Debug)]
pub struct DBOptions {
    /// Skip the lines of the log that are no records, in place of failing.
    pub ignore_read_errors: bool,
    pub auto_compress: AutoCompressOptions,
    pub throttle_fs: ThrottleFSOptions,
    /// Where the lock directory is made; `"."` stands for the directory of
    /// the log.
    pub lockfile_directory: String,
    /// The JSON pointers that the index follows.
    pub index_paths: Vec<String>,
}

impl DBOptions {
    /// The options as contracts see them.
    pub open spec fn view(&self) -> DBOptionsView {
        DBOptionsView {
            ignore_read_errors: self.ignore_read_errors,
            auto_compress: self.auto_compress,
            throttle_fs: self.throttle_fs,
            lockfile_directory: self.lockfile_directory@,
            index_paths: self.index_paths.deep_view(),
        }
    }

    /// A copy of the options.
    pub fn duplicate(&self) -> (r: DBOptions)
        ensures
            r@ == self@,
    {
        DBOptions {
            ignore_read_errors: self.ignore_read_errors,
            auto_compress: self.auto_compress,
            throttle_fs: self.throttle_fs,
            lockfile_directory: self.lockfile_directory.clone(),
            index_paths: crate::index::copy_of(&self.index_paths),
        }
    }
}

/// The options of a store as contracts see them.
pub struct DBOptionsView {
    pub ignore_read_errors: bool,
    pub auto_compress: AutoCompressOptions,
    pub throttle_fs: ThrottleFSOptions,
    pub lockfile_directory: Seq<char>,
    pub index_paths: Seq<Seq<char>>,
}

impl DBOptions {
    /// The defaults: read errors fail the open, no automatic compaction, no
    /// throttling, the lock beside the log, no index.
    pub open spec fn default_view() -> DBOptionsView {
        DBOptionsView {
            ignore_read_errors: false,
            auto_compress: AutoCompressOptions::default_options(),
            throttle_fs: ThrottleFSOptions::default_options(),
            lockfile_directory: seq!['.'],
            index_paths: Seq::empty(),
        }
    }
}

impl Default for DBOptions {
    fn default() -> (r: Self)
        ensures
            r@ == DBOptions::default_view(),
    {
        proof {
            reveal_strlit(".");
        }
        let lockfile_directory = String::from_str(".");
        assert(lockfile_directory@ =~= seq!['.']);
        let r = DBOptions {
            ignore_read_errors: false,
            auto_compress: AutoCompressOptions::default(),
            throttle_fs: ThrottleFSOptions::default(),
            lockfile_directory,
            index_paths: Vec::new(),
        };
        assert(r@.index_paths =~= Seq::<Seq<char>>::empty());
        r
    }
}

} // verus!
