use vstd::prelude::*;

verus! {

/// Settings of one search, read but never changed by the engine.
pub struct Config {
    /// Worker threads per round; a search needs at least two.
    pub num_threads: usize,
    /// Entries (files plus directories) one walk may process before it yields.
    pub file_dir_limit: usize,
    /// Whether the root itself is reported when its name matches.
    pub include_target_in_output: bool,
    pub show_files: bool,
    pub show_dirs: bool,
    pub show_symlinks: bool,
    /// When set, `show_symlinks` decides strictly: only symlinks, or none.
    pub filter_symlinks: bool,
    pub show_hidden: bool,
    /// When set, `show_hidden` decides strictly: only hidden entries, or none.
    pub filter_hidden: bool,
    /// Whether any of the `show_*` settings apply at all.
    pub is_filtered: bool,
    pub is_sorted: bool,
    pub sort_asc: bool,
    /// Where tags go: negative before the path, zero nowhere, positive after it.
    pub label_pos: i8,
    /// Whether the pattern is compared for equality instead of as a regular expression.
    pub equality_match: bool,
    /// Whether file contents are searched line by line instead of names.
    pub content_search: bool,
}

} // verus!
