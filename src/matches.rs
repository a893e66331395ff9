use vstd::prelude::*;

verus! {

/// Number of (hidden, kind) categories that matches are sorted into.
pub const NUM_FILE_CATEGORIES: usize = 6;

/// Offset of a kind inside one visibility half: 0 for a file, 1 for a symlink,
/// 2 for a directory (an entry that is not a file is a directory).
pub open spec fn kind_offset(file: bool, symlink: bool) -> int {
    if !file { 2 } else if symlink { 1 } else { 0 }
}

/// Index of the bucket holding entries with these properties: visible entries
/// take 0..3 and hidden ones 3..6.
pub open spec fn category_index(hidden: bool, file: bool, symlink: bool) -> int {
    (if hidden { 3int } else { 0int }) + kind_offset(file, symlink)
}

fn share_of(fd_limit: usize, per_million: u64) -> (r: usize)
    requires
        per_million <= 1_000_000,
    ensures
        r as int * 1_000_000 <= fd_limit as int * per_million as int,
        r <= fd_limit,
{
    proof {
        vstd::arithmetic::mul::lemma_mul_upper_bound(
            fd_limit as int,
            usize::MAX as int,
            per_million as int,
            1_000_000,
        );
    }
    let prod: u128 = (fd_limit as u128) * (per_million as u128);
    let q: u128 = prod / 1_000_000;
    proof {
        vstd::arithmetic::div_mod::lemma_fundamental_div_mod(prod as int, 1_000_000);
        vstd::arithmetic::mul::lemma_mul_inequality(per_million as int, 1_000_000, fd_limit as int);
        vstd::arithmetic::mul::lemma_mul_is_commutative(per_million as int, fd_limit as int);
    }
    q as usize
}

/// Creates the six empty buckets, pre-sized after typical proportions of files,
/// symlinks and directories (visible and hidden) within a budget of `fd_limit`
/// entries; whatever the proportions leave over goes to visible directories.
pub fn initialise_matches_capacities(fd_limit: usize) -> (r: [Vec<String>; NUM_FILE_CATEGORIES])
    ensures
        forall|i: int| 0 <= i < NUM_FILE_CATEGORIES ==> (#[trigger] r[i])@.len() == 0,
{
    let c0 = share_of(fd_limit, 924075);
    let c1 = share_of(fd_limit, 9990);
    let c2 = share_of(fd_limit, 64935);
    let c3 = share_of(fd_limit, 925);
    let c4 = share_of(fd_limit, 10);
    let c5 = share_of(fd_limit, 65);
    let left: usize = fd_limit - (c0 + c1 + c2 + c3 + c4 + c5);
    let r: [Vec<String>; NUM_FILE_CATEGORIES] = [
        Vec::with_capacity(c0),
        Vec::with_capacity(c1),
        Vec::with_capacity(c2 + left),
        Vec::with_capacity(c3),
        Vec::with_capacity(c4),
        Vec::with_capacity(c5),
    ];
    r
}

/// Appends `ent` to the bucket of its properties.
pub fn insert_entry_in_matches(
    matches: &mut [Vec<String>; NUM_FILE_CATEGORIES],
    ent: String,
    hidden: bool,
    file: bool,
    symlink: bool,
)
    ensures
        forall|i: int|
            0 <= i < NUM_FILE_CATEGORIES ==> (#[trigger] final(matches)[i])@ == if i == category_index(
                hidden,
                file,
                symlink,
            ) {
                old(matches)[i]@.push(ent)
            } else {
                old(matches)[i]@
            },
{
    let offset: usize = if !file { 2 } else if symlink { 1 } else { 0 };
    let idx: usize = if hidden { 3 + offset } else { offset };
    matches[idx].push(ent);
}

} // verus!
