use vstd::prelude::*;
use vstd::seq_lib::*;
use vstd::multiset::*;

use crate::config::Config;
use crate::matches::NUM_FILE_CATEGORIES;
use crate::pattern::{regex_compiles, ConfigError, PatternMatcher};
use crate::sort::{sort_results, sorted_by_key};

verus! {

/// Whether entries of this visibility pass the filters of `cfg`.
pub open spec fn hidden_selected(cfg: Config, hidden: bool) -> bool {
    !cfg.is_filtered || !cfg.filter_hidden || hidden == cfg.show_hidden
}

/// Whether entries of this kind offset (0 file, 1 symlink, 2 directory) pass the
/// filters of `cfg`. Each kind has its own switch: `show_files`, `show_dirs`, and
/// for symlinks `show_symlinks` once they are filtered at all. Showing symlinks
/// strictly shows them alone.
pub open spec fn kind_selected(cfg: Config, kind: int) -> bool {
    let only_symlinks = cfg.filter_symlinks && cfg.show_symlinks;
    if !cfg.is_filtered {
        true
    } else if kind == 0 {
        cfg.show_files && !only_symlinks
    } else if kind == 1 {
        !cfg.filter_symlinks || cfg.show_symlinks
    } else {
        cfg.show_dirs && !only_symlinks
    }
}

/// Whether bucket `i` of the six categories is kept by `cfg`.
pub open spec fn category_selected(cfg: Config, i: int) -> bool {
    hidden_selected(cfg, i >= 3) && kind_selected(cfg, i % 3)
}

/// The buckets among the first `n` that `cfg` keeps, in index order.
pub open spec fn selected_buckets(cfg: Config, b: Seq<Vec<String>>, n: int) -> Seq<Vec<String>>
    decreases n,
{
    if n <= 0 {
        seq![]
    } else {
        selected_buckets(cfg, b, n - 1) + if category_selected(cfg, n - 1) {
            seq![b[n - 1]]
        } else {
            seq![]
        }
    }
}

/// All entries of a list of buckets, bucket after bucket.
pub open spec fn flatten(b: Seq<Vec<String>>) -> Seq<String>
    decreases b.len(),
{
    if b.len() == 0 {
        seq![]
    } else {
        flatten(b.drop_last()) + b.last()@
    }
}

/// Takes out of `original`, in index order, the buckets that `cfg` keeps; those
/// slots are left empty and the others untouched.
pub fn filter_elements(cfg: &Config, original: &mut [Vec<String>; NUM_FILE_CATEGORIES]) -> (r: Vec<Vec<String>>)
    ensures
        r@ == selected_buckets(*cfg, old(original)@, NUM_FILE_CATEGORIES as int),
        forall|i: int|
            0 <= i < NUM_FILE_CATEGORIES ==> (#[trigger] final(original)[i])@ == if category_selected(*cfg, i) {
                Seq::<String>::empty()
            } else {
                old(original)[i]@
            },
{
    let mut ret: Vec<Vec<String>> = Vec::new();
    let mut i: usize = 0;
    while i < NUM_FILE_CATEGORIES
        invariant
            i <= NUM_FILE_CATEGORIES,
            ret@ == selected_buckets(*cfg, old(original)@, i as int),
            forall|k: int|
                i <= k < NUM_FILE_CATEGORIES ==> (#[trigger] original[k]) == old(original)[k],
            forall|k: int|
                0 <= k < i ==> (#[trigger] original[k])@ == if category_selected(*cfg, k) {
                    Seq::<String>::empty()
                } else {
                    old(original)[k]@
                },
        decreases NUM_FILE_CATEGORIES - i,
    {
        let hidden: bool = i >= 3;
        let kind: usize = i % 3;
        let keep_hidden = !cfg.is_filtered || !cfg.filter_hidden || hidden == cfg.show_hidden;
        let only_symlinks = cfg.filter_symlinks && cfg.show_symlinks;
        let keep_kind = if !cfg.is_filtered {
            true
        } else if kind == 0 {
            cfg.show_files && !only_symlinks
        } else if kind == 1 {
            !cfg.filter_symlinks || cfg.show_symlinks
        } else {
            cfg.show_dirs && !only_symlinks
        };
        if keep_hidden && keep_kind {
            let mut taken: Vec<String> = Vec::new();
            std::mem::swap(&mut taken, &mut original[i]);
            ret.push(taken);
        }
        i = i + 1;
    }
    ret
}

/// Filtering only drops entries: every entry of the kept buckets, counted with
/// its multiplicity, is an entry of the six buckets they were taken from.
pub proof fn lemma_filtered_sub_multiset(cfg: Config, b: Seq<Vec<String>>)
    requires
        b.len() == NUM_FILE_CATEGORIES,
    ensures
        flatten(selected_buckets(cfg, b, NUM_FILE_CATEGORIES as int)).to_multiset().subset_of(
            flatten(b).to_multiset(),
        ),
{
    lemma_filter_is_sub_multiset(cfg, b, NUM_FILE_CATEGORIES as int);
    assert(b.subrange(0, NUM_FILE_CATEGORIES as int) =~= b);
}

proof fn lemma_filter_is_sub_multiset(cfg: Config, b: Seq<Vec<String>>, n: int)
    requires
        0 <= n <= b.len(),
    ensures
        flatten(selected_buckets(cfg, b, n)).to_multiset().subset_of(
            flatten(b.subrange(0, n)).to_multiset(),
        ),
    decreases n,
{
    broadcast use group_multiset_axioms;

    if n == 0 {
        assert(selected_buckets(cfg, b, 0) =~= seq![]);
        assert(flatten(seq![]) =~= Seq::<String>::empty());
    } else {
        lemma_filter_is_sub_multiset(cfg, b, n - 1);
        let prev = selected_buckets(cfg, b, n - 1);
        let whole = b.subrange(0, n);
        assert(whole.drop_last() =~= b.subrange(0, n - 1));
        lemma_multiset_commutative(flatten(whole.drop_last()), b[n - 1]@);
        if category_selected(cfg, n - 1) {
            let cur = prev + seq![b[n - 1]];
            assert(cur.drop_last() =~= prev);
            lemma_multiset_commutative(flatten(prev), b[n - 1]@);
        } else {
            assert(prev + Seq::<Vec<String>>::empty() =~= prev);
        }
    }
}

/// All entries of a list of sequences, one after another.
pub open spec fn flat_rows(rows: Seq<Seq<String>>) -> Seq<String>
    decreases rows.len(),
{
    if rows.len() == 0 {
        seq![]
    } else {
        flat_rows(rows.drop_last()) + rows.last()
    }
}

/// The sequences of a list of lists.
pub open spec fn row_views(lists: Seq<Vec<String>>) -> Seq<Seq<String>> {
    lists.map_values(|v: Vec<String>| v@)
}

/// Whether `rows` deals `src` out in turn over `t` lists: position `k` of list
/// `i` holds entry `k * t + i`, and every entry has its place.
pub open spec fn dealt(src: Seq<String>, rows: Seq<Seq<String>>, t: int) -> bool {
    &&& t >= 1
    &&& rows.len() == t
    &&& forall|i: int, k: int| 0 <= i < t && 0 <= k < rows[i].len() ==> #[trigger] dealt_at(src, rows, t, i, k)
    &&& forall|j: int| 0 <= j < src.len() ==> j / t < (#[trigger] rows[j % t]).len()
}

/// Whether position `k` of list `i` holds entry `k * t + i`.
pub open spec fn dealt_at(src: Seq<String>, rows: Seq<Seq<String>>, t: int, i: int, k: int) -> bool {
    k * t + i < src.len() && rows[i][k] == src[k * t + i]
}

spec fn rows_ms(rows: Seq<Seq<String>>) -> Multiset<String>
    decreases rows.len(),
{
    if rows.len() == 0 {
        Multiset::empty()
    } else {
        rows_ms(rows.drop_last()).add(rows.last().to_multiset())
    }
}

proof fn lemma_flatten_views(lists: Seq<Vec<String>>)
    ensures
        flatten(lists) == flat_rows(row_views(lists)),
    decreases lists.len(),
{
    if lists.len() > 0 {
        assert(row_views(lists).drop_last() =~= row_views(lists.drop_last()));
        lemma_flatten_views(lists.drop_last());
    }
}

proof fn lemma_flat_rows_ms(rows: Seq<Seq<String>>)
    ensures
        flat_rows(rows).to_multiset() == rows_ms(rows),
    decreases rows.len(),
{
    broadcast use group_multiset_axioms;

    if rows.len() == 0 {
        assert(flat_rows(rows) =~= Seq::<String>::empty());
        flat_rows(rows).to_multiset_ensures();
        lemma_multiset_empty_len(flat_rows(rows).to_multiset());
    } else {
        lemma_flat_rows_ms(rows.drop_last());
        lemma_multiset_commutative(flat_rows(rows.drop_last()), rows.last());
    }
}

proof fn lemma_rows_ms_pop(rows: Seq<Seq<String>>, a: int)
    requires
        0 <= a < rows.len(),
        rows[a].len() > 0,
    ensures
        rows_ms(rows) == rows_ms(rows.update(a, rows[a].drop_last())).insert(rows[a].last()),
    decreases rows.len(),
{
    broadcast use group_multiset_axioms;
    broadcast use group_to_multiset_ensures;

    let u = rows.update(a, rows[a].drop_last());
    let row = rows[a];
    assert(row =~= row.drop_last().push(row.last()));
    row.drop_last().to_multiset_ensures();
    if a == rows.len() - 1 {
        assert(u.drop_last() =~= rows.drop_last());
        assert(rows_ms(rows) =~= rows_ms(u).insert(row.last()));
    } else {
        assert(u.drop_last() =~= rows.drop_last().update(a, row.drop_last()));
        lemma_rows_ms_pop(rows.drop_last(), a);
        assert(rows_ms(rows) =~= rows_ms(u).insert(row.last()));
    }
}

proof fn lemma_all_empty_ms(rows: Seq<Seq<String>>)
    requires
        forall|i: int| 0 <= i < rows.len() ==> (#[trigger] rows[i]).len() == 0,
    ensures
        rows_ms(rows) == Multiset::<String>::empty(),
    decreases rows.len(),
{
    broadcast use group_multiset_axioms;

    if rows.len() > 0 {
        lemma_all_empty_ms(rows.drop_last());
        rows.last().to_multiset_ensures();
        lemma_multiset_empty_len(rows.last().to_multiset());
        assert(rows_ms(rows) =~= Multiset::<String>::empty());
    }
}

/// Dealing entries out in turn over several lists loses and repeats none: the
/// lists together hold exactly the entries dealt, each as often as it occurs.
pub proof fn lemma_dealt_permutation(src: Seq<String>, rows: Seq<Seq<String>>, t: int)
    requires
        dealt(src, rows, t),
    ensures
        flat_rows(rows).to_multiset() == src.to_multiset(),
    decreases src.len(),
{
    broadcast use group_multiset_axioms;
    broadcast use group_to_multiset_ensures;

    lemma_flat_rows_ms(rows);
    let n = src.len() as int;
    if n == 0 {
        assert forall|i: int| 0 <= i < rows.len() implies (#[trigger] rows[i]).len() == 0 by {
            if rows[i].len() > 0 {
                assert(dealt_at(src, rows, t, i, 0));
            }
        }
        lemma_all_empty_ms(rows);
        src.to_multiset_ensures();
        lemma_multiset_empty_len(src.to_multiset());
    } else {
        let j = n - 1;
        let a = j % t;
        let q = j / t;
        vstd::arithmetic::div_mod::lemma_fundamental_div_mod(j, t);
        vstd::arithmetic::div_mod::lemma_mod_pos_bound(j, t);
        vstd::arithmetic::div_mod::lemma_div_pos_is_pos(j, t);
        vstd::arithmetic::mul::lemma_mul_is_commutative(q, t);
        let row = rows[a];
        assert(q < row.len());
        if row.len() > q + 1 {
            assert(dealt_at(src, rows, t, a, q + 1));
            vstd::arithmetic::mul::lemma_mul_is_distributive_add_other_way(t, q, 1);
        }
        assert(row.len() == q + 1);
        assert(dealt_at(src, rows, t, a, q));
        assert(row.last() == src[j]);
        let rows2 = rows.update(a, row.drop_last());
        let src2 = src.drop_last();
        assert forall|i: int, k: int| 0 <= i < t && 0 <= k < rows2[i].len() implies #[trigger] dealt_at(
            src2,
            rows2,
            t,
            i,
            k,
        ) by {
            if i == a {
                assert(rows2[i][k] == row[k]);
            } else {
                assert(rows2[i] == rows[i]);
            }
            assert(dealt_at(src, rows, t, i, k));
            if i == a {
                vstd::arithmetic::mul::lemma_mul_strict_inequality(k, q, t);
            } else if k * t + i == j {
                vstd::arithmetic::div_mod::lemma_fundamental_div_mod_converse(j, t, k, i);
            }
        }
        assert forall|jj: int| 0 <= jj < src2.len() implies jj / t < (#[trigger] rows2[jj % t]).len() by {
            vstd::arithmetic::div_mod::lemma_fundamental_div_mod(jj, t);
            vstd::arithmetic::div_mod::lemma_mod_pos_bound(jj, t);
            if jj % t == a {
                let qq = jj / t;
                vstd::arithmetic::mul::lemma_mul_is_commutative(qq, t);
                if qq >= q {
                    vstd::arithmetic::mul::lemma_mul_inequality(q, qq, t);
                }
            }
        }
        assert(rows2.len() == t);
        assert(dealt(src2, rows2, t));
        lemma_dealt_permutation(src2, rows2, t);
        lemma_flat_rows_ms(rows2);
        lemma_rows_ms_pop(rows, a);
        assert(src =~= src2.push(src[j]));
        src2.to_multiset_ensures();
    }
}

/// Whether `x` stands at position `k` of list `i`.
pub open spec fn lands_at(lists: Seq<Vec<String>>, i: int, k: int, x: String) -> bool {
    0 <= i < lists.len() && 0 <= k < lists[i]@.len() && lists[i]@[k] == x
}

/// Hands the paths out to `num_threads` lists in turn: path `j` goes to list
/// `j % num_threads`, at position `j / num_threads`. `paths` is left empty.
pub fn distribute_paths_per_thread(paths_to_distribute_and_free: &mut Vec<String>, num_threads: usize) -> (r: Vec<Vec<String>>)
    requires
        num_threads >= 1,
    ensures
        r@.len() == num_threads,
        final(paths_to_distribute_and_free)@.len() == 0,
        forall|i: int|
            0 <= i < num_threads ==> {
                &&& (#[trigger] r@[i])@.len() * num_threads + i >= old(paths_to_distribute_and_free)@.len()
                &&& (r@[i]@.len() == 0 || (r@[i]@.len() - 1) * num_threads + i
                    < old(paths_to_distribute_and_free)@.len())
            },
        forall|i: int, k: int|
            0 <= i < num_threads && 0 <= k < r@[i]@.len() ==> #[trigger] r@[i]@[k]
                == old(paths_to_distribute_and_free)@[k * num_threads + i],
        forall|j: int|
            0 <= j < old(paths_to_distribute_and_free)@.len() ==> lands_at(
                r@,
                j % (num_threads as int),
                j / (num_threads as int),
                #[trigger] old(paths_to_distribute_and_free)@[j],
            ),
        flatten(r@).to_multiset() == old(paths_to_distribute_and_free)@.to_multiset(),
{
    let n = paths_to_distribute_and_free.len();
    let t = num_threads;
    let ghost src = paths_to_distribute_and_free@;
    let mut per_thread: Vec<Vec<String>> = Vec::new();
    let mut i: usize = 0;
    while i < t
        invariant
            i <= t,
            t >= 1,
            n == src.len(),
            paths_to_distribute_and_free@ == src,
            per_thread@.len() == i,
            forall|a: int|
                0 <= a < i ==> {
                    &&& (#[trigger] per_thread@[a])@.len() * t + a >= n
                    &&& (per_thread@[a]@.len() == 0 || (per_thread@[a]@.len() - 1) * t + a < n)
                },
            forall|a: int, k: int|
                0 <= a < i && 0 <= k < per_thread@[a]@.len() ==> #[trigger] per_thread@[a]@[k]
                    == src[k * t + a],
        decreases t - i,
    {
        let mut row: Vec<String> = Vec::new();
        let mut j: usize = i;
        let mut more: bool = j < n;
        while more
            invariant
                i < t,
                t >= 1,
                n == src.len(),
                paths_to_distribute_and_free@ == src,
                more ==> j == row@.len() * t + i && j < n,
                !more ==> row@.len() * t + i >= n,
                row@.len() == 0 || (row@.len() - 1) * t + i < n,
                forall|m: int| 0 <= m < row@.len() ==> #[trigger] row@[m] == src[m * t + i],
            decreases (if more { n - j + 1 } else { 0 }),
        {
            let ghost before = row@;
            let item = paths_to_distribute_and_free[j].clone();
            row.push(item);
            proof {
                vstd::arithmetic::mul::lemma_mul_is_distributive_add_other_way(t as int, before.len() as int, 1);
                assert forall|m: int| 0 <= m < row@.len() implies #[trigger] row@[m] == src[m * t + i] by {
                    if m < before.len() {
                        assert(row@[m] == before[m]);
                    }
                }
            }
            if n - j > t {
                j = j + t;
            } else {
                more = false;
            }
        }
        let ghost prev = per_thread@;
        per_thread.push(row);
        assert forall|a: int, m: int| 0 <= a <= i && 0 <= m < per_thread@[a]@.len() implies #[trigger] per_thread@[a]@[m]
            == src[m * t + a] by {
            if a < i {
                assert(per_thread@[a] == prev[a]);
            }
        }
        assert forall|a: int| 0 <= a <= i implies {
            &&& (#[trigger] per_thread@[a])@.len() * t + a >= n
            &&& (per_thread@[a]@.len() == 0 || (per_thread@[a]@.len() - 1) * t + a < n)
        } by {
            if a < i {
                assert(per_thread@[a] == prev[a]);
            }
        }
        i = i + 1;
    }
    proof {
        assert forall|jj: int| 0 <= jj < n implies lands_at(
            per_thread@,
            jj % (t as int),
            jj / (t as int),
            #[trigger] src[jj],
        ) by {
            let a = jj % (t as int);
            let q = jj / (t as int);
            vstd::arithmetic::div_mod::lemma_fundamental_div_mod(jj, t as int);
            vstd::arithmetic::div_mod::lemma_mod_pos_bound(jj, t as int);
            vstd::arithmetic::div_mod::lemma_div_pos_is_pos(jj, t as int);
            let len = per_thread@[a]@.len() as int;
            assert(len * t + a >= n);
            assert(q * t + a == jj) by {
                vstd::arithmetic::mul::lemma_mul_is_commutative(q, t as int);
            }
            if len <= q {
                vstd::arithmetic::mul::lemma_mul_inequality(len, q, t as int);
            }
            assert(per_thread@[a]@[q] == src[q * t + a]);
        }
        let rows = row_views(per_thread@);
        assert forall|a: int, k: int| 0 <= a < t && 0 <= k < rows[a].len() implies #[trigger] dealt_at(
            src,
            rows,
            t as int,
            a,
            k,
        ) by {
            let len = per_thread@[a]@.len() as int;
            assert(per_thread@[a]@[k] == src[k * t + a]);
            vstd::arithmetic::mul::lemma_mul_inequality(k, len - 1, t as int);
        }
        assert forall|jj: int| 0 <= jj < src.len() implies jj / (t as int) < (#[trigger] rows[jj % (
        t as int)]).len() by {
            assert(lands_at(per_thread@, jj % (t as int), jj / (t as int), src[jj]));
        }
        lemma_dealt_permutation(src, rows, t as int);
        lemma_flatten_views(per_thread@);
    }
    paths_to_distribute_and_free.clear();
    per_thread
}

/// Checks the settings of a search and builds its matcher, before anything is
/// read: fewer than two threads is refused first, then a regular expression that
/// does not compile.
pub fn prepare_search(target: &String, cfg: &Config) -> (r: Result<PatternMatcher, ConfigError>)
    ensures
        cfg.num_threads < 2 ==> r == Err::<PatternMatcher, ConfigError>(ConfigError::InvalidThreadCount),
        cfg.num_threads >= 2 && !cfg.equality_match && !regex_compiles(target@) ==> r == Err::<
            PatternMatcher,
            ConfigError,
        >(ConfigError::InvalidPattern),
        r is Ok <==> cfg.num_threads >= 2 && (cfg.equality_match || regex_compiles(target@)),
        r matches Ok(m) ==> m.wf() && m.is_exact() == cfg.equality_match && m.pattern() == target@,
{
    if cfg.num_threads < 2 {
        return Err(ConfigError::InvalidThreadCount);
    }
    PatternMatcher::new(target, cfg.equality_match)
}

/// Number of walks in a round: one per directory, at most one per thread.
pub fn threads_for_round(frontier_len: usize, num_threads: usize) -> (r: usize)
    ensures
        r == if frontier_len < num_threads { frontier_len } else { num_threads },
{
    if frontier_len < num_threads {
        frontier_len
    } else {
        num_threads
    }
}

/// Joins lists end to end, in their order.
pub fn concat_lists(lists: Vec<Vec<String>>) -> (r: Vec<String>)
    ensures
        r@ == flatten(lists@),
{
    let mut lists = lists;
    let ghost orig = lists@;
    let mut out: Vec<String> = Vec::new();
    let mut i: usize = 0;
    assert(orig.subrange(0, 0) =~= Seq::<Vec<String>>::empty());
    while i < lists.len()
        invariant
            lists@.len() == orig.len(),
            i <= orig.len(),
            forall|k: int| i <= k < orig.len() ==> #[trigger] lists@[k] == orig[k],
            out@ == flatten(orig.subrange(0, i as int)),
        decreases orig.len() - i,
    {
        let mut part: Vec<String> = Vec::new();
        std::mem::swap(&mut part, &mut lists[i]);
        assert(part == orig[i as int]);
        out.append(&mut part);
        proof {
            let pre = orig.subrange(0, i + 1);
            assert(pre.drop_last() =~= orig.subrange(0, i as int));
            assert(pre.last() == orig[i as int]);
        }
        i = i + 1;
    }
    assert(orig.subrange(0, orig.len() as int) =~= orig);
    out
}

/// The results of one walk that `cfg` keeps, bucket after bucket.
pub fn filtered_results(cfg: &Config, buckets: &mut [Vec<String>; NUM_FILE_CATEGORIES]) -> (r: Vec<String>)
    ensures
        r@ == flatten(selected_buckets(*cfg, old(buckets)@, NUM_FILE_CATEGORIES as int)),
{
    let kept = filter_elements(cfg, buckets);
    concat_lists(kept)
}

/// The state of a search between rounds: the directories still to walk, and
/// the results kept so far (only when the search is sorted; otherwise results
/// are handed out as each walk ends).
pub struct Search {
    pub frontier: Vec<String>,
    pub results: Vec<String>,
    pub keep: bool,
}

impl Search {
    /// Starts from what the seed walk left: its unread directories and its
    /// filtered results.
    pub fn start(cfg: &Config, overflow: Vec<String>, seed_results: Vec<String>) -> (s: Search)
        ensures
            s.frontier@ == overflow@,
            s.keep == cfg.is_sorted,
            s.results@ == if cfg.is_sorted { seed_results@ } else { Seq::<String>::empty() },
    {
        let results = if cfg.is_sorted { seed_results } else { Vec::new() };
        Search { frontier: overflow, results, keep: cfg.is_sorted }
    }

    /// Whether no directory is left to walk.
    pub fn is_done(&self) -> (r: bool)
        ensures
            r == (self.frontier@.len() == 0),
    {
        self.frontier.len() == 0
    }

    /// Deals the frontier out for one round: one list per walk, at most
    /// `num_threads` and at most one per directory, each directory in exactly one
    /// list, directory `j` in list `j % walks`.
    pub fn next_round(&mut self, num_threads: usize) -> (r: Vec<Vec<String>>)
        requires
            num_threads >= 1,
            old(self).frontier@.len() > 0,
        ensures
            r@.len() == if old(self).frontier@.len() < num_threads {
                old(self).frontier@.len()
            } else {
                num_threads as nat
            },
            forall|j: int|
                0 <= j < old(self).frontier@.len() ==> lands_at(
                    r@,
                    j % (r@.len() as int),
                    j / (r@.len() as int),
                    #[trigger] old(self).frontier@[j],
                ),
            flatten(r@).to_multiset() == old(self).frontier@.to_multiset(),
            final(self).frontier@.len() == 0,
            final(self).results@ == old(self).results@,
            final(self).keep == old(self).keep,
    {
        let walks = threads_for_round(self.frontier.len(), num_threads);
        distribute_paths_per_thread(&mut self.frontier, walks)
    }

    /// Takes in a finished round: the walks' unread directories and filtered
    /// results, in the order of the lists the round dealt out (not the order the
    /// walks finished in).
    pub fn end_round(&mut self, overflows: Vec<Vec<String>>, found: Vec<Vec<String>>)
        ensures
            final(self).frontier@ == flatten(overflows@),
            final(self).results@ == if old(self).keep {
                old(self).results@ + flatten(found@)
            } else {
                old(self).results@
            },
            final(self).keep == old(self).keep,
    {
        self.frontier = concat_lists(overflows);
        if self.keep {
            let mut more = concat_lists(found);
            self.results.append(&mut more);
        }
    }

    /// Ends the search: the kept results sorted once, tags left out of the
    /// comparison; nothing when results were not kept.
    pub fn finish(self, label_pos: i8, asc: bool) -> (r: Vec<String>)
        ensures
            self.keep ==> r@.to_multiset() == self.results@.to_multiset() && sorted_by_key(
                r@,
                label_pos,
                asc,
            ),
            !self.keep ==> r@.len() == 0,
    {
        if self.keep {
            let mut results = self.results;
            sort_results(&mut results, label_pos, asc);
            results
        } else {
            Vec::new()
        }
    }
}

} // verus!
