use vstd::prelude::*;
use vstd::string::*;

verus! {

/// Whether a component of the path starts at position `i`.
pub open spec fn starts_component(p: Seq<char>, i: int) -> bool {
    0 <= i < p.len() && (i == 0 || p[i - 1] == '/')
}

/// Whether the component starting at `i` is `.` or `..`, a step rather than a
/// name (when `p[i]` is a dot).
pub open spec fn is_step(p: Seq<char>, i: int) -> bool {
    (i + 1 == p.len() || p[i + 1] == '/') || (i + 1 < p.len() && p[i + 1] == '.' && (i + 2
        == p.len() || p[i + 2] == '/'))
}

/// Whether the component starting at `i` is a name that starts with a dot.
pub open spec fn dot_component(p: Seq<char>, i: int) -> bool {
    starts_component(p, i) && p[i] == '.' && !is_step(p, i)
}

/// Whether some component of the path, the first one included, is a name that
/// starts with a dot (the steps `.` and `..` are not names).
pub open spec fn path_hidden(p: Seq<char>) -> bool {
    exists|i: int| #[trigger] dot_component(p, i)
}

/// Whether the path ends with a separator.
pub open spec fn ends_with_sep(p: Seq<char>) -> bool {
    p.len() > 0 && p.last() == '/'
}

/// A name that a directory can list: not empty, without a separator, and
/// neither `.` nor `..`.
pub open spec fn valid_name(name: Seq<char>) -> bool {
    &&& name.len() > 0
    &&& forall|i: int| 0 <= i < name.len() ==> name[i] != '/'
    &&& name != seq!['.']
    &&& name != seq!['.', '.']
}

/// The path of entry `name` inside directory `dir`.
pub open spec fn join(dir: Seq<char>, name: Seq<char>) -> Seq<char> {
    if dir.len() == 0 || ends_with_sep(dir) {
        dir + name
    } else {
        dir + seq!['/'] + name
    }
}

/// How a directory is reported: its path with a trailing separator.
pub open spec fn dir_record(dir: Seq<char>) -> Seq<char> {
    if ends_with_sep(dir) {
        dir
    } else {
        dir + seq!['/']
    }
}

/// The path with its trailing separators removed.
pub open spec fn trim_seps(p: Seq<char>) -> Seq<char>
    decreases p.len(),
{
    if ends_with_sep(p) {
        trim_seps(p.drop_last())
    } else {
        p
    }
}

/// What follows the last separator.
pub open spec fn after_last_sep(p: Seq<char>) -> Seq<char>
    decreases p.len(),
{
    if p.len() == 0 {
        p
    } else if p.last() == '/' {
        seq![]
    } else {
        after_last_sep(p.drop_last()).push(p.last())
    }
}

/// The last component of a path, trailing separators ignored.
pub open spec fn base_name(p: Seq<char>) -> Seq<char> {
    after_last_sep(trim_seps(p))
}

/// Extending a path after a separator leaves its components as they were.
proof fn lemma_extend_components(dir: Seq<char>, j: Seq<char>, i: int)
    requires
        j.len() > dir.len(),
        forall|k: int| 0 <= k < dir.len() ==> j[k] == dir[k],
        ends_with_sep(dir) || j[dir.len() as int] == '/',
        0 <= i < dir.len(),
    ensures
        dot_component(j, i) == dot_component(dir, i),
{
    let dl = dir.len() as int;
    if i > 0 {
        assert(j[i - 1] == dir[i - 1]);
    }
    assert(j[i] == dir[i]);
    if i + 1 < dl {
        assert(j[i + 1] == dir[i + 1]);
    }
    if i + 2 < dl {
        assert(j[i + 2] == dir[i + 2]);
    }
}

/// An entry is hidden exactly when its directory is hidden or its own name starts
/// with a dot.
pub proof fn lemma_join_hidden(dir: Seq<char>, name: Seq<char>)
    requires
        valid_name(name),
    ensures
        path_hidden(join(dir, name)) == (path_hidden(dir) || name[0] == '.'),
{
    let j = join(dir, name);
    let dl = dir.len() as int;
    let off = if dl == 0 || ends_with_sep(dir) { dl } else { dl + 1 };
    assert(j.len() == off + name.len());
    assert forall|k: int| 0 <= k < name.len() implies j[off + k] == name[k] by {}
    assert forall|i: int| 0 <= i < dl implies dot_component(j, i) == dot_component(dir, i) by {
        lemma_extend_components(dir, j, i);
    }
    assert forall|i: int| dl <= i < j.len() implies dot_component(j, i) == (i == off && name[0]
        == '.') by {
        if i < off {
            assert(j[i] == '/');
        } else if i == off {
            if name[0] == '.' {
                if name.len() == 1 {
                    assert(name =~= seq!['.']);
                } else {
                    assert(j[i + 1] == name[1]);
                    if name.len() == 2 && name[1] == '.' {
                        assert(name =~= seq!['.', '.']);
                    }
                    if name.len() > 2 {
                        assert(j[i + 2] == name[2]);
                    }
                }
            }
        } else {
            assert(j[i - 1] == name[i - 1 - off]);
        }
    }
    if path_hidden(j) {
        let i = choose|i: int| #[trigger] dot_component(j, i);
        if i < dl {
            assert(dot_component(dir, i));
        }
    }
    if path_hidden(dir) {
        let i = choose|i: int| #[trigger] dot_component(dir, i);
        assert(dot_component(j, i));
    }
    if name[0] == '.' {
        assert(dot_component(j, off));
    }
}

/// Reporting a directory with a trailing separator keeps its visibility.
pub proof fn lemma_dir_record_hidden(dir: Seq<char>)
    ensures
        path_hidden(dir_record(dir)) == path_hidden(dir),
{
    let r = dir_record(dir);
    if !ends_with_sep(dir) {
        let dl = dir.len() as int;
        assert forall|i: int| 0 <= i < dl implies dot_component(r, i) == dot_component(dir, i) by {
            lemma_extend_components(dir, r, i);
        }
        if path_hidden(r) {
            let i = choose|i: int| #[trigger] dot_component(r, i);
            assert(i != dl);
            assert(dot_component(dir, i));
        }
        if path_hidden(dir) {
            let i = choose|i: int| #[trigger] dot_component(dir, i);
            assert(dot_component(r, i));
        }
    }
}

/// Whether the path ends with a separator.
pub fn has_trailing_sep(p: &String) -> (r: bool)
    ensures
        r == ends_with_sep(p@),
{
    let n = p.as_str().unicode_len();
    n > 0 && p.as_str().get_char(n - 1) == '/'
}

/// Whether some component of the path is a name that starts with a dot.
pub fn is_hidden_path(p: &String) -> (r: bool)
    ensures
        r == path_hidden(p@),
{
    let s = p.as_str();
    let n = s.unicode_len();
    let mut i: usize = 0;
    let mut prev: char = '/';
    while i < n
        invariant
            n == s@.len(),
            s@ == p@,
            i <= n,
            i > 0 ==> prev == s@[i - 1],
            i == 0 ==> prev == '/',
            forall|k: int| 0 <= k < i ==> !#[trigger] dot_component(s@, k),
        decreases n - i,
    {
        let c = s.get_char(i);
        if prev == '/' && c == '.' {
            let step = if i + 1 == n {
                true
            } else {
                let c1 = s.get_char(i + 1);
                if c1 == '/' {
                    true
                } else if c1 == '.' {
                    if i + 2 == n {
                        true
                    } else {
                        s.get_char(i + 2) == '/'
                    }
                } else {
                    false
                }
            };
            if !step {
                assert(dot_component(s@, i as int));
                return true;
            }
        }
        prev = c;
        i = i + 1;
    }
    false
}

/// Whether the name starts with a dot.
pub fn starts_with_dot(name: &String) -> (r: bool)
    ensures
        r == (name@.len() > 0 && name@[0] == '.'),
{
    let n = name.as_str().unicode_len();
    n > 0 && name.as_str().get_char(0) == '.'
}

/// The path of entry `name` inside directory `dir`.
pub fn join_path(dir: &String, name: &String) -> (r: String)
    ensures
        r@ == join(dir@, name@),
{
    let mut p = dir.clone();
    let n = dir.as_str().unicode_len();
    if n > 0 && !has_trailing_sep(dir) {
        proof {
            reveal_strlit("/");
        }
        p.append("/");
    }
    p.append(name.as_str());
    p
}

/// The reported form of a directory: its path with a trailing separator.
pub fn dir_record_of(dir: &String) -> (r: String)
    ensures
        r@ == dir_record(dir@),
{
    let mut p = dir.clone();
    if !has_trailing_sep(dir) {
        proof {
            reveal_strlit("/");
        }
        p.append("/");
    }
    p
}

/// The last component of a path, trailing separators ignored.
pub fn base_name_of(p: &String) -> (r: String)
    ensures
        r@ == base_name(p@),
{
    let s = p.as_str();
    let mut end: usize = s.unicode_len();
    assert(s@.subrange(0, end as int) =~= s@);
    while end > 0 && s.get_char(end - 1) == '/'
        invariant
            end <= s@.len(),
            s@ == p@,
            trim_seps(p@) == trim_seps(s@.subrange(0, end as int)),
        decreases end,
    {
        assert(s@.subrange(0, end as int).drop_last() =~= s@.subrange(0, end - 1));
        end = end - 1;
    }
    let ghost q = s@.subrange(0, end as int);
    assert(trim_seps(q) == q);
    let mut start: usize = end;
    while start > 0 && s.get_char(start - 1) != '/'
        invariant
            start <= end <= s@.len(),
            s@ == p@,
            q == s@.subrange(0, end as int),
            after_last_sep(q) == after_last_sep(s@.subrange(0, start as int)) + s@.subrange(
                start as int,
                end as int,
            ),
        decreases start,
    {
        let ghost pre = s@.subrange(0, start as int);
        assert(pre.drop_last() =~= s@.subrange(0, start - 1));
        assert(s@.subrange(start - 1, end as int) =~= seq![pre.last()] + s@.subrange(
            start as int,
            end as int,
        ));
        assert(after_last_sep(pre) == after_last_sep(pre.drop_last()).push(pre.last()));
        assert(after_last_sep(pre.drop_last()).push(pre.last()) + s@.subrange(start as int, end as int)
            =~= after_last_sep(pre.drop_last()) + s@.subrange(start - 1, end as int));
        start = start - 1;
    }
    assert(after_last_sep(s@.subrange(0, start as int)) =~= Seq::<char>::empty());
    assert(after_last_sep(q) =~= s@.subrange(start as int, end as int));
    String::from_str(s.substring_char(start, end))
}

} // verus!
