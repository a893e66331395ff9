use vstd::prelude::*;
use vstd::string::*;

verus! {

/// Number of characters in a property tag.
pub const LABEL_LENGTH: usize = 3;

/// Kind character of a tag: `F` for a file or symlink, `D` for a directory.
pub open spec fn kind_char(is_file: bool) -> char {
    if is_file { 'F' } else { 'D' }
}

/// Link character of a tag: `S` for a symlink, `R` for a regular file, `_` for a directory.
pub open spec fn link_char(is_file: bool, is_symlink: bool) -> char {
    if is_symlink { 'S' } else if is_file { 'R' } else { '_' }
}

/// Visibility character of a tag: `H` when hidden, `R` otherwise.
pub open spec fn hidden_char(is_hidden: bool) -> char {
    if is_hidden { 'H' } else { 'R' }
}

/// The three-character tag `[Kind][Symlink][Hidden]` describing an entry.
pub open spec fn label_of(is_hidden: bool, is_file: bool, is_symlink: bool) -> Seq<char> {
    seq![kind_char(is_file), link_char(is_file, is_symlink), hidden_char(is_hidden)]
}

/// A path decorated according to `label_pos`: unchanged when it is zero, tag after
/// the path when positive, tag before the path when negative; tag and path are
/// separated by one space.
pub open spec fn labeled(
    path: Seq<char>,
    label_pos: i8,
    is_hidden: bool,
    is_file: bool,
    is_symlink: bool,
) -> Seq<char> {
    if label_pos == 0 {
        path
    } else if label_pos > 0 {
        path + seq![' '] + label_of(is_hidden, is_file, is_symlink)
    } else {
        label_of(is_hidden, is_file, is_symlink) + seq![' '] + path
    }
}

/// A string with the tag and its separator taken off the end named by `label_pos`;
/// strings too short to carry a tag are left as they are.
pub open spec fn unlabeled(s: Seq<char>, label_pos: i8) -> Seq<char> {
    if label_pos == 0 || s.len() < LABEL_LENGTH + 1 {
        s
    } else if label_pos > 0 {
        s.subrange(0, s.len() - (LABEL_LENGTH + 1))
    } else {
        s.subrange(LABEL_LENGTH + 1, s.len() as int)
    }
}

/// Builds the property tag of an entry.
pub fn generate_label(is_hidden: bool, is_file: bool, is_symlink: bool) -> (r: String)
    ensures
        r@ == label_of(is_hidden, is_file, is_symlink),
{
    let k: &str = if is_file { "F" } else { "D" };
    let s: &str = if is_symlink { "S" } else if is_file { "R" } else { "_" };
    let h: &str = if is_hidden { "H" } else { "R" };
    proof {
        reveal_strlit("F");
        reveal_strlit("D");
        reveal_strlit("S");
        reveal_strlit("R");
        reveal_strlit("_");
        reveal_strlit("H");
    }
    let mut ret = String::from_str(k);
    ret.append(s);
    ret.append(h);
    assert(ret@ =~= label_of(is_hidden, is_file, is_symlink));
    ret
}

/// Decorates `s_path` with the tag of the entry, at the end named by `label_pos`.
pub fn add_label(s_path: &String, label_pos: i8, is_hidden: bool, is_file: bool, is_symlink: bool) -> (r: String)
    ensures
        r@ == labeled(s_path@, label_pos, is_hidden, is_file, is_symlink),
{
    if label_pos == 0 {
        return s_path.clone();
    }
    let label = generate_label(is_hidden, is_file, is_symlink);
    proof {
        reveal_strlit(" ");
    }
    if label_pos > 0 {
        let mut ret = s_path.clone();
        ret.append(" ");
        ret.append(label.as_str());
        ret
    } else {
        let mut ret = label;
        ret.append(" ");
        ret.append(s_path.as_str());
        ret
    }
}

/// Takes the tag and its separator off the end of `s` named by `label_pos`.
pub fn remove_label_from_string(s: String, label_pos: i8) -> (r: String)
    ensures
        r@ == unlabeled(s@, label_pos),
{
    let n = s.as_str().unicode_len();
    if label_pos == 0 || n < LABEL_LENGTH + 1 {
        s
    } else if label_pos > 0 {
        String::from_str(s.as_str().substring_char(0, n - (LABEL_LENGTH + 1)))
    } else {
        String::from_str(s.as_str().substring_char(LABEL_LENGTH + 1, n))
    }
}

/// Stripping the tag from a decorated path gives back the path itself.
pub proof fn lemma_label_round_trip(
    path: Seq<char>,
    label_pos: i8,
    is_hidden: bool,
    is_file: bool,
    is_symlink: bool,
)
    ensures
        unlabeled(labeled(path, label_pos, is_hidden, is_file, is_symlink), label_pos) == path,
{
    let l = labeled(path, label_pos, is_hidden, is_file, is_symlink);
    if label_pos > 0 {
        assert(l.subrange(0, l.len() - (LABEL_LENGTH + 1)) =~= path);
    } else if label_pos < 0 {
        assert(l.subrange(LABEL_LENGTH + 1, l.len() as int) =~= path);
    }
}

} // verus!
