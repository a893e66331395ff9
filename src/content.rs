use vstd::prelude::*;
use vstd::string::*;

verus! {

/// The decimal digit character of `d`.
pub open spec fn digit_char(d: nat) -> char {
    if d == 0 { '0' }
    else if d == 1 { '1' }
    else if d == 2 { '2' }
    else if d == 3 { '3' }
    else if d == 4 { '4' }
    else if d == 5 { '5' }
    else if d == 6 { '6' }
    else if d == 7 { '7' }
    else if d == 8 { '8' }
    else { '9' }
}

/// The decimal notation of `n`, without leading zeros.
pub open spec fn decimal(n: nat) -> Seq<char>
    decreases n,
{
    if n < 10 {
        seq![digit_char(n)]
    } else {
        decimal(n / 10).push(digit_char(n % 10))
    }
}

/// One matching line as shown under its file: `N:text`.
pub open spec fn hit_line(h: (usize, String)) -> Seq<char> {
    decimal(h.0 as nat) + seq![':'] + h.1@
}

/// A file's path followed, one per line, by its matching lines.
pub open spec fn block(path: Seq<char>, hits: Seq<(usize, String)>) -> Seq<char>
    decreases hits.len(),
{
    if hits.len() == 0 {
        path
    } else {
        block(path, hits.drop_last()) + seq!['\n'] + hit_line(hits.last())
    }
}

fn digit_str(d: usize) -> (r: &'static str)
    requires
        d < 10,
    ensures
        r@ == seq![digit_char(d as nat)],
{
    proof {
        reveal_strlit("0");
        reveal_strlit("1");
        reveal_strlit("2");
        reveal_strlit("3");
        reveal_strlit("4");
        reveal_strlit("5");
        reveal_strlit("6");
        reveal_strlit("7");
        reveal_strlit("8");
        reveal_strlit("9");
    }
    if d == 0 { "0" }
    else if d == 1 { "1" }
    else if d == 2 { "2" }
    else if d == 3 { "3" }
    else if d == 4 { "4" }
    else if d == 5 { "5" }
    else if d == 6 { "6" }
    else if d == 7 { "7" }
    else if d == 8 { "8" }
    else { "9" }
}

/// The decimal notation of `n`.
pub fn decimal_string(n: usize) -> (r: String)
    ensures
        r@ == decimal(n as nat),
    decreases n,
{
    if n < 10 {
        String::from_str(digit_str(n))
    } else {
        let mut s = decimal_string(n / 10);
        s.append(digit_str(n % 10));
        s
    }
}

/// Renders a file's path followed by its matching lines, each as `N:text` on a
/// line of its own.
pub fn render_block(path: &String, hits: &Vec<(usize, String)>) -> (r: String)
    ensures
        r@ == block(path@, hits@),
{
    let mut out = path.clone();
    let mut k: usize = 0;
    assert(hits@.subrange(0, 0) =~= Seq::<(usize, String)>::empty());
    while k < hits.len()
        invariant
            k <= hits@.len(),
            out@ == block(path@, hits@.subrange(0, k as int)),
        decreases hits@.len() - k,
    {
        let h = &hits[k];
        proof {
            reveal_strlit("\n");
            reveal_strlit(":");
        }
        out.append("\n");
        let num = decimal_string(h.0);
        out.append(num.as_str());
        out.append(":");
        out.append(h.1.as_str());
        proof {
            let pre = hits@.subrange(0, k + 1);
            assert(pre.drop_last() =~= hits@.subrange(0, k as int));
            assert(pre.last() == hits@[k as int]);
            assert(out@ =~= block(path@, pre.drop_last()) + seq!['\n'] + hit_line(pre.last()));
        }
        k = k + 1;
    }
    assert(hits@.subrange(0, hits@.len() as int) =~= hits@);
    out
}

} // verus!
