//! Lines of a text that contain a pattern.
use vstd::prelude::*;
use crate::table::{split_lines, text_lines};
use crate::text::{chars_of, push_char};

verus! {

/// Whether `p` occurs in `s` at position `i`.
pub open spec fn occurs_at(s: Seq<char>, p: Seq<char>, i: int) -> bool {
    0 <= i && i + p.len() <= s.len() && s.subrange(i, i + p.len()) == p
}

/// Whether `p` occurs in `s` (the empty pattern occurs everywhere).
pub open spec fn contains(s: Seq<char>, p: Seq<char>) -> bool {
    exists|i: int| occurs_at(s, p, i)
}

/// Each line of `ls` that contains `p`, followed by a line feed.
pub open spec fn matching_lines(ls: Seq<Seq<char>>, p: Seq<char>) -> Seq<char>
    decreases ls.len(),
{
    if ls.len() == 0 {
        Seq::empty()
    } else {
        matching_lines(ls.drop_last(), p) + if contains(ls.last(), p) {
            ls.last().push('\n')
        } else {
            Seq::empty()
        }
    }
}

/// Whether `p` occurs in `s`.
fn occurs(s: &Vec<char>, p: &Vec<char>) -> (r: bool)
    ensures
        r == contains(s@, p@),
{
    if p.len() > s.len() {
        assert forall|i: int| !occurs_at(s@, p@, i) by {}
        return false;
    }
    let sl = s.len();
    let mut i: usize = 0;
    while i <= s.len() - p.len()
        invariant
            sl == s@.len(),
            p@.len() <= s@.len(),
            forall|k: int| 0 <= k < i ==> !occurs_at(s@, p@, k),
        decreases s.len() - p.len() + 1 - i,
    {
        let mut j: usize = 0;
        while j < p.len() && s[i + j] == p[j]
            invariant
                sl == s@.len(),
                i + p@.len() <= s@.len(),
                j <= p@.len(),
                forall|k: int| 0 <= k < j ==> s@[i + k] == p@[k],
            decreases p.len() - j,
        {
            j += 1;
        }
        if j == p.len() {
            assert(s@.subrange(i as int, i + p@.len()) =~= p@);
            assert(occurs_at(s@, p@, i as int));
            return true;
        }
        assert(s@.subrange(i as int, i + p@.len())[j as int] != p@[j as int]);
        i += 1;
    }
    assert forall|k: int| !occurs_at(s@, p@, k) by {
        if 0 <= k && k + p@.len() <= s@.len() {
            assert(k < i);
        }
    }
    false
}

/// The lines of `content` that contain `pattern`, each followed by a line feed.
pub fn find_matches(content: &str, pattern: &str) -> (r: String)
    ensures
        r@ == matching_lines(text_lines(content@), pattern@),
{
    let v = chars_of(content);
    let p = chars_of(pattern);
    let lines = split_lines(&v);
    let ghost ls = text_lines(content@);
    let mut out = String::new();
    let mut k: usize = 0;
    assert(ls.subrange(0, 0) =~= Seq::<Seq<char>>::empty());
    while k < lines.len()
        invariant
            p@ == pattern@,
            ls == text_lines(content@),
            lines@.len() == ls.len(),
            forall|j: int| 0 <= j < lines@.len() ==> (#[trigger] lines@[j])@ == ls[j],
            k <= lines@.len(),
            out@ == matching_lines(ls.subrange(0, k as int), pattern@),
        decreases lines@.len() - k,
    {
        let line = &lines[k];
        proof {
            let t = ls.subrange(0, k + 1);
            assert(t.drop_last() =~= ls.subrange(0, k as int));
            assert(t.last() == line@);
        }
        if occurs(line, &p) {
            let ghost before = out@;
            let mut j: usize = 0;
            while j < line.len()
                invariant
                    j <= line@.len(),
                    out@ == before + line@.subrange(0, j as int),
                decreases line@.len() - j,
            {
                push_char(&mut out, line[j]);
                assert(line@.subrange(0, j + 1) =~= line@.subrange(0, j as int).push(line@[j as int]));
                j += 1;
            }
            push_char(&mut out, '\n');
            assert(out@ =~= before + line@.push('\n'));
        } else {
            assert(out@ + Seq::<char>::empty() =~= out@);
        }
        k += 1;
    }
    assert(ls.subrange(0, lines@.len() as int) =~= ls);
    out
}

} // verus!
