//! The column-name codec: `1 -> "A"`, `26 -> "Z"`, `27 -> "AA"`, ...
use vstd::prelude::*;
use crate::text::string_from_chars;

verus! {

/// The capital letter with the given offset from `'A'`.
pub open spec fn letter(d: nat) -> char {
    ('A' as u32 + d) as char
}

/// Whether `c` is one of `'A'..='Z'`.
pub open spec fn is_capital(c: char) -> bool {
    'A' <= c && c <= 'Z'
}

/// Whether every character of `s` is a capital letter.
pub open spec fn all_capitals(s: Seq<char>) -> bool {
    forall|i: int| 0 <= i < s.len() ==> is_capital(#[trigger] s[i])
}

/// The base-26 letter name of column `n` (empty for `0`).
pub open spec fn column_letters(n: nat) -> Seq<char>
    decreases n,
{
    if n == 0 {
        Seq::empty()
    } else {
        column_letters(((n - 1) as nat / 26) as nat).push(letter(((n - 1) as nat % 26) as nat))
    }
}

/// The column index that a letter name stands for.
pub open spec fn column_index(s: Seq<char>) -> nat
    decreases s.len(),
{
    if s.len() == 0 {
        0
    } else {
        column_index(s.drop_last()) * 26 + ((s.last() as u32 - 'A' as u32) + 1) as nat
    }
}

/// Appending a capital letter keeps a name of capitals.
pub proof fn lemma_capitals_push(s: Seq<char>, c: char)
    requires
        all_capitals(s),
        is_capital(c),
    ensures
        all_capitals(s.push(c)),
{
    assert forall|i: int| 0 <= i < s.push(c).len() implies is_capital(#[trigger] s.push(c)[i]) by {
        if i < s.len() {
            assert(s.push(c)[i] == s[i]);
        }
    }
}

proof fn lemma_letters_capital(n: nat)
    ensures
        all_capitals(column_letters(n)),
        n > 0 ==> column_letters(n).len() > 0,
    decreases n,
{
    if n > 0 {
        lemma_letters_capital(((n - 1) as nat / 26) as nat);
    }
}

/// Decoding the name of a column gives back its index.
pub proof fn lemma_column_round_trip(n: nat)
    ensures
        column_index(column_letters(n)) == n,
        all_capitals(column_letters(n)),
    decreases n,
{
    lemma_letters_capital(n);
    if n > 0 {
        let q = ((n - 1) as nat / 26) as nat;
        lemma_column_round_trip(q);
        let s = column_letters(n);
        assert(s.drop_last() =~= column_letters(q));
    }
}

proof fn lemma_index_prefix_bound(s: Seq<char>, k: int)
    requires
        0 <= k <= s.len(),
        all_capitals(s),
    ensures
        column_index(s.subrange(0, k)) <= column_index(s),
    decreases s.len() - k,
{
    if k < s.len() {
        lemma_index_prefix_bound(s, k + 1);
        let t = s.subrange(0, k + 1);
        assert(t.drop_last() =~= s.subrange(0, k));
    } else {
        assert(s.subrange(0, k) =~= s);
    }
}

/// Every name made of capital letters is the name of the column it stands for.
pub proof fn lemma_letters_of_index(s: Seq<char>)
    requires
        all_capitals(s),
    ensures
        column_letters(column_index(s)) == s,
    decreases s.len(),
{
    if s.len() > 0 {
        let t = s.drop_last();
        assert(all_capitals(t)) by {
            assert forall|i: int| 0 <= i < t.len() implies is_capital(t[i]) by {
                assert(t[i] == s[i]);
            }
        }
        lemma_letters_of_index(t);
        let q = column_index(t);
        let c = s.last();
        assert(is_capital(s[s.len() - 1]));
        let d = (c as u32 - 'A' as u32) as nat;
        let n = column_index(s);
        assert(n == q * 26 + d + 1);
        assert(((n - 1) as nat / 26) as nat == q && ((n - 1) as nat % 26) as nat == d) by (nonlinear_arith)
            requires
                n == q * 26 + d + 1,
                d < 26,
        ;
        assert(letter(d) == c);
        assert(s =~= t.push(c));
    }
}

/// The capital letter `d` places after `'A'`.
fn char_from_offset(d: u32) -> (c: char)
    requires
        d < 26,
    ensures
        c == letter(d as nat),
        is_capital(c),
{
    (65u8 + d as u8) as char
}

/// The letter name of a 1-based column index.
pub fn get_column_name(column: usize) -> (r: String)
    ensures
        r@ == column_letters(column as nat),
{
    let mut rev: Vec<char> = Vec::new();
    let mut n = column;
    while n > 0
        invariant
            column_letters(column as nat) == column_letters(n as nat) + rev@,
        decreases n,
    {
        let rem = (n - 1) % 26;
        let c = char_from_offset(rem as u32);
        proof {
            let q = ((n - 1) as nat / 26) as nat;
            assert(column_letters(n as nat) == column_letters(q).push(c));
            assert(column_letters(q).push(c) + rev@ =~= column_letters(q) + seq![c].add(rev@));
        }
        let ghost before = rev@;
        rev.insert(0, c);
        assert(rev@ =~= seq![c].add(before));
        n = (n - 1) / 26;
    }
    assert(column_letters(0) + rev@ =~= rev@);
    string_from_chars(rev.as_slice())
}

/// The 1-based column index of a letter name.
pub fn get_column_number(column: &str) -> (r: usize)
    requires
        all_capitals(column@),
        column_index(column@) <= usize::MAX,
    ensures
        r == column_index(column@),
{
    let v = crate::text::chars_of(column);
    column_number_of(&v)
}

/// The 1-based column index of a letter name given as characters.
pub fn column_number_of(v: &[char]) -> (r: usize)
    requires
        all_capitals(v@),
        column_index(v@) <= usize::MAX,
    ensures
        r == column_index(v@),
{
    let mut n: usize = 0;
    let mut i: usize = 0;
    while i < v.len()
        invariant
            i <= v.len(),
            all_capitals(v@),
            column_index(v@) <= usize::MAX,
            n == column_index(v@.subrange(0, i as int)),
        decreases v.len() - i,
    {
        let c = v[i];
        proof {
            let t = v@.subrange(0, i + 1);
            assert(t.drop_last() =~= v@.subrange(0, i as int));
            assert(is_capital(v@[i as int]));
            lemma_index_prefix_bound(v@, i + 1);
        }
        n = n * 26 + ((c as u32 - 'A' as u32) + 1) as usize;
        i += 1;
    }
    assert(v@.subrange(0, v.len() as int) =~= v@);
    n
}

/// The column index of a letter name, or `None` where it exceeds `usize`.
pub fn checked_column_number(v: &[char]) -> (r: Option<usize>)
    requires
        all_capitals(v@),
    ensures
        r matches Some(n) ==> n == column_index(v@),
        r is None ==> column_index(v@) > usize::MAX,
{
    let mut n: usize = 0;
    let mut i: usize = 0;
    while i < v.len()
        invariant
            i <= v.len(),
            all_capitals(v@),
            n == column_index(v@.subrange(0, i as int)),
        decreases v.len() - i,
    {
        let c = v[i];
        proof {
            let t = v@.subrange(0, i + 1);
            assert(t.drop_last() =~= v@.subrange(0, i as int));
            assert(is_capital(v@[i as int]));
            lemma_index_prefix_bound(v@, i + 1);
        }
        let d = ((c as u32 - 'A' as u32) + 1) as usize;
        let m = match n.checked_mul(26) {
            Some(m) => m,
            None => {
                return None;
            },
        };
        n = match m.checked_add(d) {
            Some(x) => x,
            None => {
                return None;
            },
        };
        i += 1;
    }
    assert(v@.subrange(0, v.len() as int) =~= v@);
    Some(n)
}

} // verus!
