//! Rendering a table's results as aligned text.
use vstd::prelude::*;
use crate::error::FormulaError;
use crate::table::Table;
use crate::text::{chars_of, push_char};
use crate::calculator::shown_text;

verus! {

/// The widest of the texts in column `c` among the first `n` texts of a
/// grid with `nc` columns.
pub open spec fn width_upto(rs: Seq<Seq<char>>, nc: nat, c: nat, n: nat) -> nat
    decreases n,
{
    if n == 0 {
        0
    } else {
        let w = width_upto(rs, nc, c, (n - 1) as nat);
        if (n - 1) as nat % nc == c && rs[n - 1].len() > w {
            rs[n - 1].len()
        } else {
            w
        }
    }
}

/// `n` spaces.
pub open spec fn spaces(n: nat) -> Seq<char> {
    Seq::new(n, |i: int| ' ')
}

/// The output for text `i`: padded and followed by ` | `, or followed by a
/// line feed at the end of a row.
pub open spec fn rendered_cell(rs: Seq<Seq<char>>, nc: nat, i: int) -> Seq<char> {
    if i % (nc as int) == nc - 1 {
        rs[i] + seq!['\n']
    } else {
        rs[i] + spaces((width_upto(rs, nc, (i % (nc as int)) as nat, rs.len()) - rs[i].len()) as nat)
            + seq![' ', '|', ' ']
    }
}

/// The output for the first `n` texts.
pub open spec fn rendered_upto(rs: Seq<Seq<char>>, nc: nat, n: nat) -> Seq<char>
    decreases n,
{
    if n == 0 {
        Seq::empty()
    } else {
        rendered_upto(rs, nc, (n - 1) as nat) + rendered_cell(rs, nc, n - 1)
    }
}

/// The whole output: a blank line, the rows, a blank line.
pub open spec fn rendered(rs: Seq<Seq<char>>, nc: nat) -> Seq<char> {
    seq!['\n'] + rendered_upto(rs, nc, rs.len()) + seq!['\n']
}

proof fn lemma_width_bound(rs: Seq<Seq<char>>, nc: nat, c: nat, n: nat, i: int)
    requires
        0 <= i < n <= rs.len(),
        nc > 0,
        i % (nc as int) == c,
    ensures
        rs[i].len() <= width_upto(rs, nc, c, n),
    decreases n,
{
    if i < n - 1 {
        lemma_width_bound(rs, nc, c, (n - 1) as nat, i);
    }
}

/// Renders texts given row by row, `num_columns` to a row, as `rendered` says.
pub fn render(results: &Vec<Vec<char>>, num_columns: usize) -> (r: String)
    requires
        num_columns > 0,
    ensures
        r@ == rendered(results@.map_values(|x: Vec<char>| x@), num_columns as nat),
{
    let ghost rs = results@.map_values(|x: Vec<char>| x@);
    let nc = num_columns;
    let mut widths: Vec<usize> = Vec::new();
    let mut c: usize = 0;
    while c < nc
        invariant
            c <= nc,
            widths@.len() == c,
            forall|j: int| 0 <= j < c ==> widths@[j] == 0,
        decreases nc - c,
    {
        widths.push(0);
        c += 1;
    }
    let mut i: usize = 0;
    while i < results.len()
        invariant
            nc == num_columns > 0,
            i <= results@.len(),
            rs == results@.map_values(|x: Vec<char>| x@),
            widths@.len() == nc,
            forall|j: int| 0 <= j < nc ==> widths@[j] == width_upto(rs, nc as nat, j as nat, i as nat),
        decreases results@.len() - i,
    {
        let k = i % nc;
        let len = results[i].len();
        if len > widths[k] {
            widths.set(k, len);
        }
        assert forall|j: int| 0 <= j < nc implies widths@[j] == width_upto(rs, nc as nat, j as nat, (i + 1) as nat) by {
            assert(rs[i as int] == results@[i as int]@);
        }
        i += 1;
    }
    let mut out = String::new();
    push_char(&mut out, '\n');
    let mut i: usize = 0;
    while i < results.len()
        invariant
            nc == num_columns > 0,
            i <= results@.len(),
            rs == results@.map_values(|x: Vec<char>| x@),
            widths@.len() == nc,
            forall|j: int| 0 <= j < nc ==> widths@[j] == width_upto(rs, nc as nat, j as nat, rs.len()),
            out@ == seq!['\n'] + rendered_upto(rs, nc as nat, i as nat),
        decreases results@.len() - i,
    {
        let ghost before = out@;
        let k = i % nc;
        let cell = &results[i];
        assert(rs[i as int] == cell@);
        let mut j: usize = 0;
        while j < cell.len()
            invariant
                j <= cell@.len(),
                out@ == before + cell@.subrange(0, j as int),
            decreases cell@.len() - j,
        {
            push_char(&mut out, cell[j]);
            assert(cell@.subrange(0, j + 1) =~= cell@.subrange(0, j as int).push(cell@[j as int]));
            j += 1;
        }
        assert(cell@.subrange(0, cell@.len() as int) =~= cell@);
        if k == nc - 1 {
            push_char(&mut out, '\n');
        } else {
            proof {
                lemma_width_bound(rs, nc as nat, k as nat, rs.len(), i as int);
            }
            let pad = widths[k] - cell.len();
            let ghost mid = out@;
            let mut p: usize = 0;
            while p < pad
                invariant
                    p <= pad,
                    out@ == mid + spaces(p as nat),
                decreases pad - p,
            {
                push_char(&mut out, ' ');
                assert(spaces((p + 1) as nat) =~= spaces(p as nat).push(' '));
                p += 1;
            }
            push_char(&mut out, ' ');
            push_char(&mut out, '|');
            push_char(&mut out, ' ');
        }
        assert(out@ =~= seq!['\n'] + rendered_upto(rs, nc as nat, (i + 1) as nat));
        i += 1;
    }
    push_char(&mut out, '\n');
    assert(results@.len() == rs.len());
    out
}

impl Table {
    /// The rendered table: every cell's result, columns padded to their
    /// widest result.
    pub fn print(&self) -> (r: Result<String, FormulaError>)
        requires
            self.wf(),
        ensures
            r matches Ok(s) ==> exists|rs: Seq<Seq<char>>| #![auto] rs.len() == self.cells@.len() && (
            forall|i: int| 0 <= i < rs.len() ==> shown_text(*self, self.cells@[i]) == Some(rs[i]))
                && s@ == rendered(rs, self.num_columns as nat),
            (forall|i: int| 0 <= i < self.cells@.len() ==> (#[trigger] shown_text(
                *self,
                self.cells@[i],
            )) is Some) ==> r is Ok,
    {
        let mut results: Vec<Vec<char>> = Vec::new();
        let mut i: usize = 0;
        let ghost r_all_shown = forall|j: int| 0 <= j < self.cells@.len() ==> (#[trigger] shown_text(
            *self,
            self.cells@[j],
        )) is Some;
        while i < self.len()
            invariant
                self.wf(),
                i <= self.cells@.len(),
                r_all_shown == (forall|j: int| 0 <= j < self.cells@.len() ==> (#[trigger] shown_text(
                    *self,
                    self.cells@[j],
                )) is Some),
                results@.len() == i,
                forall|j: int| 0 <= j < i ==> shown_text(*self, self.cells@[j]) == Some(
                    #[trigger] results@[j]@,
                ),
            decreases self.cells@.len() - i,
        {
            let t = match self.cell_by_index(i).result(self) {
                Ok(t) => t,
                Err(e) => {
                    assert(shown_text(*self, self.cells@[i as int]) is None);
                    return Err(e);
                },
            };
            results.push(chars_of(t.as_str()));
            i += 1;
        }
        if self.num_columns == 0 {
            let mut out = String::new();
            push_char(&mut out, '\n');
            push_char(&mut out, '\n');
            proof {
                assert(results@.len() == 0);
                let rs = results@.map_values(|x: Vec<char>| x@);
                assert(out@ =~= rendered(rs, 0));
            }
            return Ok(out);
        }
        let out = render(&results, self.num_columns);
        proof {
            let rs = results@.map_values(|x: Vec<char>| x@);
            assert(rs.len() == self.cells@.len());
        }
        Ok(out)
    }
}

} // verus!
