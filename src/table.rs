//! A table of cells read from pipe-delimited text.
use vstd::prelude::*;
use vstd::arithmetic::div_mod::lemma_fundamental_div_mod_converse;
use crate::cell::{is_label_source, Cell};
use crate::error::SpreadsheetError;
use crate::grammar::address_of;
use crate::text::{chars_of, lower_text, lowercase_chars, same_chars, string_from_chars, trim_text, trimmed};

verus! {

/// The separator of cells within a line.
pub const DELIMITER: char = '|';

/// The pieces of `s` between occurrences of `sep` (one piece when `sep` is absent).
pub open spec fn split_char(s: Seq<char>, sep: char) -> Seq<Seq<char>>
    decreases s.len(),
{
    if s.len() == 0 {
        seq![Seq::empty()]
    } else {
        let r = split_char(s.drop_last(), sep);
        if s.last() == sep {
            r.push(Seq::empty())
        } else {
            r.update(r.len() - 1, r.last().push(s.last()))
        }
    }
}

/// A line without a trailing carriage return.
pub open spec fn strip_cr(l: Seq<char>) -> Seq<char> {
    if l.len() > 0 && l.last() == '\r' {
        l.drop_last()
    } else {
        l
    }
}

/// The lines of a text: split at line feeds, no empty line after a final
/// line feed, carriage returns before line feeds dropped.
pub open spec fn text_lines(s: Seq<char>) -> Seq<Seq<char>> {
    let p = split_char(s, '\n');
    let q = if p.last().len() == 0 {
        p.drop_last()
    } else {
        p
    };
    q.map_values(|l: Seq<char>| strip_cr(l))
}

/// The fields of a line, before trimming.
pub open spec fn line_fields(l: Seq<char>) -> Seq<Seq<char>> {
    split_char(l, DELIMITER)
}

/// The column count that a text's first line fixes (zero for no lines).
pub open spec fn expected_columns(s: Seq<char>) -> nat {
    if text_lines(s).len() == 0 {
        0
    } else {
        line_fields(text_lines(s)[0]).len()
    }
}

/// Whether every line of the text has as many fields as its first line.
pub open spec fn rows_match(s: Seq<char>) -> bool {
    forall|k: int| 0 <= k < text_lines(s).len() ==> #[trigger] line_fields(text_lines(s)[k]).len()
        == expected_columns(s)
}

/// The error that a text with mismatched rows gives: the first such line.
pub open spec fn is_first_mismatch(s: Seq<char>, e: SpreadsheetError) -> bool {
    let (line, expected, found) = match e {
        SpreadsheetError::TooManyColumns { line, expected, found } => (line, expected, found),
        SpreadsheetError::NotEnoughColumns { line, expected, found } => (line, expected, found),
    };
    let k = line - 1;
    &&& 1 <= line <= text_lines(s).len()
    &&& expected == expected_columns(s)
    &&& found == line_fields(text_lines(s)[k]).len()
    &&& found != expected
    &&& (e is TooManyColumns <==> found > expected)
    &&& forall|j: int| 0 <= j < k ==> #[trigger] line_fields(text_lines(s)[j]).len() == expected
}

proof fn lemma_split_nonempty(s: Seq<char>, sep: char)
    ensures
        split_char(s, sep).len() >= 1,
    decreases s.len(),
{
    if s.len() > 0 {
        lemma_split_nonempty(s.drop_last(), sep);
    }
}

/// The pieces of `v` between occurrences of `sep`.
pub fn split_chars(v: &Vec<char>, sep: char) -> (r: Vec<Vec<char>>)
    ensures
        r@.len() == split_char(v@, sep).len(),
        forall|j: int| 0 <= j < r@.len() ==> (#[trigger] r@[j])@ == split_char(v@, sep)[j],
{
    let mut pieces: Vec<Vec<char>> = Vec::new();
    let mut cur: Vec<char> = Vec::new();
    let mut i: usize = 0;
    assert(v@.subrange(0, 0) =~= Seq::<char>::empty());
    while i < v.len()
        invariant
            i <= v.len(),
            ({
                let sp = split_char(v@.subrange(0, i as int), sep);
                &&& sp.len() == pieces@.len() + 1
                &&& forall|j: int| 0 <= j < pieces@.len() ==> (#[trigger] pieces@[j])@ == sp[j]
                &&& cur@ == sp[pieces@.len() as int]
            }),
        decreases v.len() - i,
    {
        let ghost t = v@.subrange(0, i + 1);
        assert(t.drop_last() =~= v@.subrange(0, i as int));
        assert(t.last() == v@[i as int]);
        proof {
            lemma_split_nonempty(v@.subrange(0, i as int), sep);
        }
        if v[i] == sep {
            pieces.push(cur);
            cur = Vec::new();
        } else {
            cur.push(v[i]);
        }
        i += 1;
    }
    assert(v@.subrange(0, v.len() as int) =~= v@);
    pieces.push(cur);
    pieces
}

/// A line without its trailing carriage return.
fn strip_cr_chars(l: &Vec<char>) -> (r: Vec<char>)
    ensures
        r@ == strip_cr(l@),
{
    let mut out = l.clone();
    if out.len() > 0 && out[out.len() - 1] == '\r' {
        out.pop();
    }
    assert(out@ =~= strip_cr(l@));
    out
}

/// The lines of a text, as `text_lines` gives them.
pub fn split_lines(v: &Vec<char>) -> (r: Vec<Vec<char>>)
    ensures
        r@.len() == text_lines(v@).len(),
        forall|j: int| 0 <= j < r@.len() ==> (#[trigger] r@[j])@ == text_lines(v@)[j],
{
    let mut pieces = split_chars(v, '\n');
    proof {
        lemma_split_nonempty(v@, '\n');
    }
    let ghost p = split_char(v@, '\n');
    let ghost q = if p.last().len() == 0 {
        p.drop_last()
    } else {
        p
    };
    if pieces[pieces.len() - 1].len() == 0 {
        pieces.pop();
    }
    assert(pieces@.len() == q.len());
    let mut lines: Vec<Vec<char>> = Vec::new();
    let mut k: usize = 0;
    while k < pieces.len()
        invariant
            k <= pieces@.len() == q.len(),
            forall|j: int| 0 <= j < pieces@.len() ==> (#[trigger] pieces@[j])@ == q[j],
            lines@.len() == k,
            forall|j: int| 0 <= j < k ==> (#[trigger] lines@[j])@ == strip_cr(q[j]),
            q == (if p.last().len() == 0 {
                p.drop_last()
            } else {
                p
            }),
            p == split_char(v@, '\n'),
        decreases pieces@.len() - k,
    {
        lines.push(strip_cr_chars(&pieces[k]));
        k += 1;
    }
    lines
}

/// A grid of cells in row-major order.
#[derive(Debug, Clone)]
pub struct Table {
    pub cells: Vec<Cell>,
    pub num_columns: usize,
    pub num_rows: usize,
}

/// Lookup of a cell by its address or by a label name (see `Table::lookup`).
pub trait CellProvider {
    /// The cell with this address, or else the label cell with this name.
    fn cell(&self, hash: &str) -> Option<&Cell>;
}

impl Table {
    /// Row-major layout: cell `i` sits at row `i / num_columns + 1`, column
    /// `i % num_columns + 1`, under its canonical address.
    pub open spec fn wf(&self) -> bool {
        &&& self.cells@.len() == self.num_rows * self.num_columns
        &&& forall|i: int| 0 <= i < self.cells@.len() ==> {
            let c = #[trigger] self.cells@[i];
            &&& c.row == i / (self.num_columns as int) + 1
            &&& c.column == i % (self.num_columns as int) + 1
            &&& c.hash@ == address_of(c.column as nat, c.row as nat)
        }
    }

    /// Whether `c` holds the source text of row `r` and column `k` (0-based) of `s`.
    pub open spec fn holds_source(&self, s: Seq<char>) -> bool {
        forall|i: int| 0 <= i < self.cells@.len() ==> (#[trigger] self.cells@[i]).value@ == trimmed(
            line_fields(text_lines(s)[i / (self.num_columns as int)])[i % (self.num_columns as int)],
        )
    }

    /// The index in row-major order of `row`, `column`.
    pub open spec fn index_of(&self, row: int, column: int) -> int {
        (row - 1) * (self.num_columns as int) + (column - 1)
    }

    /// Whether `row`, `column` lies within the table.
    pub open spec fn contains(&self, row: int, column: int) -> bool {
        1 <= row <= self.num_rows && 1 <= column <= self.num_columns
    }

    /// Whether cell `i` is a label cell named `name` (compared in lower case).
    pub open spec fn is_label_named(&self, i: int, name: Seq<char>) -> bool {
        &&& is_label_source(self.cells@[i].value@)
        &&& lower_text(self.cells@[i].value@.drop_first()) == name
    }

    /// An empty table.
    pub fn new() -> (r: Table)
        ensures
            r.wf(),
            r.num_rows == 0,
            r.num_columns == 0,
    {
        Table { cells: Vec::new(), num_columns: 0, num_rows: 0 }
    }

    /// The cell at index `i` in row-major order.
    pub fn cell_by_index(&self, i: usize) -> (r: &Cell)
        requires
            i < self.cells@.len(),
        ensures
            *r == self.cells@[i as int],
    {
        &self.cells[i]
    }

    /// The number of cells.
    pub fn len(&self) -> (r: usize)
        ensures
            r == self.cells@.len(),
    {
        self.cells.len()
    }

    /// Reads a table from pipe-delimited text: one row per line, fields
    /// trimmed; every line must have as many fields as the first.
    pub fn from_string(content: &str) -> (r: Result<Table, SpreadsheetError>)
        ensures
            r is Ok <==> rows_match(content@),
            r matches Ok(t) ==> t.wf() && t.num_rows == text_lines(content@).len()
                && t.num_columns == expected_columns(content@) && t.holds_source(content@),
            r matches Err(e) ==> is_first_mismatch(content@, e),
    {
        let v = chars_of(content);
        let lines = split_lines(&v);
        let ghost ls = text_lines(content@);
        let expected: usize = if lines.len() > 0 {
            split_chars(&lines[0], DELIMITER).len()
        } else {
            0
        };
        let mut table = Table::new();
        table.num_columns = expected;
        let mut k: usize = 0;
        while k < lines.len()
            invariant
                v@ == content@,
                ls == text_lines(content@),
                k <= lines@.len() == ls.len(),
                forall|j: int| 0 <= j < lines@.len() ==> (#[trigger] lines@[j])@ == ls[j],
                expected == expected_columns(content@),
                table.num_columns == expected,
                table.num_rows == 0,
                table.cells@.len() == k * expected,
                forall|j: int| 0 <= j < k ==> #[trigger] line_fields(ls[j]).len() == expected,
                forall|i: int| 0 <= i < table.cells@.len() ==> {
                    let c = #[trigger] table.cells@[i];
                    &&& c.row == i / (expected as int) + 1
                    &&& c.column == i % (expected as int) + 1
                    &&& c.hash@ == address_of(c.column as nat, c.row as nat)
                    &&& c.value@ == trimmed(
                        line_fields(ls[i / (expected as int)])[i % (expected as int)],
                    )
                },
            decreases lines@.len() - k,
        {
            let fields = split_chars(&lines[k], DELIMITER);
            match Self::validate_column_count(k + 1, expected, fields.len()) {
                Ok(()) => {},
                Err(e) => {
                    proof {
                        assert(line_fields(ls[k as int]).len() == fields@.len());
                        assert(ls.len() > 0);
                        assert(expected == line_fields(ls[0]).len());
                    }
                    return Err(e);
                },
            }
            let mut c: usize = 0;
            while c < fields.len()
                invariant
                    0 <= k < lines@.len() == ls.len(),
                    k < usize::MAX,
                    fields@.len() == expected,
                    forall|j: int| 0 <= j < fields@.len() ==> (#[trigger] fields@[j])@ == line_fields(ls[k as int])[j],
                    table.num_columns == expected,
                    table.num_rows == 0,
                    table.cells@.len() == k * expected + c,
                    c <= expected,
                    forall|i: int| 0 <= i < table.cells@.len() ==> {
                        let x = #[trigger] table.cells@[i];
                        &&& x.row == i / (expected as int) + 1
                        &&& x.column == i % (expected as int) + 1
                        &&& x.hash@ == address_of(x.column as nat, x.row as nat)
                        &&& x.value@ == trimmed(
                            line_fields(ls[i / (expected as int)])[i % (expected as int)],
                        )
                    },
                decreases expected - c,
            {
                let text = string_from_chars(fields[c].as_slice());
                let value = trim_text(text.as_str());
                let cell = Cell::new(k + 1, c + 1, value.as_str());
                proof {
                    let i = (k * expected + c) as int;
                    assert(i == k * expected + c) by (nonlinear_arith)
                        requires i == (k * expected + c) as int;
                    lemma_fundamental_div_mod_converse(i, expected as int, k as int, c as int);
                }
                table.add_cell(cell);
                c += 1;
            }
            proof {
                assert((k + 1) * expected == k * expected + expected) by (nonlinear_arith);
            }
            k += 1;
        }
        table.num_rows = lines.len();
        proof {
            assert(table.cells@.len() == table.num_rows * table.num_columns);
        }
        Ok(table)
    }

    /// The index of the cell at `row`, `column`, if the table has one there.
    pub fn position(&self, row: usize, column: usize) -> (r: Option<usize>)
        requires
            self.wf(),
        ensures
            r is Some <==> 1 <= row <= self.num_rows && 1 <= column <= self.num_columns,
            r matches Some(i) ==> i < self.cells@.len() && self.cells@[i as int].row == row
                && self.cells@[i as int].column == column && i == self.index_of(row as int, column as int),
    {
        if row < 1 || row > self.num_rows || column < 1 || column > self.num_columns {
            return None;
        }
        let nc = self.num_columns;
        let total = self.cells.len();
        proof {
            let a = (row - 1) as int;
            let b = (column - 1) as int;
            assert(a * nc + b < (self.num_rows as int) * nc) by (nonlinear_arith)
                requires
                    0 <= a < self.num_rows,
                    0 <= b < nc,
            ;
            assert(a * nc + b >= 0) by (nonlinear_arith)
                requires
                    0 <= a,
                    0 <= b,
                    0 <= nc,
            ;
            lemma_fundamental_div_mod_converse(a * nc + b, nc as int, a, b);
            assert((row - 1) * nc <= a * nc + b);
        }
        let i = (row - 1) * nc + (column - 1);
        Some(i)
    }

    /// The cell at `row`, `column`.
    pub fn cell_at(&self, row: usize, column: usize) -> (r: Option<&Cell>)
        requires
            self.wf(),
        ensures
            r is Some <==> 1 <= row <= self.num_rows && 1 <= column <= self.num_columns,
            r matches Some(c) ==> c.row == row && c.column == column && *c == self.cells@[self.index_of(
                row as int,
                column as int,
            )],
    {
        match self.position(row, column) {
            Some(i) => Some(&self.cells[i]),
            None => None,
        }
    }

    /// The index of the last label cell named `name` (compared in lower case).
    pub fn label_position(&self, name: &Vec<char>) -> (r: Option<usize>)
        ensures
            r matches Some(i) ==> i < self.cells@.len() && self.is_label_named(i as int, name@)
                && forall|j: int| i < j < self.cells@.len() ==> !self.is_label_named(j, name@),
            r is None ==> forall|j: int| 0 <= j < self.cells@.len() ==> !self.is_label_named(j, name@),
    {
        let mut i = self.cells.len();
        while i > 0
            invariant
                i <= self.cells@.len(),
                forall|j: int| i <= j < self.cells@.len() ==> !self.is_label_named(j, name@),
            decreases i,
        {
            i -= 1;
            let v = chars_of(self.cells[i].value.as_str());
            if v.len() > 0 && v[0] == '!' {
                let mut tail: Vec<char> = Vec::new();
                let mut k: usize = 1;
                while k < v.len()
                    invariant
                        1 <= k <= v.len(),
                        tail@ == v@.subrange(1, k as int),
                    decreases v.len() - k,
                {
                    tail.push(v[k]);
                    assert(v@.subrange(1, k + 1) =~= v@.subrange(1, k as int).push(v@[k as int]));
                    k += 1;
                }
                assert(v@.subrange(1, v.len() as int) =~= v@.drop_first());
                let lowered = lowercase_chars(&tail);
                if same_chars(&lowered, name) {
                    return Some(i);
                }
            }
        }
        None
    }

    /// Checks that line `line` has the expected number of fields.
    fn validate_column_count(line: usize, expected: usize, found: usize) -> (r: Result<
        (),
        SpreadsheetError,
    >)
        ensures
            r is Ok <==> expected == found,
            r matches Err(e) ==> e == (if found > expected {
                SpreadsheetError::TooManyColumns { line, expected, found }
            } else {
                SpreadsheetError::NotEnoughColumns { line, expected, found }
            }),
    {
        if expected == found {
            Ok(())
        } else if found > expected {
            Err(SpreadsheetError::TooManyColumns { line, expected, found })
        } else {
            Err(SpreadsheetError::NotEnoughColumns { line, expected, found })
        }
    }

    /// Appends a cell.
    fn add_cell(&mut self, cell: Cell)
        ensures
            final(self).cells@ == old(self).cells@.push(cell),
            final(self).num_rows == old(self).num_rows,
            final(self).num_columns == old(self).num_columns,
    {
        self.cells.push(cell);
    }
}

impl Table {
    /// The cell whose address is `hash`, or else the last label cell named
    /// `hash` (compared in lower case).
    pub fn lookup(&self, hash: &str) -> (r: Option<&Cell>)
        ensures
            r matches Some(c) ==> exists|i: int|
                0 <= i < self.cells@.len() && *c == self.cells@[i] && (self.cells@[i].hash@ == hash@
                    || (self.is_label_named(i, hash@) && forall|j: int|
                    0 <= j < self.cells@.len() ==> self.cells@[j].hash@ != hash@)),
            r is None ==> forall|i: int|
                0 <= i < self.cells@.len() ==> self.cells@[i].hash@ != hash@
                    && !self.is_label_named(i, hash@),
    {
        let wanted = chars_of(hash);
        let mut i: usize = 0;
        while i < self.cells.len()
            invariant
                i <= self.cells@.len(),
                wanted@ == hash@,
                forall|j: int| 0 <= j < i ==> self.cells@[j].hash@ != hash@,
            decreases self.cells@.len() - i,
        {
            let h = chars_of(self.cells[i].hash.as_str());
            if same_chars(&h, &wanted) {
                return Some(&self.cells[i]);
            }
            i += 1;
        }
        match self.label_position(&wanted) {
            Some(k) => Some(&self.cells[k]),
            None => None,
        }
    }
}

impl CellProvider for Table {
    fn cell(&self, hash: &str) -> Option<&Cell> {
        self.lookup(hash)
    }
}

} // verus!
