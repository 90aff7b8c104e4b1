//! Values of evaluated formulas and the built-in functions on them.
use vstd::prelude::*;
use crate::decimal::{decimal_text, le, le_value, number_value, parse_number, plus, Decimal};
use crate::error::FormulaError;
use crate::lexer::is_formula_source;
use crate::text::{chars_of, push_char, string_from_chars, trimmed};

verus! {

/// What a formula evaluates to.
#[derive(Debug, PartialEq)]
pub enum Value {
    Number(Decimal),
    String(String),
    /// Several values, each a number or a string.
    Collection(Vec<Value>),
}

/// The text of a number or string (empty for a collection).
pub open spec fn scalar_text(v: Value) -> Seq<char> {
    match v {
        Value::Number(d) => decimal_text(d),
        Value::String(s) => s@,
        Value::Collection(_) => Seq::empty(),
    }
}

/// Whether `v` is the string `s`.
pub open spec fn is_text_value(v: Value, s: Seq<char>) -> bool {
    match v {
        Value::String(t) => t@ == s,
        _ => false,
    }
}

/// Texts joined with single spaces.
pub open spec fn joined(ts: Seq<Seq<char>>) -> Seq<char>
    decreases ts.len(),
{
    if ts.len() == 0 {
        Seq::empty()
    } else if ts.len() == 1 {
        ts[0]
    } else {
        joined(ts.drop_last()) + seq![' '] + ts.last()
    }
}

/// The text of a value: a collection gives the texts of its members joined
/// with spaces.
pub open spec fn value_text(v: Value) -> Seq<char> {
    match v {
        Value::Collection(vs) => joined(vs@.map_values(|x: Value| scalar_text(x))),
        _ => scalar_text(v),
    }
}

/// The texts of values concatenated.
pub open spec fn concatenated(vs: Seq<Value>) -> Seq<char>
    decreases vs.len(),
{
    if vs.len() == 0 {
        Seq::empty()
    } else {
        concatenated(vs.drop_last()) + value_text(vs.last())
    }
}

/// The number of a number or string; text that is no number counts as zero.
pub open spec fn scalar_number(v: Value) -> Decimal {
    match v {
        Value::Number(d) => d,
        Value::String(s) => number_value(s@),
        Value::Collection(_) => Decimal { mantissa: 0, scale: 0 },
    }
}

/// The numbers that a value contributes to a sum: one, or one per member.
pub open spec fn value_numbers(v: Value) -> Seq<Decimal> {
    match v {
        Value::Collection(vs) => vs@.map_values(|x: Value| scalar_number(x)),
        _ => seq![scalar_number(v)],
    }
}

/// The numbers of all values, collections flattened.
pub open spec fn flat_numbers(vs: Seq<Value>) -> Seq<Decimal>
    decreases vs.len(),
{
    if vs.len() == 0 {
        Seq::empty()
    } else {
        flat_numbers(vs.drop_last()) + value_numbers(vs.last())
    }
}

/// The sum of numbers, added from the left; `None` where a partial sum leaves the range.
pub open spec fn total(ds: Seq<Decimal>) -> Option<Decimal>
    decreases ds.len(),
{
    if ds.len() == 0 {
        Some(Decimal { mantissa: 0, scale: 0 })
    } else {
        match total(ds.drop_last()) {
            Some(a) => plus(a, ds.last()),
            None => None,
        }
    }
}

/// The number that a value stands for in arithmetic: a collection counts as
/// the sum of its members.
pub open spec fn number_of_value(v: Value) -> Option<Decimal> {
    match v {
        Value::Collection(_) => total(value_numbers(v)),
        _ => Some(scalar_number(v)),
    }
}

/// The text of a truth value.
pub open spec fn bool_text(b: bool) -> Seq<char> {
    if b {
        "true"@
    } else {
        "false"@
    }
}

/// The pieces of `s` between occurrences of the separator `d`.
pub uninterp spec fn split_of(s: Seq<char>, d: Seq<char>) -> Seq<Seq<char>>;

/// Relies on `str::split` with a string pattern: the pieces of `s` between the
/// occurrences of `d`.
#[verifier::external_body]
pub(crate) fn split_text(s: &str, d: &str) -> (r: Vec<String>)
    ensures
        r@.len() == split_of(s@, d@).len(),
        forall|i: int| 0 <= i < r@.len() ==> (#[trigger] r@[i])@ == split_of(s@, d@)[i],
{
    s.split(d).map(|p| p.to_string()).collect()
}

/// Whether `v` is what `split` gives for the text `s` and separator `d`:
/// one member per piece, and a piece that is no formula gives its trimmed text.
pub open spec fn is_split_result(v: Value, s: Seq<char>, d: Seq<char>) -> bool {
    match v {
        Value::Collection(vs) => {
            &&& vs@.len() == split_of(s, d).len()
            &&& forall|i: int| 0 <= i < vs@.len() ==> !is_formula_source(split_of(s, d)[i])
                ==> is_text_value(#[trigger] vs@[i], trimmed(split_of(s, d)[i]))
            &&& forall|i: int| 0 <= i < vs@.len() ==> !(#[trigger] vs@[i] is Collection)
        },
        _ => false,
    }
}

/// Summing the result of `split` adds the numbers of its trimmed pieces.
pub proof fn lemma_sum_of_split(v: Value, s: Seq<char>, d: Seq<char>)
    requires
        is_split_result(v, s, d),
        forall|i: int| 0 <= i < split_of(s, d).len() ==> !is_formula_source(#[trigger] split_of(s, d)[i]),
    ensures
        total(flat_numbers(seq![v])) == total(
            split_of(s, d).map_values(|p: Seq<char>| number_value(trimmed(p))),
        ),
{
    let ps = split_of(s, d);
    assert(seq![v].drop_last() =~= Seq::<Value>::empty());
    assert(seq![v].last() == v);
    assert(flat_numbers(Seq::<Value>::empty()) == Seq::<Decimal>::empty());
    assert(flat_numbers(seq![v]) =~= value_numbers(v));
    if let Value::Collection(vs) = v {
        assert forall|i: int| 0 <= i < ps.len() implies #[trigger] value_numbers(v)[i]
            == number_value(trimmed(ps[i])) by {
            assert(!is_formula_source(ps[i]));
            assert(is_text_value(vs@[i], trimmed(ps[i])));
        }
        assert(value_numbers(v) =~= ps.map_values(|p: Seq<char>| number_value(trimmed(p))));
    }
}

/// Applying `text` to the text of a value changes nothing.
pub proof fn lemma_text_idempotent(v: Value, once: Value, twice: Value)
    requires
        is_text_value(once, value_text(v)),
        is_text_value(twice, value_text(once)),
    ensures
        value_text(twice) == value_text(once),
{
}

/// The number that a text stands for: what it spells, else zero.
pub fn text_number(s: &String) -> (r: Decimal)
    ensures
        r == number_value(s@),
{
    let v = chars_of(s.as_str());
    match parse_number(&v) {
        Some(d) => d,
        None => Decimal::zero(),
    }
}

/// The number of a number or string (zero for a collection).
pub fn scalar_number_of(v: &Value) -> (r: Decimal)
    ensures
        r == scalar_number(*v),
{
    match v {
        Value::Number(d) => *d,
        Value::String(s) => text_number(s),
        Value::Collection(_) => Decimal::zero(),
    }
}

/// Adds the numbers of `v` to `acc`.
fn add_numbers(acc: Option<Decimal>, prefix: Ghost<Seq<Decimal>>, v: &Value) -> (r: Option<Decimal>)
    requires
        acc == total(prefix@),
    ensures
        r == total(prefix@ + value_numbers(*v)),
{
    let ghost ns = value_numbers(*v);
    match v {
        Value::Collection(vs) => {
            let mut a = acc;
            let mut i: usize = 0;
            while i < vs.len()
                invariant
                    i <= vs@.len(),
                    ns == vs@.map_values(|x: Value| scalar_number(x)),
                    a == total(prefix@ + ns.subrange(0, i as int)),
                decreases vs@.len() - i,
            {
                let n = scalar_number_of(&vs[i]);
                proof {
                    let grown = prefix@ + ns.subrange(0, i + 1);
                    assert(grown.drop_last() =~= prefix@ + ns.subrange(0, i as int));
                    assert(grown.last() == n);
                }
                a = match a {
                    Some(x) => crate::decimal::add(x, n),
                    None => None,
                };
                i += 1;
            }
            assert(ns.subrange(0, vs@.len() as int) =~= ns);
            a
        },
        _ => {
            let n = scalar_number_of(v);
            proof {
                let grown = prefix@ + ns;
                assert(grown.drop_last() =~= prefix@);
            }
            match acc {
                Some(x) => crate::decimal::add(x, n),
                None => None,
            }
        },
    }
}

/// The sum of all numbers of the values, collections flattened.
pub fn sum_values(values: &Vec<Value>) -> (r: Result<Decimal, FormulaError>)
    ensures
        match total(flat_numbers(values@)) {
            Some(d) => r == Ok::<Decimal, FormulaError>(d),
            None => r == Err::<Decimal, FormulaError>(FormulaError::Overflow),
        },
{
    let mut acc: Option<Decimal> = Some(Decimal::zero());
    let mut i: usize = 0;
    assert(values@.subrange(0, 0) =~= Seq::<Value>::empty());
    while i < values.len()
        invariant
            i <= values@.len(),
            acc == total(flat_numbers(values@.subrange(0, i as int))),
        decreases values@.len() - i,
    {
        proof {
            let t = values@.subrange(0, i + 1);
            assert(t.drop_last() =~= values@.subrange(0, i as int));
        }
        acc = add_numbers(acc, Ghost(flat_numbers(values@.subrange(0, i as int))), &values[i]);
        i += 1;
    }
    assert(values@.subrange(0, values@.len() as int) =~= values@);
    match acc {
        Some(d) => Ok(d),
        None => Err(FormulaError::Overflow),
    }
}

/// The number that a value stands for in arithmetic.
pub fn value_number(v: &Value) -> (r: Result<Decimal, FormulaError>)
    ensures
        match number_of_value(*v) {
            Some(d) => r == Ok::<Decimal, FormulaError>(d),
            None => r == Err::<Decimal, FormulaError>(FormulaError::Overflow),
        },
{
    match v {
        Value::Collection(_) => {
            let zero = Some(Decimal::zero());
            assert(total(Seq::<Decimal>::empty()) == zero);
            let r = add_numbers(zero, Ghost(Seq::empty()), v);
            assert(Seq::<Decimal>::empty() + value_numbers(*v) =~= value_numbers(*v));
            match r {
                Some(d) => Ok(d),
                None => Err(FormulaError::Overflow),
            }
        },
        _ => Ok(scalar_number_of(v)),
    }
}

/// Appends characters to a string.
fn push_all(out: &mut String, v: &Vec<char>)
    ensures
        final(out)@ == old(out)@ + v@,
{
    let mut i: usize = 0;
    while i < v.len()
        invariant
            i <= v@.len(),
            out@ == old(out)@ + v@.subrange(0, i as int),
        decreases v@.len() - i,
    {
        push_char(out, v[i]);
        assert(v@.subrange(0, i + 1) =~= v@.subrange(0, i as int).push(v@[i as int]));
        i += 1;
    }
    assert(v@.subrange(0, v@.len() as int) =~= v@);
}

/// Appends the text of a number or string.
fn push_scalar(out: &mut String, v: &Value)
    ensures
        final(out)@ == old(out)@ + scalar_text(*v),
{
    match v {
        Value::Number(d) => {
            let t = d.to_text();
            push_all(out, &t);
        },
        Value::String(s) => {
            let t = chars_of(s.as_str());
            push_all(out, &t);
        },
        Value::Collection(_) => {
            assert(old(out)@ + Seq::<char>::empty() =~= old(out)@);
        },
    }
}

/// Appends the text of a value.
fn push_value(out: &mut String, v: &Value)
    ensures
        final(out)@ == old(out)@ + value_text(*v),
{
    match v {
        Value::Collection(vs) => {
            let ghost ts = vs@.map_values(|x: Value| scalar_text(x));
            let ghost start = out@;
            let mut i: usize = 0;
            assert(ts.subrange(0, 0) =~= Seq::<Seq<char>>::empty());
            while i < vs.len()
                invariant
                    i <= vs@.len(),
                    ts == vs@.map_values(|x: Value| scalar_text(x)),
                    out@ == start + joined(ts.subrange(0, i as int)),
                decreases vs@.len() - i,
            {
                let ghost before = out@;
                if i > 0 {
                    push_char(out, ' ');
                }
                push_scalar(out, &vs[i]);
                proof {
                    let t1 = ts.subrange(0, i + 1);
                    assert(t1.drop_last() =~= ts.subrange(0, i as int));
                    if i == 0 {
                        assert(joined(t1) == t1[0]);
                        assert(out@ =~= start + joined(t1));
                    } else {
                        assert(out@ =~= start + joined(t1));
                    }
                }
                i += 1;
            }
            assert(ts.subrange(0, vs@.len() as int) =~= ts);
        },
        _ => push_scalar(out, v),
    }
}

/// The text of a value (the `text` built-in).
pub fn text_value(v: &Value) -> (r: String)
    ensures
        r@ == value_text(*v),
{
    let mut out = String::new();
    push_value(&mut out, v);
    assert(Seq::<char>::empty() + value_text(*v) =~= value_text(*v));
    out
}

/// The texts of the values concatenated (the `concat` built-in).
pub fn concat_values(values: &Vec<Value>) -> (r: String)
    ensures
        r@ == concatenated(values@),
{
    let mut out = String::new();
    let mut i: usize = 0;
    assert(values@.subrange(0, 0) =~= Seq::<Value>::empty());
    while i < values.len()
        invariant
            i <= values@.len(),
            out@ == concatenated(values@.subrange(0, i as int)),
        decreases values@.len() - i,
    {
        push_value(&mut out, &values[i]);
        proof {
            let t = values@.subrange(0, i + 1);
            assert(t.drop_last() =~= values@.subrange(0, i as int));
        }
        i += 1;
    }
    assert(values@.subrange(0, values@.len() as int) =~= values@);
    out
}

/// `"true"` or `"false"`: whether `a >= b` (`gte`), or `a <= b` (`lte` when
/// `greater` is false).
pub fn compare_values(a: &Value, b: &Value, greater: bool) -> (r: Result<String, FormulaError>)
    ensures
        r matches Ok(t) ==> number_of_value(*a) matches Some(x) && number_of_value(*b) matches Some(y)
            && t@ == bool_text(if greater { le_value(y, x) } else { le_value(x, y) }),
        r is Ok <==> number_of_value(*a) is Some && number_of_value(*b) is Some,
{
    let x = value_number(a)?;
    let y = value_number(b)?;
    let t = if greater { le(y, x) } else { le(x, y) };
    if t {
        Ok(String::from_str("true"))
    } else {
        Ok(String::from_str("false"))
    }
}

} // verus!
