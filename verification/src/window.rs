//! Window functions over rows of JSON cells.
//!
//! A cell holds what the window functions read of a JSON value: its kind and
//! scalar content (a float by its `f64` bit pattern; an array or object by
//! its JSON text). A non-negative integer is a `UInt`, a negative one an
//! `Int`, as JSON numbers are. Rows fall into the same partition when their
//! first `k` cells are equal (a missing cell equals only a missing cell),
//! `k` being the number of `PARTITION BY` columns.
//!
//! `SUM` and `AVG`, and `DENSE_RANK` over an unpartitioned input (which
//! orders rows by comparing numbers as `f64`), are computed in floating
//! point; for them the functions here answer `None`.

use vstd::prelude::*;
use crate::ast::WindowFunction;

verus! {

/// One cell of a row.
#[derive(Debug, Clone, PartialEq, Eq)]
pub enum Cell {
    Null,
    Bool(bool),
    /// A negative integer.
    Int(i64),
    /// A non-negative integer.
    UInt(u64),
    /// A fractional number, by the bit pattern of its (finite) `f64` value.
    Float(u64),
    Str(String),
    /// An array or object, by its JSON text.
    Other(String),
}

/// The bit pattern of `-0.0`.
pub const NEG_ZERO_BITS: u64 = 0x8000_0000_0000_0000u64;

/// A float's bit pattern with `-0.0` taken as `0.0`: two finite floats are
/// equal as numbers exactly when these agree.
pub open spec fn float_value_bits(b: u64) -> u64 {
    if b == NEG_ZERO_BITS { 0 } else { b }
}

/// Abstract value of a [`Cell`]: the value JSON equality compares, so a
/// float is seen by its number (`-0.0` and `0.0` alike).
pub enum CellView {
    Null,
    Bool(bool),
    Int(i64),
    UInt(u64),
    Float(u64),
    Str(Seq<char>),
    Other(Seq<char>),
}

impl View for Cell {
    type V = CellView;

    open spec fn view(&self) -> CellView {
        match self {
            Cell::Null => CellView::Null,
            Cell::Bool(b) => CellView::Bool(*b),
            Cell::Int(i) => CellView::Int(*i),
            Cell::UInt(u) => CellView::UInt(*u),
            Cell::Float(f) => CellView::Float(float_value_bits(*f)),
            Cell::Str(s) => CellView::Str(s@),
            Cell::Other(s) => CellView::Other(s@),
        }
    }
}

/// A row as abstract cells.
pub open spec fn row_view(r: Vec<Cell>) -> Seq<CellView> {
    r@.map_values(|c: Cell| c@)
}

/// The rows as abstract cells.
pub open spec fn rows_view(d: Seq<Vec<Cell>>) -> Seq<Seq<CellView>> {
    d.map_values(|r: Vec<Cell>| row_view(r))
}

/// Cell `i` of a row, if the row has one.
pub open spec fn cell_at(r: Seq<CellView>, i: int) -> Option<CellView> {
    if 0 <= i < r.len() { Some(r[i]) } else { None }
}

/// Whether two rows agree on their first `k` cells.
pub open spec fn same_key(a: Seq<CellView>, b: Seq<CellView>, k: nat) -> bool {
    forall|i: int| 0 <= i < k ==> #[trigger] cell_at(a, i) == cell_at(b, i)
}

/// The first cell of `r` that is not null, or null.
pub open spec fn first_non_null(r: Seq<CellView>) -> CellView
    decreases r.len(),
{
    if r.len() == 0 {
        CellView::Null
    } else if r[0] != CellView::Null {
        r[0]
    } else {
        first_non_null(r.drop_first())
    }
}

/// The rows of `d`, in order, whose key is that of `row`.
pub open spec fn partition_of(d: Seq<Seq<CellView>>, row: Seq<CellView>, k: nat) -> Seq<Seq<CellView>>
    decreases d.len(),
{
    if d.len() == 0 {
        Seq::empty()
    } else {
        let p = partition_of(d.drop_last(), row, k);
        if same_key(d.last(), row, k) { p.push(d.last()) } else { p }
    }
}

/// The position of the first occurrence of `x` in `s` (`s` must hold it).
pub open spec fn first_pos(s: Seq<Seq<CellView>>, x: Seq<CellView>) -> int
    decreases s.len(),
{
    if s.len() == 0 || s[0] == x {
        0
    } else {
        1 + first_pos(s.drop_first(), x)
    }
}

/// The distinct elements of `s`, in order of first occurrence.
pub open spec fn distinct(s: Seq<Seq<CellView>>) -> Seq<Seq<CellView>>
    decreases s.len(),
{
    if s.len() == 0 {
        Seq::empty()
    } else {
        let r = distinct(s.drop_last());
        if r.contains(s.last()) { r } else { r.push(s.last()) }
    }
}

/// The count or position `n` as a JSON number.
pub open spec fn count_cell(n: int) -> CellView {
    CellView::UInt(n as u64)
}

/// Whether the function is computed in floating point when the rows are
/// partitioned.
pub open spec fn float_partitioned(f: WindowFunction) -> bool {
    f is Sum || f is Avg
}

/// Whether the function is computed in floating point over unpartitioned rows.
pub open spec fn float_unpartitioned(f: WindowFunction) -> bool {
    f is Sum || f is Avg || f is DenseRank
}

/// The value of `f` for the row `row` of its partition `p`.
pub open spec fn partitioned_value(f: WindowFunction, p: Seq<Seq<CellView>>, row: Seq<CellView>) -> CellView {
    let pos = first_pos(p, row);
    match f {
        WindowFunction::RowNumber => count_cell(pos + 1),
        WindowFunction::Rank => count_cell(pos + 1),
        WindowFunction::DenseRank => count_cell(first_pos(distinct(p), row) + 1),
        WindowFunction::Lag(_) => if pos > 0 { first_non_null(p[pos - 1]) } else { CellView::Null },
        WindowFunction::Lead(_) => if pos < p.len() - 1 { first_non_null(p[pos + 1]) } else { CellView::Null },
        WindowFunction::FirstValue(_) => first_non_null(p[0]),
        WindowFunction::LastValue(_) => first_non_null(p.last()),
        WindowFunction::Count => count_cell(p.len() as int),
        _ => CellView::Null,
    }
}

/// The decimal value of the digits `s`.
pub open spec fn decimal_value(s: Seq<char>) -> nat
    decreases s.len(),
{
    if s.len() == 0 {
        0
    } else {
        (decimal_value(s.drop_last()) * 10 + (s.last() as int - '0' as int)) as nat
    }
}

/// Whether `s` is a non-empty run of ASCII digits.
pub open spec fn all_digits(s: Seq<char>) -> bool {
    s.len() > 0 && forall|i: int| 0 <= i < s.len() ==> '0' <= #[trigger] s[i] <= '9'
}

/// What `s.parse::<usize>()` gives: an optional `+`, then digits whose
/// value fits.
pub open spec fn parse_usize(s: Seq<char>) -> Option<usize> {
    let digits = if s.len() > 0 && s[0] == '+' { s.drop_first() } else { s };
    if all_digits(digits) && decimal_value(digits) <= usize::MAX {
        Some(decimal_value(digits) as usize)
    } else {
        None
    }
}

/// The column a field reference `$n` names; anything else names column 0.
pub open spec fn field_index(field: Seq<char>) -> nat {
    if field.len() > 0 && field[0] == '$' {
        match parse_usize(field.drop_first()) {
            Some(n) => n as nat,
            None => 0,
        }
    } else {
        0
    }
}

/// The value of `f` at row `i` of the unpartitioned rows `d`.
pub open spec fn unpartitioned_value(f: WindowFunction, d: Seq<Seq<CellView>>, i: int) -> CellView {
    match f {
        WindowFunction::RowNumber => count_cell(i + 1),
        WindowFunction::Rank => count_cell(i + 1),
        WindowFunction::Lag(field) => if i >= 1 {
            match cell_at(d[i - 1], field_index(field@) as int) { Some(c) => c, None => CellView::Null }
        } else {
            CellView::Null
        },
        WindowFunction::Lead(field) => if i + 1 < d.len() {
            match cell_at(d[i + 1], field_index(field@) as int) { Some(c) => c, None => CellView::Null }
        } else {
            CellView::Null
        },
        WindowFunction::FirstValue(_) => first_non_null(d[0]),
        WindowFunction::LastValue(_) => first_non_null(d.last()),
        WindowFunction::Count => count_cell(d.len() as int),
        _ => CellView::Null,
    }
}

/// Copies a cell.
pub fn copy_cell(c: &Cell) -> (r: Cell)
    ensures
        r@ == c@,
{
    match c {
        Cell::Null => Cell::Null,
        Cell::Bool(b) => Cell::Bool(*b),
        Cell::Int(i) => Cell::Int(*i),
        Cell::UInt(u) => Cell::UInt(*u),
        Cell::Float(f) => Cell::Float(*f),
        Cell::Str(s) => Cell::Str(s.clone()),
        Cell::Other(s) => Cell::Other(s.clone()),
    }
}

/// Whether two cells are equal.
pub fn cell_eq(a: &Cell, b: &Cell) -> (r: bool)
    ensures
        r == (a@ == b@),
{
    match (a, b) {
        (Cell::Null, Cell::Null) => true,
        (Cell::Bool(x), Cell::Bool(y)) => *x == *y,
        (Cell::Int(x), Cell::Int(y)) => *x == *y,
        (Cell::UInt(x), Cell::UInt(y)) => *x == *y,
        (Cell::Float(x), Cell::Float(y)) => {
            let nx = if *x == NEG_ZERO_BITS { 0 } else { *x };
            let ny = if *y == NEG_ZERO_BITS { 0 } else { *y };
            nx == ny
        },
        (Cell::Str(x), Cell::Str(y)) => x.eq(y),
        (Cell::Other(x), Cell::Other(y)) => x.eq(y),
        _ => false,
    }
}

/// Whether two rows are equal.
pub fn row_eq(a: &Vec<Cell>, b: &Vec<Cell>) -> (r: bool)
    ensures
        r == (row_view(*a) == row_view(*b)),
{
    if a.len() != b.len() {
        proof {
            assert(row_view(*a).len() != row_view(*b).len());
        }
        return false;
    }
    let mut i: usize = 0;
    while i < a.len()
        invariant
            i <= a@.len(),
            a@.len() == b@.len(),
            forall|j: int| 0 <= j < i ==> row_view(*a)[j] == row_view(*b)[j],
        decreases a@.len() - i,
    {
        if !cell_eq(&a[i], &b[i]) {
            proof {
                assert(row_view(*a)[i as int] != row_view(*b)[i as int]);
            }
            return false;
        }
        i = i + 1;
    }
    assert(row_view(*a) =~= row_view(*b));
    true
}

/// Whether rows `a` and `b` agree on their first `k` cells.
pub fn key_eq(a: &Vec<Cell>, b: &Vec<Cell>, k: usize) -> (r: bool)
    ensures
        r == same_key(row_view(*a), row_view(*b), k as nat),
{
    let mut i: usize = 0;
    while i < k
        invariant
            i <= k,
            forall|j: int| 0 <= j < i ==> #[trigger] cell_at(row_view(*a), j) == cell_at(row_view(*b), j),
        decreases k - i,
    {
        let ea = i < a.len();
        let eb = i < b.len();
        if ea != eb {
            proof {
                assert(cell_at(row_view(*a), i as int) != cell_at(row_view(*b), i as int));
            }
            return false;
        }
        if ea && !cell_eq(&a[i], &b[i]) {
            proof {
                assert(cell_at(row_view(*a), i as int) != cell_at(row_view(*b), i as int));
            }
            return false;
        }
        i = i + 1;
    }
    true
}

/// The first non-null cell of a row, or null.
pub fn first_non_null_cell(r: &Vec<Cell>) -> (c: Cell)
    ensures
        c@ == first_non_null(row_view(*r)),
{
    let mut i: usize = 0;
    assert(row_view(*r).skip(0) =~= row_view(*r));
    while i < r.len()
        invariant
            i <= r@.len(),
            first_non_null(row_view(*r)) == first_non_null(row_view(*r).skip(i as int)),
        decreases r@.len() - i,
    {
        proof {
            assert(row_view(*r).skip(i as int).drop_first() =~= row_view(*r).skip(i + 1));
            assert(row_view(*r).skip(i as int)[0] == r@[i as int]@);
        }
        match &r[i] {
            Cell::Null => {},
            c => {
                return copy_cell(c);
            },
        }
        i = i + 1;
    }
    assert(row_view(*r).skip(i as int) =~= Seq::<CellView>::empty());
    Cell::Null
}

/// The column named by a field reference (see [`field_index`]).
pub fn parse_field_index(field: &str) -> (r: usize)
    ensures
        r == field_index(field@),
{
    let n = field.unicode_len();
    if n == 0 || field.get_char(0) != '$' {
        return 0;
    }
    let mut start: usize = 1;
    if n > 1 && field.get_char(1) == '+' {
        start = 2;
    }
    let ghost rest = field@.drop_first();
    let ghost digits = if rest.len() > 0 && rest[0] == '+' { rest.drop_first() } else { rest };
    proof {
        assert(digits =~= field@.subrange(start as int, n as int));
    }
    if start >= n {
        return 0;
    }
    let mut value: usize = 0;
    let mut i: usize = start;
    while i < n
        invariant
            1 <= start <= i <= n,
            n == field@.len(),
            field@[0] == '$',
            rest == field@.drop_first(),
            digits == (if rest.len() > 0 && rest[0] == '+' { rest.drop_first() } else { rest }),
            digits == field@.subrange(start as int, n as int),
            value == decimal_value(field@.subrange(start as int, i as int)),
            forall|j: int| start <= j < i ==> '0' <= #[trigger] field@[j] <= '9',
        decreases n - i,
    {
        let c = field.get_char(i);
        proof {
            assert(field@.subrange(start as int, i + 1).drop_last() =~= field@.subrange(start as int, i as int));
        }
        if c < '0' || c > '9' {
            proof {
                assert(digits[i - start] == c);
                assert(!all_digits(digits));
                assert(parse_usize(rest) is None);
            }
            return 0;
        }
        let d = (c as u32 - '0' as u32) as usize;
        proof {
            assert(decimal_value(field@.subrange(start as int, i + 1)) == value * 10 + d);
        }
        match value.checked_mul(10) {
            None => {
                proof {
                    lemma_decimal_prefix_bound(field@.subrange(start as int, n as int), i - start + 1);
                    assert(field@.subrange(start as int, n as int).take(i - start + 1) =~= field@.subrange(start as int, i + 1));
                    assert(parse_usize(rest) is None);
                }
                return 0;
            },
            Some(v10) => match v10.checked_add(d) {
                None => {
                    proof {
                        lemma_decimal_prefix_bound(field@.subrange(start as int, n as int), i - start + 1);
                        assert(field@.subrange(start as int, n as int).take(i - start + 1) =~= field@.subrange(start as int, i + 1));
                        assert(parse_usize(rest) is None);
                    }
                    return 0;
                },
                Some(v) => {
                    value = v;
                },
            },
        }
        i = i + 1;
    }
    proof {
        assert(all_digits(digits));
    }
    value
}

/// A longer run of digits has at least the value of its prefix.
proof fn lemma_decimal_prefix_bound(s: Seq<char>, m: int)
    requires
        0 <= m <= s.len(),
        forall|i: int| 0 <= i < s.len() ==> '0' <= #[trigger] s[i] <= '9' || i >= m,
    ensures
        all_digits(s) ==> decimal_value(s.take(m)) <= decimal_value(s),
    decreases s.len(),
{
    if all_digits(s) && m < s.len() {
        assert(s.drop_last().take(m) =~= s.take(m));
        lemma_decimal_prefix_bound(s.drop_last(), m);
    } else if m == s.len() {
        assert(s.take(m) =~= s);
    }
}

/// Window-function evaluation.
pub struct WindowFunctionExecutor;

impl WindowFunctionExecutor {
    pub fn new() -> (e: Self) {
        WindowFunctionExecutor
    }

    /// Ranks in row order: row `i` has rank `i + 1`.
    pub fn compute_rank(&self, data: &[Vec<Cell>]) -> (r: Vec<Cell>)
        requires
            data@.len() < u64::MAX,
        ensures
            r@.len() == data@.len(),
            forall|i: int| 0 <= i < r@.len() ==> (#[trigger] r@[i])@ == count_cell(i + 1),
    {
        let mut r: Vec<Cell> = Vec::new();
        let mut i: usize = 0;
        while i < data.len()
            invariant
                i <= data@.len(),
                data@.len() < u64::MAX,
                r@.len() == i,
                forall|j: int| 0 <= j < i ==> (#[trigger] r@[j])@ == count_cell(j + 1),
            decreases data@.len() - i,
        {
            r.push(Cell::UInt((i + 1) as u64));
            i = i + 1;
        }
        r
    }

    /// `LAG`: the cell of column `field` in the row `offset` rows before,
    /// or null.
    pub fn compute_lag(&self, data: &[Vec<Cell>], field: &str, offset: usize) -> (r: Vec<Cell>)
        ensures
            r@.len() == data@.len(),
            forall|i: int| 0 <= i < r@.len() ==> (#[trigger] r@[i])@ == (if i >= offset {
                match cell_at(row_view(data@[i - offset]), field_index(field@) as int) { Some(c) => c, None => CellView::Null }
            } else {
                CellView::Null
            }),
    {
        let idx = parse_field_index(field);
        let mut r: Vec<Cell> = Vec::new();
        let mut i: usize = 0;
        while i < data.len()
            invariant
                i <= data@.len(),
                idx == field_index(field@),
                r@.len() == i,
                forall|j: int| 0 <= j < i ==> (#[trigger] r@[j])@ == (if j >= offset {
                    match cell_at(row_view(data@[j - offset]), field_index(field@) as int) { Some(c) => c, None => CellView::Null }
                } else {
                    CellView::Null
                }),
            decreases data@.len() - i,
        {
            if i >= offset {
                let row = &data[i - offset];
                if idx < row.len() {
                    r.push(copy_cell(&row[idx]));
                } else {
                    r.push(Cell::Null);
                }
            } else {
                r.push(Cell::Null);
            }
            i = i + 1;
        }
        r
    }

    /// `LEAD`: the cell of column `field` in the row `offset` rows after,
    /// or null.
    pub fn compute_lead(&self, data: &[Vec<Cell>], field: &str, offset: usize) -> (r: Vec<Cell>)
        ensures
            r@.len() == data@.len(),
            forall|i: int| 0 <= i < r@.len() ==> (#[trigger] r@[i])@ == (if i + offset < data@.len() {
                match cell_at(row_view(data@[i + offset]), field_index(field@) as int) { Some(c) => c, None => CellView::Null }
            } else {
                CellView::Null
            }),
    {
        let idx = parse_field_index(field);
        let mut r: Vec<Cell> = Vec::new();
        let mut i: usize = 0;
        while i < data.len()
            invariant
                i <= data@.len(),
                idx == field_index(field@),
                r@.len() == i,
                forall|j: int| 0 <= j < i ==> (#[trigger] r@[j])@ == (if j + offset < data@.len() {
                    match cell_at(row_view(data@[j + offset]), field_index(field@) as int) { Some(c) => c, None => CellView::Null }
                } else {
                    CellView::Null
                }),
            decreases data@.len() - i,
        {
            if offset < data.len() - i {
                let row = &data[i + offset];
                if idx < row.len() {
                    r.push(copy_cell(&row[idx]));
                } else {
                    r.push(Cell::Null);
                }
            } else {
                r.push(Cell::Null);
            }
            i = i + 1;
        }
        r
    }

    /// The window function over unpartitioned rows (see
    /// [`unpartitioned_value`]); `None` for the functions computed in
    /// floating point.
    pub fn execute_non_partitioned(&self, data: &[Vec<Cell>], function: &WindowFunction)
        -> (r: Result<Option<Vec<Cell>>, String>)
        requires
            data@.len() < u64::MAX,
        ensures
            float_unpartitioned(*function) <==> r == Ok::<Option<Vec<Cell>>, String>(None),
            !float_unpartitioned(*function) ==> (r matches Ok(Some(v)) && v@.len() == data@.len()
                && forall|i: int| 0 <= i < v@.len() ==> (#[trigger] v@[i])@
                    == unpartitioned_value(*function, rows_view(data@), i)),
    {
        let n = data.len();
        match function {
            WindowFunction::Sum(_) | WindowFunction::Avg(_) | WindowFunction::DenseRank => Ok(None),
            WindowFunction::RowNumber | WindowFunction::Rank => Ok(Some(self.compute_rank(data))),
            WindowFunction::Lag(field) => {
                let v = self.compute_lag(data, field.as_str(), 1);
                proof {
                    assert forall|i: int| 0 <= i < v@.len() implies (#[trigger] v@[i])@
                        == unpartitioned_value(*function, rows_view(data@), i) by {
                        if i >= 1 {
                            assert(rows_view(data@)[i - 1] == row_view(data@[i - 1]));
                        }
                    }
                }
                Ok(Some(v))
            },
            WindowFunction::Lead(field) => {
                let v = self.compute_lead(data, field.as_str(), 1);
                proof {
                    assert forall|i: int| 0 <= i < v@.len() implies (#[trigger] v@[i])@
                        == unpartitioned_value(*function, rows_view(data@), i) by {
                        if i + 1 < data@.len() {
                            assert(rows_view(data@)[i + 1] == row_view(data@[i + 1]));
                        }
                    }
                }
                Ok(Some(v))
            },
            WindowFunction::FirstValue(_) | WindowFunction::LastValue(_) => {
                let mut v: Vec<Cell> = Vec::new();
                if n > 0 {
                    let is_first = match function {
                        WindowFunction::FirstValue(_) => true,
                        _ => false,
                    };
                    let src = if is_first { &data[0] } else { &data[n - 1] };
                    let c = first_non_null_cell(src);
                    proof {
                        assert(rows_view(data@)[0] == row_view(data@[0]));
                        assert(rows_view(data@).last() == row_view(data@[n - 1]));
                    }
                    let mut i: usize = 0;
                    while i < n
                        invariant
                            i <= n,
                            v@.len() == i,
                            forall|j: int| 0 <= j < i ==> (#[trigger] v@[j])@ == c@,
                        decreases n - i,
                    {
                        v.push(copy_cell(&c));
                        i = i + 1;
                    }
                }
                Ok(Some(v))
            },
            WindowFunction::Count => {
                let mut v: Vec<Cell> = Vec::new();
                let mut i: usize = 0;
                while i < n
                    invariant
                        i <= n,
                        n == data@.len(),
                        v@.len() == i,
                        forall|j: int| 0 <= j < i ==> (#[trigger] v@[j])@ == count_cell(n as int),
                    decreases n - i,
                {
                    v.push(Cell::UInt(n as u64));
                    i = i + 1;
                }
                Ok(Some(v))
            },
        }
    }
}

/// The rows of `d` at the positions `idx`.
pub open spec fn rows_at(d: Seq<Seq<CellView>>, idx: Seq<usize>) -> Seq<Seq<CellView>> {
    idx.map_values(|j: usize| d[j as int])
}

proof fn lemma_first_pos(s: Seq<Seq<CellView>>, x: Seq<CellView>, p: int)
    requires
        0 <= p < s.len(),
        s[p] == x,
        forall|j: int| 0 <= j < p ==> s[j] != x,
    ensures
        first_pos(s, x) == p,
    decreases p,
{
    if p > 0 {
        assert forall|j: int| 0 <= j < p - 1 implies s.drop_first()[j] != x by {
            assert(s.drop_first()[j] == s[j + 1]);
        }
        lemma_first_pos(s.drop_first(), x, p - 1);
    }
}

proof fn lemma_distinct_contains(s: Seq<Seq<CellView>>, x: Seq<CellView>)
    requires
        s.contains(x),
    ensures
        distinct(s).contains(x),
    decreases s.len(),
{
    let r = distinct(s.drop_last());
    if s.last() != x {
        let j = choose|j: int| 0 <= j < s.len() && s[j] == x;
        assert(s.drop_last()[j] == x);
        lemma_distinct_contains(s.drop_last(), x);
        let w = choose|w: int| 0 <= w < r.len() && r[w] == x;
        if !r.contains(s.last()) {
            assert(r.push(s.last())[w] == x);
        }
    } else if !r.contains(x) {
        assert(r.push(x)[r.len() as int] == x);
    }
}

/// The position of the first row among `d[idx[..]]` equal to `row`.
fn position_among(data: &[Vec<Cell>], idx: &Vec<usize>, row: &Vec<Cell>) -> (p: usize)
    requires
        forall|q: int| 0 <= q < idx@.len() ==> (#[trigger] idx@[q]) < data@.len(),
        rows_at(rows_view(data@), idx@).contains(row_view(*row)),
    ensures
        p < idx@.len(),
        p == first_pos(rows_at(rows_view(data@), idx@), row_view(*row)),
{
    let ghost s = rows_at(rows_view(data@), idx@);
    let mut p: usize = 0;
    while p < idx.len()
        invariant
            s == rows_at(rows_view(data@), idx@),
            s.contains(row_view(*row)),
            forall|q: int| 0 <= q < idx@.len() ==> (#[trigger] idx@[q]) < data@.len(),
            p <= idx@.len(),
            forall|j: int| 0 <= j < p ==> s[j] != row_view(*row),
        decreases idx@.len() - p,
    {
        proof {
            assert(s[p as int] == row_view(data@[idx@[p as int] as int]));
        }
        if row_eq(&data[idx[p]], row) {
            proof {
                lemma_first_pos(s, row_view(*row), p as int);
            }
            return p;
        }
        p = p + 1;
    }
    proof {
        let j = choose|j: int| 0 <= j < s.len() && s[j] == row_view(*row);
        assert(false);
    }
    0
}

impl WindowFunctionExecutor {
    /// The window function within partitions (see [`partitioned_value`]):
    /// each row is evaluated in the partition of the rows sharing its first
    /// `partition_by.len()` cells; `None` for the functions computed in
    /// floating point.
    pub fn execute_partitioned(&self, data: &[Vec<Cell>], function: &WindowFunction, partition_by: &[String])
        -> (r: Result<Option<Vec<Cell>>, String>)
        requires
            data@.len() < u64::MAX,
        ensures
            float_partitioned(*function) <==> r == Ok::<Option<Vec<Cell>>, String>(None),
            !float_partitioned(*function) ==> (r matches Ok(Some(v)) && v@.len() == data@.len()
                && forall|i: int| 0 <= i < v@.len() ==> (#[trigger] v@[i])@ == partitioned_value(
                    *function,
                    partition_of(rows_view(data@), rows_view(data@)[i], partition_by@.len()),
                    rows_view(data@)[i],
                )),
    {
        match function {
            WindowFunction::Sum(_) | WindowFunction::Avg(_) => {
                return Ok(None);
            },
            _ => {},
        }
        let k = partition_by.len();
        let n = data.len();
        let ghost rows = rows_view(data@);
        let mut out: Vec<Cell> = Vec::new();
        let mut i: usize = 0;
        while i < n
            invariant
                n == data@.len(),
                n < u64::MAX,
                rows == rows_view(data@),
                k == partition_by@.len(),
                !float_partitioned(*function),
                i <= n,
                out@.len() == i,
                forall|q: int| 0 <= q < i ==> (#[trigger] out@[q])@ == partitioned_value(
                    *function, partition_of(rows, rows[q], k as nat), rows[q]),
            decreases n - i,
        {
            let row = &data[i];
            proof {
                assert(rows[i as int] == row_view(*row));
            }
            // the partition of row i, as positions
            let mut pidx: Vec<usize> = Vec::new();
            let mut j: usize = 0;
            while j < n
                invariant
                    n == data@.len(),
                    rows == rows_view(data@),
                    i < n,
                    *row == data@[i as int],
                    j <= n,
                    forall|q: int| 0 <= q < pidx@.len() ==> (#[trigger] pidx@[q]) < n,
                    pidx@.len() <= j,
                    rows_at(rows, pidx@) == partition_of(rows.take(j as int), rows[i as int], k as nat),
                    j > i ==> rows_at(rows, pidx@).contains(rows[i as int]),
                decreases n - j,
            {
                let ghost before = pidx@;
                proof {
                    assert(rows.take(j + 1).drop_last() =~= rows.take(j as int));
                    assert(rows.take(j + 1).last() == rows[j as int]);
                    assert(rows[j as int] == row_view(data@[j as int]));
                }
                if key_eq(&data[j], row, k) {
                    pidx.push(j);
                    proof {
                        assert(rows_at(rows, pidx@) =~= rows_at(rows, before).push(rows[j as int]));
                        let last = (rows_at(rows, pidx@).len() - 1) as int;
                        assert(rows_at(rows, pidx@)[last] == rows[j as int]);
                        if j > i {
                            let w = choose|w: int| 0 <= w < rows_at(rows, before).len() && rows_at(rows, before)[w] == rows[i as int];
                            assert(rows_at(rows, pidx@)[w] == rows[i as int]);
                        }
                    }
                } else {
                    proof {
                        if j == i {
                            assert(same_key(rows[i as int], rows[i as int], k as nat));
                        }
                    }
                }
                j = j + 1;
            }
            proof {
                assert(rows.take(n as int) =~= rows);
            }
            let ghost p = rows_at(rows, pidx@);
            let pos = position_among(data, &pidx, row);
            let c: Cell = match function {
                WindowFunction::RowNumber | WindowFunction::Rank => Cell::UInt((pos + 1) as u64),
                WindowFunction::DenseRank => {
                    // distinct rows of the partition, as positions
                    let mut didx: Vec<usize> = Vec::new();
                    let mut q: usize = 0;
                    while q < pidx.len()
                        invariant
                            n == data@.len(),
                            rows == rows_view(data@),
                            p == rows_at(rows, pidx@),
                            forall|t: int| 0 <= t < pidx@.len() ==> (#[trigger] pidx@[t]) < n,
                            q <= pidx@.len(),
                            forall|t: int| 0 <= t < didx@.len() ==> (#[trigger] didx@[t]) < n,
                            rows_at(rows, didx@) == distinct(p.take(q as int)),
                            didx@.len() <= q,
                        decreases pidx@.len() - q,
                    {
                        let cand = &data[pidx[q]];
                        let ghost dv = rows_at(rows, didx@);
                        proof {
                            assert(p.take(q + 1).drop_last() =~= p.take(q as int));
                            assert(p.take(q + 1).last() == p[q as int]);
                            assert(p[q as int] == row_view(*cand));
                        }
                        let mut seen = false;
                        let mut t: usize = 0;
                        while t < didx.len()
                            invariant
                                n == data@.len(),
                                rows == rows_view(data@),
                                dv == rows_at(rows, didx@),
                                forall|u: int| 0 <= u < didx@.len() ==> (#[trigger] didx@[u]) < n,
                                t <= didx@.len(),
                                seen == exists|u: int| 0 <= u < t && dv[u] == row_view(*cand),
                            decreases didx@.len() - t,
                        {
                            proof {
                                assert(dv[t as int] == row_view(data@[didx@[t as int] as int]));
                            }
                            if row_eq(&data[didx[t]], cand) {
                                seen = true;
                            }
                            t = t + 1;
                        }
                        proof {
                            assert(seen == dv.contains(row_view(*cand)));
                        }
                        if !seen {
                            didx.push(pidx[q]);
                            proof {
                                assert(rows_at(rows, didx@) =~= dv.push(p[q as int]));
                            }
                        }
                        q = q + 1;
                    }
                    proof {
                        assert(p.take(pidx@.len() as int) =~= p);
                        let w = choose|w: int| 0 <= w < p.len() && p[w] == rows[i as int];
                        assert(p.contains(rows[i as int]));
                        lemma_distinct_contains(p, rows[i as int]);
                    }
                    let dpos = position_among(data, &didx, row);
                    Cell::UInt((dpos + 1) as u64)
                },
                WindowFunction::Lag(_) => {
                    if pos > 0 {
                        proof {
                            assert(p[pos - 1] == row_view(data@[pidx@[pos - 1] as int]));
                        }
                        first_non_null_cell(&data[pidx[pos - 1]])
                    } else {
                        Cell::Null
                    }
                },
                WindowFunction::Lead(_) => {
                    if pos + 1 < pidx.len() {
                        proof {
                            assert(p[pos + 1] == row_view(data@[pidx@[pos + 1] as int]));
                        }
                        first_non_null_cell(&data[pidx[pos + 1]])
                    } else {
                        Cell::Null
                    }
                },
                WindowFunction::FirstValue(_) => {
                    proof {
                        assert(p[0] == row_view(data@[pidx@[0] as int]));
                    }
                    first_non_null_cell(&data[pidx[0]])
                },
                WindowFunction::LastValue(_) => {
                    let last = pidx.len() - 1;
                    proof {
                        assert(p.last() == row_view(data@[pidx@[last as int] as int]));
                    }
                    first_non_null_cell(&data[pidx[last]])
                },
                WindowFunction::Count => Cell::UInt(pidx.len() as u64),
                _ => Cell::Null,
            };
            out.push(c);
            i = i + 1;
        }
        Ok(Some(out))
    }

    /// The window function of `window_expr` over `data`: partitioned when the
    /// window names partition columns, else over all rows.
    pub fn execute(&mut self, data: &[Vec<Cell>], window_expr: &crate::ast::WindowExpression)
        -> (r: Result<Option<Vec<Cell>>, String>)
        requires
            data@.len() < u64::MAX,
        ensures
            ({
                let k = match window_expr.window_spec { Some(s) => s.partition_by@.len(), None => 0 };
                let f = window_expr.function;
                if k == 0 {
                    &&& float_unpartitioned(f) <==> r == Ok::<Option<Vec<Cell>>, String>(None)
                    &&& !float_unpartitioned(f) ==> (r matches Ok(Some(v)) && v@.len() == data@.len()
                        && forall|i: int| 0 <= i < v@.len() ==> (#[trigger] v@[i])@
                            == unpartitioned_value(f, rows_view(data@), i))
                } else {
                    &&& float_partitioned(f) <==> r == Ok::<Option<Vec<Cell>>, String>(None)
                    &&& !float_partitioned(f) ==> (r matches Ok(Some(v)) && v@.len() == data@.len()
                        && forall|i: int| 0 <= i < v@.len() ==> (#[trigger] v@[i])@ == partitioned_value(
                            f, partition_of(rows_view(data@), rows_view(data@)[i], k), rows_view(data@)[i]))
                }
            }),
    {
        match &window_expr.window_spec {
            Some(spec) => {
                if spec.partition_by.len() > 0 {
                    self.execute_partitioned(data, &window_expr.function, spec.partition_by.as_slice())
                } else {
                    self.execute_non_partitioned(data, &window_expr.function)
                }
            },
            None => self.execute_non_partitioned(data, &window_expr.function),
        }
    }
}

} // verus!
