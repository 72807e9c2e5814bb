use vstd::prelude::*;

verus! {

/// A table of text cells under a row of column headers.
#[derive(Debug, Clone)]
pub struct Table {
    pub data: Vec<Vec<String>>,
    pub headers: Vec<String>,
    pub title: String,
    pub sortable: bool,
    pub filterable: bool,
    pub striped: bool,
    pub sort_column: Option<usize>,
    pub sort_ascending: bool,
}

/// The characters of each string.
pub open spec fn strs_view(v: Seq<String>) -> Seq<Seq<char>> {
    v.map_values(|c: String| c@)
}

/// The characters of each cell of each row.
pub open spec fn rows_view(v: Seq<Vec<String>>) -> Seq<Seq<Seq<char>>> {
    v.map_values(|r: Vec<String>| strs_view(r@))
}

/// `cells` cut or padded with empty cells to exactly `n` cells.
pub open spec fn fitted(cells: Seq<Seq<char>>, n: int) -> Seq<Seq<char>> {
    if cells.len() >= n {
        cells.take(n)
    } else {
        cells + Seq::new((n - cells.len()) as nat, |i: int| Seq::<char>::empty())
    }
}

/// Every row has `n` cells.
pub open spec fn rows_have_len(rows: Seq<Seq<Seq<char>>>, n: int) -> bool {
    forall|i: int| 0 <= i < rows.len() ==> (#[trigger] rows[i]).len() == n
}

/// `row` cut or padded with empty cells to exactly `n` cells.
pub fn fit_row(row: Vec<String>, n: usize) -> (r: Vec<String>)
    ensures
        strs_view(r@) == fitted(strs_view(row@), n as int),
{
    let mut r = row;
    if r.len() >= n {
        r.truncate(n);
        assert(strs_view(r@) =~= fitted(strs_view(row@), n as int));
        return r;
    }
    let k0 = r.len();
    while r.len() < n
        invariant
            k0 <= r@.len() <= n,
            k0 == row@.len(),
            k0 < n,
            strs_view(r@) == strs_view(row@) + Seq::new((r@.len() - k0) as nat, |i: int| Seq::<char>::empty()),
        decreases n - r@.len(),
    {
        let ghost before = r@;
        let e = String::new();
        r.push(e);
        assert(strs_view(r@) =~= strs_view(before).push(Seq::<char>::empty()));
        assert(strs_view(r@) =~= strs_view(row@) + Seq::new((r@.len() - k0) as nat, |i: int| Seq::<char>::empty()));
    }
    assert(strs_view(r@) =~= fitted(strs_view(row@), n as int));
    r
}

/// Appends a copy of `cell` to every row.
pub fn push_cell_to_rows(rows: &mut Vec<Vec<String>>, cell: &String)
    ensures
        rows_view(final(rows)@) == rows_view(old(rows)@).map_values(|r: Seq<Seq<char>>| r.push(cell@)),
{
    let ghost orig = rows_view(rows@);
    let n = rows.len();
    let mut i: usize = 0;
    while i < n
        invariant
            n == rows@.len(),
            orig.len() == n,
            0 <= i <= n,
            forall|j: int| 0 <= j < i ==> #[trigger] rows_view(rows@)[j] == orig[j].push(cell@),
            forall|j: int| i <= j < n ==> #[trigger] rows_view(rows@)[j] == orig[j],
        decreases n - i,
    {
        let ghost prev = rows@;
        let c = cell.clone();
        rows[i].push(c);
        proof {
            assert(rows_view(prev)[i as int] == strs_view(prev[i as int]@));
            assert(rows@ == prev.update(i as int, rows@[i as int]));
            assert(rows@[i as int]@ == prev[i as int]@.push(c));
            assert(strs_view(rows@[i as int]@) =~= orig[i as int].push(cell@));
            assert forall|j: int| 0 <= j < n implies #[trigger] rows_view(rows@)[j] == if j == i { strs_view(rows@[i as int]@) } else { rows_view(prev)[j] } by {}
        }
        i = i + 1;
    }
    assert(rows_view(rows@) =~= orig.map_values(|r: Seq<Seq<char>>| r.push(cell@)));
}

/// Cuts every row that is longer than `n` down to `n` cells.
pub fn truncate_rows(rows: &mut Vec<Vec<String>>, n: usize)
    ensures
        rows_view(final(rows)@) == rows_view(old(rows)@).map_values(
            |r: Seq<Seq<char>>| if r.len() > n { r.take(n as int) } else { r },
        ),
{
    let ghost orig = rows_view(rows@);
    let m = rows.len();
    let mut i: usize = 0;
    while i < m
        invariant
            m == rows@.len(),
            orig.len() == m,
            0 <= i <= m,
            forall|j: int| 0 <= j < i ==> #[trigger] rows_view(rows@)[j] == (if orig[j].len() > n { orig[j].take(n as int) } else { orig[j] }),
            forall|j: int| i <= j < m ==> #[trigger] rows_view(rows@)[j] == orig[j],
        decreases m - i,
    {
        let ghost prev = rows@;
        rows[i].truncate(n);
        proof {
            assert(rows_view(prev)[i as int] == strs_view(prev[i as int]@));
            assert(rows@ == prev.update(i as int, rows@[i as int]));
            assert forall|j: int| 0 <= j < m implies #[trigger] rows_view(rows@)[j] == if j == i { strs_view(rows@[i as int]@) } else { rows_view(prev)[j] } by {}
            let o = orig[i as int];
            assert(strs_view(rows@[i as int]@) =~= (if o.len() > n { o.take(n as int) } else { o }));
        }
        i = i + 1;
    }
    assert(rows_view(rows@) =~= orig.map_values(
        |r: Seq<Seq<char>>| if r.len() > n { r.take(n as int) } else { r },
    ));
}

impl Table {
    pub fn new(title: String, headers: Vec<String>, data: Vec<Vec<String>>) -> (r: Table)
        ensures
            r.title == title,
            r.headers@ == headers@,
            r.data@ == data@,
            r.sortable,
            !r.filterable,
            r.striped,
            r.sort_column is None,
            r.sort_ascending,
    {
        Table {
            headers,
            data,
            title,
            sortable: true,
            filterable: false,
            striped: true,
            sort_column: None,
            sort_ascending: true,
        }
    }

    /// Appends `row`, cut or padded with empty cells to the number of headers.
    pub fn add_row(&mut self, row: Vec<String>)
        ensures
            rows_view(final(self).data@) == rows_view(old(self).data@).push(
                fitted(strs_view(row@), old(self).headers@.len() as int),
            ),
            final(self).headers@ == old(self).headers@,
            final(self).title == old(self).title,
            final(self).sort_column == old(self).sort_column,
            final(self).sort_ascending == old(self).sort_ascending,
            final(self).sortable == old(self).sortable,
            final(self).filterable == old(self).filterable,
            final(self).striped == old(self).striped,
    {
        let padded = fit_row(row, self.headers.len());
        let ghost before = self.data@;
        self.data.push(padded);
        assert(rows_view(self.data@) =~= rows_view(before).push(strs_view(padded@)));
    }

    /// Appends a column: `header`, and `default_value` at the end of every row.
    pub fn add_column(&mut self, header: String, default_value: String)
        ensures
            final(self).headers@ == old(self).headers@.push(header),
            rows_view(final(self).data@) == rows_view(old(self).data@).map_values(
                |r: Seq<Seq<char>>| r.push(default_value@),
            ),
            final(self).title == old(self).title,
            final(self).sort_column == old(self).sort_column,
            final(self).sort_ascending == old(self).sort_ascending,
            final(self).sortable == old(self).sortable,
            final(self).filterable == old(self).filterable,
            final(self).striped == old(self).striped,
    {
        self.headers.push(header);
        push_cell_to_rows(&mut self.data, &default_value);
    }
}

/// Value of a run of decimal digits.
pub open spec fn digits_value(s: Seq<char>) -> int
    decreases s.len(),
{
    if s.len() == 0 {
        0
    } else {
        digits_value(s.drop_last()) * 10 + (s.last() as u32 - '0' as u32)
    }
}

pub open spec fn all_digits(s: Seq<char>) -> bool {
    forall|i: int| 0 <= i < s.len() ==> '0' <= #[trigger] s[i] <= '9'
}

/// The integer that `s` spells in decimal: an optional `+` or `-`, then one
/// or more ASCII digits, with a value that fits in an `i64`.
pub open spec fn decimal_int(s: Seq<char>) -> Option<int> {
    let signed = s.len() > 0 && (s[0] == '-' || s[0] == '+');
    let body = if signed { s.drop_first() } else { s };
    let v = if s.len() > 0 && s[0] == '-' { -digits_value(body) } else { digits_value(body) };
    if body.len() == 0 || !all_digits(body) || v < i64::MIN || v > i64::MAX {
        None
    } else {
        Some(v)
    }
}

/// Relies on `str::parse::<i64>` (`FromStr for i64`): it accepts exactly an
/// optional sign followed by decimal digits whose value fits, and fails otherwise.
#[verifier::external_body]
fn parse_int(s: &str) -> (r: Option<i64>)
    ensures
        match r {
            Some(v) => decimal_int(s@) == Some(v as int),
            None => decimal_int(s@) is None,
        },
{
    s.parse::<i64>().ok()
}

/// Lexicographic comparison of `a[k..]` and `b[k..]` by code point: -1, 0 or 1.
pub open spec fn text_cmp_from(a: Seq<char>, b: Seq<char>, k: int) -> int
    decreases a.len() - k,
{
    if k >= a.len() && k >= b.len() {
        0
    } else if k >= a.len() {
        -1
    } else if k >= b.len() {
        1
    } else if (a[k] as u32) < (b[k] as u32) {
        -1
    } else if (a[k] as u32) > (b[k] as u32) {
        1
    } else {
        text_cmp_from(a, b, k + 1)
    }
}

pub open spec fn text_cmp(a: Seq<char>, b: Seq<char>) -> int {
    text_cmp_from(a, b, 0)
}

/// The text of cell `col` of `row`, or the empty text if the row is shorter.
pub open spec fn cell_at(row: Seq<Seq<char>>, col: int) -> Seq<char> {
    if 0 <= col < row.len() { row[col] } else { Seq::empty() }
}

/// How two rows compare on column `col`: as numbers when both cells are
/// decimal integers, as text otherwise; -1, 0 or 1.
pub open spec fn key_cmp(a: Seq<Seq<char>>, b: Seq<Seq<char>>, col: int) -> int {
    let ca = cell_at(a, col);
    let cb = cell_at(b, col);
    match (decimal_int(ca), decimal_int(cb)) {
        (Some(x), Some(y)) => if x < y { -1 } else if x > y { 1 } else { 0 },
        _ => text_cmp(ca, cb),
    }
}

/// Row `a` may stand before row `b` when sorting on `col` in the given direction.
pub open spec fn in_order(a: Vec<String>, b: Vec<String>, col: int, ascending: bool) -> bool {
    if ascending {
        key_cmp(strs_view(a@), strs_view(b@), col) <= 0
    } else {
        key_cmp(strs_view(b@), strs_view(a@), col) <= 0
    }
}

/// Every row may stand before the next one.
pub open spec fn rows_sorted(rows: Seq<Vec<String>>, col: int, ascending: bool) -> bool {
    forall|k: int| 0 <= k < rows.len() - 1 ==> #[trigger] in_order(rows[k], rows[k + 1], col, ascending)
}

proof fn lemma_text_cmp_antisymmetric(a: Seq<char>, b: Seq<char>, k: int)
    requires
        0 <= k,
    ensures
        text_cmp_from(a, b, k) == -text_cmp_from(b, a, k),
    decreases a.len() - k,
{
    if k < a.len() && k < b.len() && (a[k] as u32) == (b[k] as u32) {
        lemma_text_cmp_antisymmetric(a, b, k + 1);
    }
}

proof fn lemma_out_of_order_flips(a: Vec<String>, b: Vec<String>, col: int, ascending: bool)
    requires
        !in_order(a, b, col, ascending),
    ensures
        in_order(b, a, col, ascending),
{
    let va = strs_view(a@);
    let vb = strs_view(b@);
    lemma_text_cmp_antisymmetric(cell_at(va, col), cell_at(vb, col), 0);
}

fn compare_text(a: &str, b: &str) -> (r: i8)
    ensures
        r == text_cmp(a@, b@),
{
    let an = a.unicode_len();
    let bn = b.unicode_len();
    let mut k: usize = 0;
    loop
        invariant
            an == a@.len(),
            bn == b@.len(),
            0 <= k,
            k <= an,
            k <= bn,
            text_cmp_from(a@, b@, 0) == text_cmp_from(a@, b@, k as int),
        decreases an - k,
    {
        if k >= an && k >= bn {
            return 0;
        } else if k >= an {
            return -1;
        } else if k >= bn {
            return 1;
        }
        let ca = a.get_char(k) as u32;
        let cb = b.get_char(k) as u32;
        if ca < cb {
            return -1;
        } else if ca > cb {
            return 1;
        }
        k = k + 1;
    }
}

fn cell_text(row: &Vec<String>, col: usize) -> (r: &str)
    ensures
        r@ == cell_at(strs_view(row@), col as int),
{
    if col < row.len() {
        row[col].as_str()
    } else {
        proof {
            reveal_strlit("");
        }
        ""
    }
}

fn compare_rows(a: &Vec<String>, b: &Vec<String>, col: usize) -> (r: i8)
    ensures
        r == key_cmp(strs_view(a@), strs_view(b@), col as int),
{
    let ca = cell_text(a, col);
    let cb = cell_text(b, col);
    match (parse_int(ca), parse_int(cb)) {
        (Some(x), Some(y)) => if x < y {
            -1
        } else if x > y {
            1
        } else {
            0
        },
        _ => compare_text(ca, cb),
    }
}

fn rows_in_order(a: &Vec<String>, b: &Vec<String>, col: usize, ascending: bool) -> (r: bool)
    ensures
        r == in_order(*a, *b, col as int, ascending),
{
    if ascending {
        compare_rows(a, b, col) <= 0
    } else {
        compare_rows(b, a, col) <= 0
    }
}

impl Table {
    /// Sorts the rows on column `column_index`: ascending, or descending when
    /// the table was already sorted ascending on that column. Cells that both
    /// are decimal integers compare as numbers, others as text, so a cell with
    /// a fraction such as "1.5" sorts as text. The sort is stable. A column
    /// past the last header changes nothing.
    pub fn sort_by_column(&mut self, column_index: usize)
        ensures
            column_index >= old(self).headers@.len() ==> *final(self) == *old(self),
            column_index < old(self).headers@.len() ==> {
                let asc = if old(self).sort_column == Some(column_index) { !old(self).sort_ascending } else { true };
                &&& final(self).sort_column == Some(column_index)
                &&& final(self).sort_ascending == asc
                &&& final(self).data@.to_multiset() == old(self).data@.to_multiset()
                &&& rows_sorted(final(self).data@, column_index as int, asc)
                &&& final(self).headers@ == old(self).headers@
                &&& final(self).title == old(self).title
                &&& final(self).sortable == old(self).sortable
                &&& final(self).filterable == old(self).filterable
                &&& final(self).striped == old(self).striped
            },
    {
        broadcast use vstd::seq_lib::group_to_multiset_ensures;
        broadcast use vstd::seq_lib::to_multiset_insert;
        broadcast use vstd::seq_lib::to_multiset_remove;

        if column_index >= self.headers.len() {
            return;
        }
        let ascending = if self.sort_column == Some(column_index) {
            !self.sort_ascending
        } else {
            true
        };
        self.sort_column = Some(column_index);
        self.sort_ascending = ascending;
        let ghost col = column_index as int;
        let ghost orig = self.data@;
        let n = self.data.len();
        let mut i: usize = 1;
        while i < n
            invariant
                n == self.data@.len(),
                self.data@.to_multiset() == orig.to_multiset(),
                1 <= i || n == 0,
                forall|k: int| 0 <= k < i - 1 && k < n - 1 ==> #[trigger] in_order(self.data@[k], self.data@[k + 1], col, ascending),
                col == column_index as int,
                self.sort_column == Some(column_index),
                self.sort_ascending == ascending,
                self.headers@ == old(self).headers@,
                self.title == old(self).title,
                self.sortable == old(self).sortable,
                self.filterable == old(self).filterable,
                self.striped == old(self).striped,
            decreases n - i,
        {
            let mut j: usize = i;
            loop
                invariant
                    n == self.data@.len(),
                    self.data@.to_multiset() == orig.to_multiset(),
                    0 <= j <= i < n,
                    forall|k: int| 0 <= k < j - 1 ==> #[trigger] in_order(self.data@[k], self.data@[k + 1], col, ascending),
                    forall|k: int| j < k < i ==> #[trigger] in_order(self.data@[k], self.data@[k + 1], col, ascending),
                    j < i ==> in_order(self.data@[j as int], self.data@[j + 1], col, ascending),
                    0 < j < i ==> in_order(self.data@[j - 1], self.data@[j + 1], col, ascending),
                    col == column_index as int,
                    self.sort_column == Some(column_index),
                    self.sort_ascending == ascending,
                    self.headers@ == old(self).headers@,
                    self.title == old(self).title,
                    self.sortable == old(self).sortable,
                    self.filterable == old(self).filterable,
                    self.striped == old(self).striped,
                ensures
                    n == self.data@.len(),
                    self.data@.to_multiset() == orig.to_multiset(),
                    forall|k: int| 0 <= k < i ==> #[trigger] in_order(self.data@[k], self.data@[k + 1], col, ascending),
                    self.sort_column == Some(column_index),
                    self.sort_ascending == ascending,
                    self.headers@ == old(self).headers@,
                    self.title == old(self).title,
                    self.sortable == old(self).sortable,
                    self.filterable == old(self).filterable,
                    self.striped == old(self).striped,
                decreases j,
            {
                let ok = if j == 0 {
                    true
                } else {
                    rows_in_order(&self.data[j - 1], &self.data[j], column_index, ascending)
                };
                if ok {
                    proof {
                        assert(j == 0 || in_order(self.data@[j - 1], self.data@[j as int], col, ascending));
                        assert forall|k: int| 0 <= k < i implies #[trigger] in_order(self.data@[k], self.data@[k + 1], col, ascending) by {
                            if k < j - 1 {
                            } else if k == j - 1 {
                            } else if k == j {
                            } else {
                            }
                        }
                    }
                    break;
                }
                let ghost d = self.data@;
                proof {
                    lemma_out_of_order_flips(d[j - 1], d[j as int], col, ascending);
                }
                let x = self.data.remove(j);
                proof {
                    assert(x == d[j as int]);
                    vstd::seq_lib::to_multiset_remove(d, j as int);
                }
                self.data.insert(j - 1, x);
                proof {
                    assert(self.data@ == d.remove(j as int).insert(j - 1, x));
                    vstd::seq_lib::to_multiset_insert(d.remove(j as int), j - 1, x);
                    d.to_multiset_ensures();
                    assert(d.contains(d[j as int]));
                    assert(d.to_multiset().count(d[j as int]) > 0);
                    assert(d.to_multiset().remove(d[j as int]).insert(d[j as int]) =~= d.to_multiset());
                    assert(self.data@.to_multiset() == d.to_multiset());
                    assert(self.data@[j - 1] == d[j as int]);
                    assert(self.data@[j as int] == d[j - 1]);
                    assert forall|k: int| 0 <= k < n && k != j - 1 && k != j implies #[trigger] self.data@[k] == d[k] by {}
                    if j >= 2 {
                        let k = j - 2;
                        assert(in_order(d[k], d[k + 1], col, ascending));
                        assert(self.data@[k] == d[k]);
                    }
                }
                j = j - 1;
            }
            i = i + 1;
        }
    }
}

} // verus!
