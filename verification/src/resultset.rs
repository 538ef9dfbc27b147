//! A forward-only cursor over the rows a query produced.  Each row holds
//! named columns; a column value is resolved once, at row construction, as
//! either a scalar string or the serialized text of a compound value.

use vstd::prelude::*;

verus! {

/// A column value: a plain scalar string, or the JSON text of a compound
/// (object-shaped) value.
pub enum ColumnValue {
    Scalar(String),
    Compound(String),
}

/// The model of a column value.
#[verifier::ext_equal]
pub enum ColumnValueModel {
    Scalar(Seq<char>),
    Compound(Seq<char>),
}

impl View for ColumnValue {
    type V = ColumnValueModel;

    open spec fn view(&self) -> ColumnValueModel {
        match self {
            ColumnValue::Scalar(s) => ColumnValueModel::Scalar(s@),
            ColumnValue::Compound(s) => ColumnValueModel::Compound(s@),
        }
    }
}

impl ColumnValue {
    /// A scalar column value.
    pub fn scalar(s: String) -> (c: ColumnValue)
        ensures
            c@ == ColumnValueModel::Scalar(s@),
    {
        ColumnValue::Scalar(s)
    }

    /// A compound column value carrying serialized text.
    pub fn compound(s: String) -> (c: ColumnValue)
        ensures
            c@ == ColumnValueModel::Compound(s@),
    {
        ColumnValue::Compound(s)
    }

    /// The text the column hands out, whichever variant it is.
    pub fn text(&self) -> (r: String)
        ensures
            r@ == col_text(self@),
    {
        match self {
            ColumnValue::Scalar(s) => s.clone(),
            ColumnValue::Compound(s) => s.clone(),
        }
    }
}

/// The text a column value hands out: the scalar itself, or the serialized
/// form of the compound value.
pub open spec fn col_text(c: ColumnValueModel) -> Seq<char> {
    match c {
        ColumnValueModel::Scalar(s) => s,
        ColumnValueModel::Compound(s) => s,
    }
}

/// The model of a row: named columns in selection order.
pub type RowModel = Seq<(Seq<char>, ColumnValueModel)>;

/// The view of an executable row.
pub open spec fn row_view(r: Seq<(String, ColumnValue)>) -> RowModel {
    r.map_values(|p: (String, ColumnValue)| (p.0@, p.1@))
}

/// The view of an executable row list.
pub open spec fn rows_view(rs: Seq<Vec<(String, ColumnValue)>>) -> Seq<RowModel> {
    rs.map_values(|r: Vec<(String, ColumnValue)>| row_view(r@))
}

/// The index of the first column named `key`, or `-1` when none is.
pub open spec fn row_find_idx(row: RowModel, key: Seq<char>) -> int
    decreases row.len(),
{
    if row.len() == 0 {
        -1
    } else if row[0].0 == key {
        0
    } else {
        let r = row_find_idx(row.skip(1), key);
        if r == -1 {
            -1
        } else {
            r + 1
        }
    }
}

pub proof fn lemma_row_find_idx(row: RowModel, key: Seq<char>)
    ensures
        -1 <= row_find_idx(row, key) < row.len(),
        row_find_idx(row, key) >= 0 ==> row[row_find_idx(row, key)].0 == key,
        forall|j: int|
            0 <= j < row.len() && (j < row_find_idx(row, key) || row_find_idx(row, key) == -1)
                ==> (#[trigger] row[j]).0 != key,
    decreases row.len(),
{
    if row.len() > 0 && row[0].0 != key {
        lemma_row_find_idx(row.skip(1), key);
        assert(forall|j: int| 1 <= j < row.len() ==> #[trigger] row[j] == row.skip(1)[j - 1]);
    }
}

/// Whether the row has a column named `key`.
pub open spec fn row_has_key(row: RowModel, key: Seq<char>) -> bool {
    row_find_idx(row, key) >= 0
}

/// The text of the first column named `key`.
pub open spec fn row_value(row: RowModel, key: Seq<char>) -> Seq<char> {
    col_text(row[row_find_idx(row, key)].1)
}

/// The model of a result set: the rows, and how many of them the cursor
/// has passed.
#[verifier::ext_equal]
pub struct RsModel {
    pub rows: Seq<RowModel>,
    pub cursor: int,
}

/// A single-pass cursor over the rows of one query execution.
pub struct ResultSet {
    rows: Vec<Vec<(String, ColumnValue)>>,
    cursor: usize,
}

impl View for ResultSet {
    type V = RsModel;

    closed spec fn view(&self) -> RsModel {
        RsModel { rows: rows_view(self.rows@), cursor: self.cursor as int }
    }
}

impl ResultSet {
    /// A fresh cursor standing before the first of the given rows.
    pub(crate) fn from_rows(rows: Vec<Vec<(String, ColumnValue)>>) -> (rs: ResultSet)
        ensures
            rs@ == (RsModel { rows: rows_view(rows@), cursor: 0 }),
    {
        ResultSet { rows, cursor: 0 }
    }

    /// Advances the cursor one row; `false` once the rows are exhausted.
    /// Single-pass: the cursor never rewinds.
    pub fn has_next(&mut self) -> (r: bool)
        ensures
            final(self)@.rows == old(self)@.rows,
            (if old(self)@.cursor < old(self)@.rows.len() {
                r == true && final(self)@.cursor == old(self)@.cursor + 1
            } else {
                r == false && final(self)@.cursor == old(self)@.cursor
            }),
    {
        if self.cursor < self.rows.len() {
            self.cursor = self.cursor + 1;
            true
        } else {
            false
        }
    }

    /// The text of the column named `key` in the row the cursor stands on.
    /// The cursor must have been advanced by a successful `has_next`, and
    /// the row must have such a column.
    pub fn value(&self, key: String) -> (r: String)
        requires
            1 <= self@.cursor <= self@.rows.len(),
            row_has_key(self@.rows[self@.cursor - 1], key@),
        ensures
            r@ == row_value(self@.rows[self@.cursor - 1], key@),
    {
        let ghost row_m = self@.rows[self@.cursor - 1];
        let row = &self.rows[self.cursor - 1];
        proof {
            assert(row_m == row_view(row@));
        }
        let mut i: usize = 0;
        while i < row.len()
            invariant
                row_m == row_view(row@),
                row_m == self@.rows[self@.cursor - 1],
                1 <= self@.cursor <= self@.rows.len(),
                row_m.len() == row.len(),
                i <= row.len(),
                row_has_key(row_m, key@),
                forall|j: int| 0 <= j < i ==> (#[trigger] row_m[j]).0 != key@,
            decreases row.len() - i,
        {
            proof {
                assert(row_m[i as int] == (row@[i as int].0@, row@[i as int].1@));
            }
            if row[i].0 == key {
                proof {
                    lemma_row_find_idx(row_m, key@);
                    let fi = row_find_idx(row_m, key@);
                    if fi < i {
                        assert(row_m[fi].0 != key@);
                        assert(row_m[fi].0 == key@);
                    } else if fi > i {
                        assert(row_m[i as int].0 != key@);
                    }
                    assert(row_find_idx(row_m, key@) == i);
                    assert(row_value(row_m, key@) == col_text(row_m[i as int].1));
                }
                return row[i].1.text();
            }
            proof {
                assert(row_m[i as int].0 != key@);
            }
            i = i + 1;
        }
        proof {
            lemma_row_find_idx(row_m, key@);
            let fi = row_find_idx(row_m, key@);
            assert(row_m[fi].0 == key@);
            assert(row_m[fi].0 != key@);
        }
        String::new()
    }
}

} // verus!
