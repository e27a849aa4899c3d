use vstd::prelude::*;

verus! {

/// One cell as the wire protocol delivers it.
#[derive(Clone, Debug, PartialEq)]
pub enum CompactValue {
    Null,
    Bool(bool),
    I64(i64),
    /// The bit pattern of a 64-bit float (`f64::to_bits`).
    F64(u64),
    Str(String),
    Bytes(Vec<u8>),
    /// Days since 1970-01-01.
    Date(i32),
    /// Nanoseconds since midnight.
    Time(i64),
    /// Microseconds since 1970-01-01T00:00:00.
    DateTime(i64),
    /// Microseconds since 1970-01-01T00:00:00 UTC, and the offset in minutes.
    DateTimeOffset(i64, i16),
    /// Mantissa, precision and scale.
    Decimal(i128, u8, u8),
    Guid([u8; 16]),
}

/// One result set under construction: its cells row-major, plus the row being filled.
pub struct PyRowWriter {
    pub col_count: usize,
    pub values: Vec<CompactValue>,
    pub current_row: Vec<CompactValue>,
}

/// Number of whole rows in `len` row-major cells of `col_count` columns.
pub open spec fn rows_in(len: nat, col_count: nat) -> nat {
    if col_count == 0 {
        0
    } else {
        len / col_count
    }
}

proof fn lemma_cell_in_bounds(row: int, col: int, col_count: int, len: int)
    requires
        col_count > 0,
        0 <= row < len / col_count,
        0 <= col < col_count,
        len >= 0,
    ensures
        row * col_count + col < len,
{
    vstd::arithmetic::div_mod::lemma_fundamental_div_mod(len, col_count);
    assert(row * col_count + col_count <= (len / col_count) * col_count) by (nonlinear_arith)
        requires
            row + 1 <= len / col_count,
            col_count > 0,
    ;
}

/// A table with at least one whole row has a first cell.
pub(crate) proof fn lemma_first_cell(len: int, col_count: int)
    requires
        len >= 0,
        col_count >= 0,
        rows_in(len as nat, col_count as nat) >= 1,
    ensures
        len >= 1,
{
    vstd::arithmetic::div_mod::lemma_fundamental_div_mod(len, col_count);
    assert(col_count * (len / col_count) >= col_count) by (nonlinear_arith)
        requires
            len / col_count >= 1,
            col_count > 0,
    ;
}

impl PyRowWriter {
    /// Number of whole rows stored.
    pub open spec fn spec_row_count(&self) -> nat {
        rows_in(self.values@.len(), self.col_count as nat)
    }

    /// An empty table of `col_count` columns.
    pub fn new(col_count: usize) -> (r: Self)
        ensures
            r.col_count == col_count,
            r.values@ == Seq::<CompactValue>::empty(),
            r.current_row@ == Seq::<CompactValue>::empty(),
    {
        PyRowWriter { col_count, values: Vec::new(), current_row: Vec::new() }
    }

    pub fn row_count(&self) -> (r: usize)
        ensures
            r == self.spec_row_count(),
    {
        if self.col_count == 0 {
            0
        } else {
            self.values.len() / self.col_count
        }
    }

    /// The cell at `row`, `col`.
    pub fn get(&self, row: usize, col: usize) -> (r: &CompactValue)
        requires
            row < self.spec_row_count(),
            col < self.col_count,
        ensures
            *r == self.values@[row * self.col_count + col],
    {
        let n = self.values.len();
        proof {
            lemma_cell_in_bounds(
                row as int,
                col as int,
                self.col_count as int,
                self.values@.len() as int,
            );
        }
        &self.values[row * self.col_count + col]
    }

    /// Moves the row being filled to the end of the stored cells.
    pub fn finish_row(&mut self)
        ensures
            final(self).col_count == old(self).col_count,
            final(self).values@ == old(self).values@ + old(self).current_row@,
            final(self).current_row@ == Seq::<CompactValue>::empty(),
    {
        self.values.append(&mut self.current_row);
    }

    /// Adds one cell to the row being filled.
    pub fn push(&mut self, val: CompactValue)
        ensures
            final(self).col_count == old(self).col_count,
            final(self).values@ == old(self).values@,
            final(self).current_row@ == old(self).current_row@.push(val),
    {
        self.current_row.push(val);
    }
}

/// Descriptor of one column of a result set.
#[derive(Clone, Debug, PartialEq)]
pub struct ColumnInfo {
    pub name: String,
}

/// Collects the result sets of one batch from the protocol's callbacks.
pub struct MultiSetWriter {
    pub completed: Vec<(Vec<ColumnInfo>, PyRowWriter)>,
    pub current_cols: Option<Vec<ColumnInfo>>,
    pub current: Option<PyRowWriter>,
}

/// A writer whose columns and table are open together, or neither.
pub open spec fn writer_wf(w: MultiSetWriter) -> bool {
    w.current_cols.is_some() == w.current.is_some()
}

/// The result sets of a writer once the open one, if any, is closed.
pub open spec fn closed_sets(w: MultiSetWriter) -> Seq<(Vec<ColumnInfo>, PyRowWriter)> {
    match (w.current_cols, w.current) {
        (Some(cols), Some(t)) => w.completed@.push((cols, t)),
        _ => w.completed@,
    }
}

/// `new` is `old` with `val` added to the row being filled, if a result set is open.
pub open spec fn pushed_cell(old: MultiSetWriter, new: MultiSetWriter, val: CompactValue) -> bool {
    &&& new.completed == old.completed
    &&& new.current_cols == old.current_cols
    &&& match old.current {
        Some(t) => new.current matches Some(n) && n.col_count == t.col_count && n.values@ == t.values@
            && n.current_row@ == t.current_row@.push(val),
        None => new.current is None,
    }
}

impl MultiSetWriter {
    pub fn new() -> (r: Self)
        ensures
            r.completed@ == Seq::<(Vec<ColumnInfo>, PyRowWriter)>::empty(),
            r.current_cols is None,
            r.current is None,
    {
        MultiSetWriter { completed: Vec::new(), current_cols: None, current: None }
    }

    /// Closes the open result set, if any, and returns every result set in order.
    pub fn finalize(self) -> (r: Vec<(Vec<ColumnInfo>, PyRowWriter)>)
        ensures
            r@ == closed_sets(self),
    {
        let mut completed = self.completed;
        match (self.current_cols, self.current) {
            (Some(cols), Some(t)) => {
                completed.push((cols, t));
            },
            _ => {},
        }
        completed
    }

    /// A new result set starts: the open one is closed and an empty one with
    /// these columns is opened.
    pub fn on_metadata(&mut self, columns: Vec<ColumnInfo>)
        ensures
            final(self).completed@ == closed_sets(*old(self)),
            final(self).current_cols == Some(columns),
            final(self).current matches Some(t) && t.col_count == columns@.len() && t.values@.len()
                == 0 && t.current_row@.len() == 0,
    {
        let cols = self.current_cols.take();
        let t = self.current.take();
        match (cols, t) {
            (Some(cols), Some(t)) => {
                self.completed.push((cols, t));
            },
            _ => {},
        }
        let col_count = columns.len();
        self.current_cols = Some(columns);
        self.current = Some(PyRowWriter::new(col_count));
    }

    /// The row being filled is complete.
    pub fn on_row_done(&mut self)
        ensures
            final(self).completed == old(self).completed,
            final(self).current_cols == old(self).current_cols,
            match old(self).current {
                Some(t) => final(self).current matches Some(n) && n.col_count == t.col_count
                    && n.values@ == t.values@ + t.current_row@ && n.current_row@.len() == 0,
                None => final(self).current is None,
            },
    {
        match self.current.take() {
            Some(mut t) => {
                t.finish_row();
                self.current = Some(t);
            },
            None => {},
        }
    }

    /// An informational server message: not kept.
    pub fn on_info(&mut self, _number: u32, _message: &str)
        ensures
            *final(self) == *old(self),
    {
    }

    fn push_cell(&mut self, val: CompactValue)
        ensures
            pushed_cell(*old(self), *final(self), val),
    {
        match self.current.take() {
            Some(mut t) => {
                t.push(val);
                self.current = Some(t);
            },
            None => {},
        }
    }

    pub fn write_null(&mut self, _col: usize)
        ensures
            pushed_cell(*old(self), *final(self), CompactValue::Null),
    {
        self.push_cell(CompactValue::Null);
    }

    pub fn write_bool(&mut self, _col: usize, val: bool)
        ensures
            pushed_cell(*old(self), *final(self), CompactValue::Bool(val)),
    {
        self.push_cell(CompactValue::Bool(val));
    }

    pub fn write_u8(&mut self, _col: usize, val: u8)
        ensures
            pushed_cell(*old(self), *final(self), CompactValue::I64(val as i64)),
    {
        self.push_cell(CompactValue::I64(val as i64));
    }

    pub fn write_i16(&mut self, _col: usize, val: i16)
        ensures
            pushed_cell(*old(self), *final(self), CompactValue::I64(val as i64)),
    {
        self.push_cell(CompactValue::I64(val as i64));
    }

    pub fn write_i32(&mut self, _col: usize, val: i32)
        ensures
            pushed_cell(*old(self), *final(self), CompactValue::I64(val as i64)),
    {
        self.push_cell(CompactValue::I64(val as i64));
    }

    pub fn write_i64(&mut self, _col: usize, val: i64)
        ensures
            pushed_cell(*old(self), *final(self), CompactValue::I64(val)),
    {
        self.push_cell(CompactValue::I64(val));
    }

    /// A 64-bit float cell, given by its bit pattern.
    pub fn write_f64(&mut self, _col: usize, bits: u64)
        ensures
            pushed_cell(*old(self), *final(self), CompactValue::F64(bits)),
    {
        self.push_cell(CompactValue::F64(bits));
    }

    pub fn write_str(&mut self, _col: usize, val: &str)
        ensures
            exists|s: String| s@ == val@ && pushed_cell(*old(self), *final(self), CompactValue::Str(s)),
    {
        let s = val.to_owned();
        self.push_cell(CompactValue::Str(s));
    }

    pub fn write_bytes(&mut self, _col: usize, val: &[u8])
        ensures
            exists|b: Vec<u8>| b@ == val@ && pushed_cell(*old(self), *final(self), CompactValue::Bytes(b)),
    {
        let b = vstd::slice::slice_to_vec(val);
        self.push_cell(CompactValue::Bytes(b));
    }

    pub fn write_date(&mut self, _col: usize, days: i32)
        ensures
            pushed_cell(*old(self), *final(self), CompactValue::Date(days)),
    {
        self.push_cell(CompactValue::Date(days));
    }

    pub fn write_time(&mut self, _col: usize, nanos: i64)
        ensures
            pushed_cell(*old(self), *final(self), CompactValue::Time(nanos)),
    {
        self.push_cell(CompactValue::Time(nanos));
    }

    pub fn write_datetime(&mut self, _col: usize, micros: i64)
        ensures
            pushed_cell(*old(self), *final(self), CompactValue::DateTime(micros)),
    {
        self.push_cell(CompactValue::DateTime(micros));
    }

    pub fn write_datetimeoffset(&mut self, _col: usize, micros: i64, offset_minutes: i16)
        ensures
            pushed_cell(*old(self), *final(self), CompactValue::DateTimeOffset(micros, offset_minutes)),
    {
        self.push_cell(CompactValue::DateTimeOffset(micros, offset_minutes));
    }

    pub fn write_decimal(&mut self, _col: usize, value: i128, precision: u8, scale: u8)
        ensures
            pushed_cell(*old(self), *final(self), CompactValue::Decimal(value, precision, scale)),
    {
        self.push_cell(CompactValue::Decimal(value, precision, scale));
    }

    pub fn write_guid(&mut self, _col: usize, bytes: &[u8; 16])
        ensures
            pushed_cell(*old(self), *final(self), CompactValue::Guid(*bytes)),
    {
        self.push_cell(CompactValue::Guid(*bytes));
    }
}

} // verus!
