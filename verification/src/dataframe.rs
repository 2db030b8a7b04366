//! The table: an ordered collection of uniquely named columns sharing one
//! row count, with shape-validated appends, lookup by name, rendering to
//! delimited text and ingestion back from it.
use vstd::prelude::*;
use crate::column::{promo_cells, promo_kind, promote, Column};
use crate::data::{Data, Error};
use crate::series::Series;
use crate::text;

verus! {

/// The default field width used by the pretty renderer when none is given.
pub const FIELD_WIDTH: usize = 10;

/// An ordered collection of uniquely named columns sharing one row count.
#[derive(Debug)]
pub struct DataFrame {
    pub columns: Vec<Column>,
    pub index: Option<String>,
    pub num_rows: usize,
    pub num_cols: usize,
}

/// Whether `v` holds erased copies of exactly the values of column `c`.
pub open spec fn erased_like(v: Seq<Data>, c: Column) -> bool {
    &&& v.len() == c.spec_len()
    &&& forall|j: int| 0 <= j < v.len()
        ==> (#[trigger] v[j]).kind() == c.kind() && v[j].text_of() == c.cells()[j]
}

impl DataFrame {
    /// Well-formedness: the column count is the number of columns, every
    /// column's length is the row count (zero with no columns), the
    /// columns' names are pairwise distinct, and every column is itself
    /// well formed.
    pub open spec fn wf(self) -> bool {
        &&& self.num_cols == self.columns@.len()
        &&& forall|i: int| 0 <= i < self.columns@.len()
            ==> (#[trigger] self.columns@[i]).spec_len() == self.num_rows
                && self.columns@[i].wf()
        &&& (self.columns@.len() == 0 ==> self.num_rows == 0)
        &&& forall|i: int, j: int| 0 <= i < j < self.columns@.len()
            ==> (#[trigger] self.columns@[i]).spec_name()
                != (#[trigger] self.columns@[j]).spec_name()
    }

    /// Creates an empty table: no columns, no rows, no index column.
    pub fn new() -> (df: DataFrame)
        ensures
            df.wf(),
            df.columns@.len() == 0,
            df.num_rows == 0,
            df.num_cols == 0,
            df.index is None,
    {
        DataFrame { columns: Vec::new(), index: None, num_rows: 0, num_cols: 0 }
    }

    /// Appends a column. Fails with `LengthMismatch` when the table already
    /// has columns and the new column's length differs from the row count,
    /// else with `DuplicateName` when a column of that name exists; either
    /// failure leaves the table unchanged. On success the column is added
    /// at the end and its length becomes the row count.
    pub fn add_column(&mut self, column: Column) -> (r: Result<(), Error>)
        requires
            old(self).wf(),
            column.wf(),
        ensures
            final(self).wf(),
            ({
                let lenbad = old(self).columns@.len() > 0
                    && column.spec_len() != old(self).num_rows;
                let dup = exists|i: int| 0 <= i < old(self).columns@.len()
                    && (#[trigger] old(self).columns@[i]).spec_name() == column.spec_name();
                &&& (r is Ok <==> !lenbad && !dup)
                &&& (lenbad ==> r == Err::<(), Error>(Error::LengthMismatch)
                    && *final(self) == *old(self))
                &&& (!lenbad && dup ==> r == Err::<(), Error>(Error::DuplicateName)
                    && *final(self) == *old(self))
                &&& (r is Ok ==> final(self).columns@ == old(self).columns@.push(column)
                    && final(self).num_cols == old(self).num_cols + 1
                    && final(self).num_rows == column.spec_len()
                    && final(self).index == old(self).index)
            }),
    {
        if self.num_cols > 0 && column.len() != self.num_rows {
            return Err(Error::LengthMismatch);
        }
        let new_name: String = column.name();
        let mut i: usize = 0;
        while i < self.columns.len()
            invariant
                i <= self.columns@.len(),
                *self == *old(self),
                old(self).wf(),
                !(old(self).columns@.len() > 0 && column.spec_len() != old(self).num_rows),
                new_name@ == column.spec_name(),
                forall|j: int| 0 <= j < i
                    ==> (#[trigger] self.columns@[j]).spec_name() != column.spec_name(),
            decreases self.columns@.len() - i,
        {
            let existing: String = self.columns[i].name();
            if existing.eq(&new_name) {
                proof {
                    assert(old(self).columns@[i as int].spec_name() == column.spec_name());
                }
                return Err(Error::DuplicateName);
            }
            i = i + 1;
        }
        self.num_rows = column.len();
        self.columns.push(column);
        self.num_cols = self.columns.len();
        proof {
            assert forall|a: int, b: int| 0 <= a < b < self.columns@.len() implies
                (#[trigger] self.columns@[a]).spec_name()
                    != (#[trigger] self.columns@[b]).spec_name() by {
                if b < self.columns@.len() - 1 {
                    assert(self.columns@[a] == old(self).columns@[a]);
                    assert(self.columns@[b] == old(self).columns@[b]);
                } else {
                    assert(self.columns@[a] == old(self).columns@[a]);
                    assert(self.columns@[b] == column);
                }
            }
        }
        Ok(())
    }

    /// Looks a column up by exact name. Returns the unique column of that
    /// name, or `ColumnNotFound` when no column carries it.
    pub fn get_column(&self, name: &str) -> (r: Result<&Column, Error>)
        requires
            self.wf(),
        ensures
            (exists|i: int| 0 <= i < self.columns@.len()
                && (#[trigger] self.columns@[i]).spec_name() == name@) <==> r is Ok,
            r matches Ok(c) ==> (exists|i: int| 0 <= i < self.columns@.len()
                && *c == #[trigger] self.columns@[i]) && c.spec_name() == name@,
            r is Err ==> r == Err::<&Column, Error>(Error::ColumnNotFound),
    {
        let target: String = name.to_owned();
        let mut i: usize = 0;
        while i < self.columns.len()
            invariant
                i <= self.columns@.len(),
                target@ == name@,
                forall|j: int| 0 <= j < i
                    ==> (#[trigger] self.columns@[j]).spec_name() != name@,
            decreases self.columns@.len() - i,
        {
            let existing: String = self.columns[i].name();
            if existing.eq(&target) {
                return Ok(&self.columns[i]);
            }
            i = i + 1;
        }
        Err(Error::ColumnNotFound)
    }

    /// The values of the named column as erased handles, or
    /// `ColumnNotFound`.
    pub fn get_column_data(&self, name: &str) -> (r: Result<Vec<Data>, Error>)
        requires
            self.wf(),
        ensures
            (exists|i: int| 0 <= i < self.columns@.len()
                && (#[trigger] self.columns@[i]).spec_name() == name@) <==> r is Ok,
            r matches Ok(v) ==> exists|i: int| 0 <= i < self.columns@.len()
                && (#[trigger] self.columns@[i]).spec_name() == name@
                && erased_like(v@, self.columns@[i]),
            r is Err ==> r == Err::<Vec<Data>, Error>(Error::ColumnNotFound),
    {
        match self.get_column(name) {
            Ok(col) => Ok(col.data_any()),
            Err(e) => Err(Error::ColumnNotFound),
        }
    }

    /// Owned erased copies of the named column's values, or
    /// `ColumnNotFound`.
    pub fn get_column_data_copy(&self, name: &str) -> (r: Result<Vec<Data>, Error>)
        requires
            self.wf(),
        ensures
            (exists|i: int| 0 <= i < self.columns@.len()
                && (#[trigger] self.columns@[i]).spec_name() == name@) <==> r is Ok,
            r matches Ok(v) ==> exists|i: int| 0 <= i < self.columns@.len()
                && (#[trigger] self.columns@[i]).spec_name() == name@
                && erased_like(v@, self.columns@[i]),
            r is Err ==> r == Err::<Vec<Data>, Error>(Error::ColumnNotFound),
    {
        match self.get_column(name) {
            Ok(col) => Ok(col.data_box_any()),
            Err(e) => Err(Error::ColumnNotFound),
        }
    }

    /// Records the named column as the table's index column; fails with
    /// `ColumnNotFound` when no column carries the name. Storage and all
    /// other behaviour are unaffected.
    pub fn set_index(&mut self, name: &str) -> (r: Result<(), Error>)
        requires
            old(self).wf(),
        ensures
            final(self).wf(),
            (exists|i: int| 0 <= i < old(self).columns@.len()
                && (#[trigger] old(self).columns@[i]).spec_name() == name@) <==> r is Ok,
            final(self).columns@ == old(self).columns@,
            final(self).num_rows == old(self).num_rows,
            final(self).num_cols == old(self).num_cols,
            r is Ok ==> (final(self).index matches Some(n) && n@ == name@),
            r is Err ==> r == Err::<(), Error>(Error::ColumnNotFound)
                && final(self).index == old(self).index,
    {
        let mut i: usize = 0;
        while i < self.columns.len()
            invariant
                i <= self.columns@.len(),
                *self == *old(self),
                old(self).wf(),
                forall|j: int| 0 <= j < i
                    ==> (#[trigger] self.columns@[j]).spec_name() != name@,
            decreases self.columns@.len() - i,
        {
            let existing: String = self.columns[i].name();
            let target: String = name.to_owned();
            if existing.eq(&target) {
                proof {
                    assert(old(self).columns@[i as int].spec_name() == name@);
                }
                self.index = Some(target);
                return Ok(());
            }
            i = i + 1;
        }
        Err(Error::ColumnNotFound)
    }
}

// ---------------------------------------------------------------------------
// Rendering to delimited text
// ---------------------------------------------------------------------------

/// The columns' names, each right-justified to width `w`.
pub open spec fn padded_names(cols: Seq<Column>, w: nat) -> Seq<Seq<char>> {
    cols.map_values(|c: Column| text::pad_left(c.spec_name(), w))
}

/// Row `r`'s cell texts, each right-justified to width `w`.
pub open spec fn padded_row(cols: Seq<Column>, r: int, w: nat) -> Seq<Seq<char>> {
    cols.map_values(|c: Column| text::pad_left(c.cells()[r], w))
}

/// The header line: padded names joined by `sep`, ending in a line break;
/// empty when there is no column.
pub open spec fn header_text(cols: Seq<Column>, sep: char, w: nat) -> Seq<char> {
    if cols.len() == 0 {
        Seq::empty()
    } else {
        text::join_seq(padded_names(cols, w), sep) + seq!['\n']
    }
}

/// One data line: row `r`'s padded cells joined by `sep`, ending in a line
/// break; empty when there is no column.
pub open spec fn row_line_text(cols: Seq<Column>, r: int, sep: char, w: nat) -> Seq<char> {
    if cols.len() == 0 {
        Seq::empty()
    } else {
        text::join_seq(padded_row(cols, r, w), sep) + seq!['\n']
    }
}

/// The first `upto` data lines, in row order.
pub open spec fn rows_text(cols: Seq<Column>, upto: int, sep: char, w: nat) -> Seq<char>
    decreases upto,
{
    if upto <= 0 {
        Seq::empty()
    } else {
        rows_text(cols, upto - 1, sep, w) + row_line_text(cols, upto - 1, sep, w)
    }
}

/// The summary line reporting omitted rows.
pub open spec fn note_text(skipped: nat) -> Seq<char> {
    "... ("@ + text::nat_to_digits(skipped) + " rows skipped)\n"@
}

/// The full rendering: header, the first `shown` rows, and a summary line
/// when rows were omitted.
pub open spec fn table_text(df: DataFrame, sep: char, w: nat, shown: nat) -> Seq<char> {
    header_text(df.columns@, sep, w) + rows_text(df.columns@, shown as int, sep, w) + (
    if shown < df.num_rows {
        note_text((df.num_rows - shown) as nat)
    } else {
        Seq::empty()
    })
}

/// Joins the items, right-justified to `width`, with the one-character
/// separator, ending with a line break.
fn render_joined(items: &Vec<String>, sep: &str, width: usize) -> (s: String)
    requires
        sep@.len() == 1,
        items@.len() > 0,
    ensures
        s@ == text::join_seq(
            items@.map_values(|t: String| text::pad_left(t@, width as nat)),
            sep@[0],
        ) + seq!['\n'],
{
    let ghost parts = items@.map_values(|t: String| text::pad_left(t@, width as nat));
    let ghost sc = sep@[0];
    let mut s: String = String::new();
    let mut c: usize = 0;
    let n: usize = items.len();
    proof {
        assert(parts.skip(0) =~= parts);
        assert(s@ + (text::join_seq(parts, sc) + seq!['\n'])
            =~= text::join_seq(parts, sc) + seq!['\n']);
    }
    while c < n
        invariant
            c <= n,
            n == items@.len(),
            n > 0,
            sep@.len() == 1,
            sc == sep@[0],
            parts == items@.map_values(|t: String| text::pad_left(t@, width as nat)),
            text::join_seq(parts, sc) + seq!['\n'] == s@ + (if c < n {
                text::join_seq(parts.skip(c as int), sc) + seq!['\n']
            } else {
                Seq::<char>::empty()
            }),
        decreases n - c,
    {
        let padded: String = text::pad_left_str(items[c].as_str(), width);
        proof {
            assert(padded@ == parts[c as int]);
            text::lemma_join_skip(parts, sc, c as int);
        }
        s.append(padded.as_str());
        if c < n - 1 {
            s.append(sep);
            proof {
                assert(sep@ =~= seq![sc]);
            }
        } else {
            s.append("\n");
            proof {
                reveal_strlit("\n");
                assert("\n"@ =~= seq!['\n']);
            }
        }
        c = c + 1;
    }
    s
}

impl DataFrame {
    /// Renders the table: a header of right-justified names, up to
    /// `max_rows` data lines of right-justified cells (all rows when
    /// `None`), and a summary line when rows were omitted. A width of
    /// zero pads nothing; `None` uses the default width.
    pub fn pretty_string(&self, sep: &str, field_width: Option<usize>, max_rows: Option<usize>)
        -> (s: String)
        requires
            self.wf(),
            sep@.len() == 1,
        ensures
            ({
                let w = (match field_width {
                    Some(w) => w,
                    None => FIELD_WIDTH,
                }) as nat;
                let shown = (match max_rows {
                    Some(m) => if m < self.num_rows { m } else { self.num_rows },
                    None => self.num_rows,
                }) as nat;
                s@ == table_text(*self, sep@[0], w, shown)
            }),
    {
        let width: usize = match field_width {
            Some(w) => w,
            None => FIELD_WIDTH,
        };
        let shown: usize = match max_rows {
            Some(m) => if m < self.num_rows { m } else { self.num_rows },
            None => self.num_rows,
        };
        let ghost sc = sep@[0];
        let ghost cols = self.columns@;
        let mut s: String = String::new();
        if self.num_cols == 0 {
            proof {
                assert(table_text(*self, sc, width as nat, shown as nat) =~= Seq::<char>::empty());
            }
            return s;
        }
        // header
        let mut names: Vec<String> = Vec::new();
        let mut c: usize = 0;
        while c < self.columns.len()
            invariant
                c <= cols.len(),
                cols == self.columns@,
                names@.len() == c as int,
                forall|j: int| 0 <= j < c ==> (#[trigger] names@[j])@ == cols[j].spec_name(),
            decreases cols.len() - c,
        {
            names.push(self.columns[c].name());
            c = c + 1;
        }
        let header: String = render_joined(&names, sep, width);
        s.append(header.as_str());
        proof {
            assert(names@.map_values(|t: String| text::pad_left(t@, width as nat))
                =~= padded_names(cols, width as nat));
            assert(s@ == header_text(cols, sc, width as nat));
        }
        // per-column display texts
        let mut col_strings: Vec<Vec<String>> = Vec::new();
        let mut c2: usize = 0;
        while c2 < self.columns.len()
            invariant
                c2 <= cols.len(),
                cols == self.columns@,
                self.wf(),
                col_strings@.len() == c2 as int,
                forall|j: int| 0 <= j < c2
                    ==> (#[trigger] col_strings@[j])@.map_values(|t: String| t@)
                        == cols[j].cells(),
            decreases cols.len() - c2,
        {
            col_strings.push(self.columns[c2].data_to_vector_string());
            c2 = c2 + 1;
        }
        // data lines
        let ghost header_part = s@;
        let mut r: usize = 0;
        while r < shown
            invariant
                r <= shown,
                shown <= self.num_rows,
                cols == self.columns@,
                cols.len() > 0,
                self.wf(),
                sep@.len() == 1,
                sc == sep@[0],
                col_strings@.len() == cols.len(),
                forall|j: int| 0 <= j < cols.len()
                    ==> (#[trigger] col_strings@[j])@.map_values(|t: String| t@)
                        == cols[j].cells(),
                header_part == header_text(cols, sc, width as nat),
                s@ == header_part + rows_text(cols, r as int, sc, width as nat),
            decreases shown - r,
        {
            let mut items: Vec<String> = Vec::new();
            let mut c3: usize = 0;
            while c3 < col_strings.len()
                invariant
                    c3 <= cols.len(),
                    cols.len() > 0,
                    r < shown <= self.num_rows,
                    cols == self.columns@,
                    self.wf(),
                    col_strings@.len() == cols.len(),
                    forall|j: int| 0 <= j < cols.len()
                        ==> (#[trigger] col_strings@[j])@.map_values(|t: String| t@)
                            == cols[j].cells(),
                    items@.len() == c3 as int,
                    forall|j: int| 0 <= j < c3
                        ==> (#[trigger] items@[j])@ == cols[j].cells()[r as int],
                decreases cols.len() - c3,
            {
                proof {
                    assert(col_strings@[c3 as int]@.map_values(|t: String| t@)
                        == cols[c3 as int].cells());
                    assert(cols[c3 as int].cells().len() == self.num_rows);
                }
                let item: String = col_strings[c3][r].clone();
                items.push(item);
                c3 = c3 + 1;
            }
            let line: String = render_joined(&items, sep, width);
            s.append(line.as_str());
            proof {
                assert(items@.map_values(|t: String| text::pad_left(t@, width as nat))
                    =~= padded_row(cols, r as int, width as nat));
                assert(line@ == row_line_text(cols, r as int, sc, width as nat));
            }
            r = r + 1;
        }
        // summary line for omitted rows
        if shown < self.num_rows {
            let skipped: usize = self.num_rows - shown;
            let ghost before_note = s@;
            s.append("... (");
            let digits: String = text::render_u64(skipped as u64);
            s.append(digits.as_str());
            s.append(" rows skipped)\n");
            proof {
                assert(s@ == before_note + note_text(skipped as nat));
            }
        }
        proof {
            assert(s@ == table_text(*self, sc, width as nat, shown as nat));
        }
        s
    }
}

// ---------------------------------------------------------------------------
// Ingestion from delimited text
// ---------------------------------------------------------------------------

/// The input's lines: split at every line break, a final empty piece
/// (from a trailing line break) dropped.
pub open spec fn lines_of(t: Seq<char>) -> Seq<Seq<char>> {
    let raw = text::split_seq(t, '\n');
    if raw.len() > 0 && raw.last().len() == 0 {
        raw.drop_last()
    } else {
        raw
    }
}

/// The header's fields: the future column names, in order.
pub open spec fn ingest_names(t: Seq<char>, sep: char) -> Seq<Seq<char>> {
    text::split_seq(lines_of(t)[0], sep)
}

/// Whether every data line has exactly as many fields as the header.
pub open spec fn ingest_shape_ok(t: Seq<char>, sep: char) -> bool {
    forall|r: int| 1 <= r < lines_of(t).len()
        ==> text::split_seq(#[trigger] lines_of(t)[r], sep).len() == ingest_names(t, sep).len()
}

/// Whether two header fields collide.
pub open spec fn ingest_dup(t: Seq<char>, sep: char) -> bool {
    exists|i: int, j: int| 0 <= i < j < ingest_names(t, sep).len()
        && #[trigger] ingest_names(t, sep)[i] == #[trigger] ingest_names(t, sep)[j]
}

/// Column `c`'s raw text fields, one per data line, in row order.
pub open spec fn raw_col(t: Seq<char>, sep: char, c: int) -> Seq<Seq<char>> {
    Seq::new((lines_of(t).len() - 1) as nat, |r: int| text::split_seq(lines_of(t)[r + 1], sep)[c])
}

impl DataFrame {
    /// Ingests delimited text: the first line names one Text column per
    /// field, every further line contributes one field per column, each
    /// column is promoted to the narrowest compatible kind, and the
    /// columns are added to an empty table in header order. Fails with
    /// `RowShapeError` when a data line's field count differs from the
    /// header's, else with `DuplicateName` when two header fields collide.
    pub fn from_text(input: &str, sep: &str) -> (r: Result<DataFrame, Error>)
        requires
            input@.len() > 0,
            sep@.len() == 1,
        ensures
            ({
                let sc = sep@[0];
                let names = ingest_names(input@, sc);
                &&& (r is Ok <==> ingest_shape_ok(input@, sc) && !ingest_dup(input@, sc))
                &&& (!ingest_shape_ok(input@, sc)
                    ==> r == Err::<DataFrame, Error>(Error::RowShapeError))
                &&& (ingest_shape_ok(input@, sc) && ingest_dup(input@, sc)
                    ==> r == Err::<DataFrame, Error>(Error::DuplicateName))
                &&& (r matches Ok(df) ==> df.wf() && df.index is None
                    && df.num_cols == names.len()
                    && df.num_rows == lines_of(input@).len() - 1
                    && (forall|c: int| 0 <= c < names.len()
                        ==> (#[trigger] df.columns@[c]).spec_name() == names[c]
                            && df.columns@[c].kind() == promo_kind(raw_col(input@, sc, c))
                            && df.columns@[c].cells() == promo_cells(raw_col(input@, sc, c))))
            }),
    {
        let sc: char = sep.get_char(0);
        let ghost lns = lines_of(input@);
        let ghost names_g = ingest_names(input@, sc);
        // split into lines, dropping a final empty piece
        let mut lines: Vec<String> = text::split_str(input, '\n');
        proof {
            text::lemma_split_seq_len(input@, '\n');
        }
        let last: usize = lines.len() - 1;
        if lines[last].as_str().unicode_len() == 0 {
            proof {
                if lines@.len() == 1 {
                    assert(lines@[0]@ == input@);
                }
            }
            lines.pop();
        }
        proof {
            assert(lines@.map_values(|p: String| p@) =~= lns);
            assert(lines@.len() >= 1);
        }
        // header fields become the column names
        let names: Vec<String> = text::split_str(lines[0].as_str(), sc);
        proof {
            assert(lines@[0]@ == lns[0]);
            assert(names@.map_values(|p: String| p@) == names_g);
            text::lemma_split_seq_len(lns[0], sc);
        }
        let ncols: usize = names.len();
        // split every data line, validating its field count
        let mut rows: Vec<Vec<String>> = Vec::new();
        let mut r: usize = 1;
        while r < lines.len()
            invariant
                1 <= r <= lines@.len(),
                ncols == names_g.len(),
                sc == sep@[0],
                lns == lines_of(input@),
                names_g == ingest_names(input@, sc),
                lines@.map_values(|p: String| p@) == lns,
                rows@.len() == r - 1,
                forall|k: int| 1 <= k < r
                    ==> text::split_seq(#[trigger] lns[k], sc).len() == names_g.len(),
                forall|k: int| 0 <= k < r - 1
                    ==> (#[trigger] rows@[k])@.map_values(|p: String| p@)
                        == text::split_seq(lns[k + 1], sc),
            decreases lines@.len() - r,
        {
            let fields: Vec<String> = text::split_str(lines[r].as_str(), sc);
            proof {
                assert(lines@[r as int]@ == lns[r as int]);
            }
            if fields.len() != ncols {
                proof {
                    assert(text::split_seq(lns[r as int], sc).len() != names_g.len());
                    assert(!ingest_shape_ok(input@, sc));
                }
                return Err(Error::RowShapeError);
            }
            rows.push(fields);
            r = r + 1;
        }
        proof {
            assert(ingest_shape_ok(input@, sc));
        }
        // build one Text column per header field, promote it, and add it
        let mut df: DataFrame = DataFrame::new();
        let mut c: usize = 0;
        while c < ncols
            invariant
                c <= ncols,
                ncols == names_g.len(),
                ncols == names@.len(),
                sc == sep@[0],
                lns == lines_of(input@),
                names_g == ingest_names(input@, sc),
                names@.map_values(|p: String| p@) == names_g,
                rows@.len() == lns.len() - 1,
                forall|k: int| 1 <= k < lns.len()
                    ==> text::split_seq(#[trigger] lns[k], sc).len() == names_g.len(),
                forall|k: int| 0 <= k < rows@.len()
                    ==> (#[trigger] rows@[k])@.map_values(|p: String| p@)
                        == text::split_seq(lns[k + 1], sc),
                df.wf(),
                df.index is None,
                df.num_cols == c as int,
                df.columns@.len() == c as int,
                df.num_rows == if c > 0 { rows@.len() as int } else { 0 },
                forall|j: int| 0 <= j < c
                    ==> (#[trigger] df.columns@[j]).spec_name() == names_g[j]
                        && df.columns@[j].kind() == promo_kind(raw_col(input@, sc, j))
                        && df.columns@[j].cells() == promo_cells(raw_col(input@, sc, j)),
            decreases ncols - c,
        {
            // gather column c's raw fields, in row order
            let mut data: Vec<String> = Vec::new();
            let mut r2: usize = 0;
            while r2 < rows.len()
                invariant
                    r2 <= rows@.len(),
                    c < ncols,
                    ncols == names_g.len(),
                    lns == lines_of(input@),
                    rows@.len() == lns.len() - 1,
                    forall|k: int| 1 <= k < lns.len()
                        ==> text::split_seq(#[trigger] lns[k], sc).len() == names_g.len(),
                    forall|k: int| 0 <= k < rows@.len()
                        ==> (#[trigger] rows@[k])@.map_values(|p: String| p@)
                            == text::split_seq(lns[k + 1], sc),
                    data@.len() == r2 as int,
                    forall|k: int| 0 <= k < r2
                        ==> (#[trigger] data@[k])@ == text::split_seq(lns[k + 1], sc)[c as int],
                decreases rows@.len() - r2,
            {
                proof {
                    assert(rows@[r2 as int]@.map_values(|p: String| p@)
                        == text::split_seq(lns[r2 + 1], sc));
                }
                let item: String = rows[r2][c].clone();
                data.push(item);
                r2 = r2 + 1;
            }
            let series: Series<String> = Series::new(names[c].clone(), data);
            let col: Column = Column::Text(series);
            proof {
                assert(col.cells() =~= raw_col(input@, sc, c as int));
                assert(col.spec_name() == names_g[c as int]);
            }
            let pcol: Column = promote(col);
            let ghost old_df = df;
            match df.add_column(pcol) {
                Ok(_) => {},
                Err(_) => {
                    proof {
                        let j = choose|j: int| 0 <= j < old_df.columns@.len()
                            && (#[trigger] old_df.columns@[j]).spec_name() == pcol.spec_name();
                        assert(names_g[j] == names_g[c as int]);
                        assert(ingest_dup(input@, sc));
                    }
                    return Err(Error::DuplicateName);
                },
            }
            c = c + 1;
        }
        proof {
            assert forall|i: int, j: int| 0 <= i < j < names_g.len() implies
                #[trigger] names_g[i] != #[trigger] names_g[j] by {
                assert(df.columns@[i].spec_name() == names_g[i]);
                assert(df.columns@[j].spec_name() == names_g[j]);
            }
            assert(!ingest_dup(input@, sc));
        }
        Ok(df)
    }
}

} // verus!
