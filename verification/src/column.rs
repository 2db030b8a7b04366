//! The tagged union over the three typed series: the unit every
//! table-level operation touches, with fallible kind-changing casts and
//! the kind-inference promotion used during ingestion.
use vstd::prelude::*;
use crate::data::{Data, Error, FloatVal, Kind};
use crate::series::Series;
use crate::text;

verus! {

/// One table column: exactly one of the three typed series, the tag and
/// the series' element type always agreeing by construction.
#[derive(Debug)]
pub enum Column {
    Int(Series<i64>),
    Float(Series<FloatVal>),
    Text(Series<String>),
}

impl Column {
    /// The column's kind: the variant tag.
    pub open spec fn kind(self) -> Kind {
        match self {
            Column::Int(_) => Kind::Int,
            Column::Float(_) => Kind::Float,
            Column::Text(_) => Kind::Text,
        }
    }

    /// The column's name.
    pub open spec fn spec_name(self) -> Seq<char> {
        match self {
            Column::Int(s) => s.name@,
            Column::Float(s) => s.name@,
            Column::Text(s) => s.name@,
        }
    }

    /// The number of stored values.
    pub open spec fn spec_len(self) -> nat {
        match self {
            Column::Int(s) => s.data@.len(),
            Column::Float(s) => s.data@.len(),
            Column::Text(s) => s.data@.len(),
        }
    }

    /// The canonical text of each value, in order: the uniform model that
    /// rendering and ingestion contracts are stated over.
    pub open spec fn cells(self) -> Seq<Seq<char>> {
        match self {
            Column::Int(s) => s.cells(),
            Column::Float(s) => s.cells(),
            Column::Text(s) => s.cells(),
        }
    }

    /// Each value as an erased handle, in order.
    pub open spec fn erased(self) -> Seq<Data> {
        match self {
            Column::Int(s) => s.data@.map_values(|v: i64| Data::Int(v)),
            Column::Float(s) => s.data@.map_values(|v: FloatVal| Data::Float(v)),
            Column::Text(s) => s.data@.map_values(|v: String| Data::Text(v)),
        }
    }

    /// Well-formedness: a float column holds only float-denoting texts.
    pub open spec fn wf(self) -> bool {
        self matches Column::Float(s) ==> s.all_valid()
    }

    /// The number of stored values.
    pub fn len(&self) -> (n: usize)
        ensures
            n == self.spec_len(),
    {
        match self {
            Column::Int(s) => s.len(),
            Column::Float(s) => s.len(),
            Column::Text(s) => s.len(),
        }
    }

    /// Whether no value is stored.
    pub fn is_empty(&self) -> (r: bool)
        ensures
            r == (self.spec_len() == 0),
    {
        match self {
            Column::Int(s) => s.is_empty(),
            Column::Float(s) => s.is_empty(),
            Column::Text(s) => s.is_empty(),
        }
    }

    /// An owned copy of the name.
    pub fn name(&self) -> (r: String)
        ensures
            r@ == self.spec_name(),
    {
        match self {
            Column::Int(s) => s.name(),
            Column::Float(s) => s.name(),
            Column::Text(s) => s.name(),
        }
    }

    /// Whether the column's kind is Int.
    pub fn is_int(&self) -> (r: bool)
        ensures
            r == (self.kind() == Kind::Int),
    {
        matches!(self, Column::Int(_))
    }

    /// Whether the column's kind is Float.
    pub fn is_float(&self) -> (r: bool)
        ensures
            r == (self.kind() == Kind::Float),
    {
        matches!(self, Column::Float(_))
    }

    /// Whether the column's kind is Text.
    pub fn is_text(&self) -> (r: bool)
        ensures
            r == (self.kind() == Kind::Text),
    {
        matches!(self, Column::Text(_))
    }

    /// Appends an erased value. Succeeds exactly when the value's runtime
    /// kind matches the column's kind; a mismatch changes nothing.
    pub fn add_value(&mut self, value: Data) -> (r: Result<(), Error>)
        ensures
            r is Ok <==> value.kind() == old(self).kind(),
            r is Ok ==> final(self).kind() == old(self).kind()
                && final(self).spec_name() == old(self).spec_name()
                && final(self).erased() == old(self).erased().push(value)
                && final(self).cells() == old(self).cells().push(value.text_of())
                && (old(self).wf() && value.valid() ==> final(self).wf()),
            r is Err ==> *final(self) == *old(self) && r == Err::<(), Error>(Error::TypeMismatch),
    {
        match self {
            Column::Int(series) => {
                match value {
                    Data::Int(v) => {
                        let ghost os = *series;
                        series.add_value(v);
                        proof {
                            assert(series.data@.map_values(|v: i64| Data::Int(v))
                                =~= os.data@.map_values(|v: i64| Data::Int(v)).push(Data::Int(v)));
                            assert(series.cells() =~= os.cells().push(text::int_to_text(v as int)));
                        }
                        Ok(())
                    },
                    _ => Err(Error::TypeMismatch),
                }
            },
            Column::Float(series) => {
                match value {
                    Data::Float(v) => {
                        let ghost os = *series;
                        let ghost gv = v;
                        series.add_value(v);
                        proof {
                            assert(series.data@.map_values(|x: FloatVal| Data::Float(x))
                                =~= os.data@.map_values(|x: FloatVal| Data::Float(x)).push(
                                Data::Float(gv)));
                            assert(series.cells() =~= os.cells().push(gv@));
                        }
                        Ok(())
                    },
                    _ => Err(Error::TypeMismatch),
                }
            },
            Column::Text(series) => {
                match value {
                    Data::Text(v) => {
                        let ghost os = *series;
                        let ghost gv = v;
                        series.add_value(v);
                        proof {
                            assert(series.data@.map_values(|x: String| Data::Text(x))
                                =~= os.data@.map_values(|x: String| Data::Text(x)).push(
                                Data::Text(gv)));
                            assert(series.cells() =~= os.cells().push(gv@));
                        }
                        Ok(())
                    },
                    _ => Err(Error::TypeMismatch),
                }
            },
        }
    }

    /// Casts to an Int column. Identity on Int; refused outright on Float;
    /// on Text, the all-or-nothing element-wise integer parse.
    pub fn into_int(self) -> (r: Result<Column, Error>)
        ensures
            self.kind() == Kind::Int ==> r == Ok::<Column, Error>(self),
            self.kind() == Kind::Float ==> r == Err::<Column, Error>(Error::InvalidCast),
            self.kind() == Kind::Text ==> {
                &&& (r is Ok <==> text::all_int(self.cells()))
                &&& (r matches Ok(c) ==> c.kind() == Kind::Int && c.wf()
                    && c.spec_name() == self.spec_name()
                    && c.spec_len() == self.spec_len()
                    && (forall|i: int| 0 <= i < c.erased().len()
                        ==> #[trigger] c.erased()[i]
                            == Data::Int(text::int_of_text(self.cells()[i])->Some_0)))
                &&& (r matches Err(e) ==> (e matches Error::ParseError { text: bad, kind }
                    && kind == Kind::Int
                    && (exists|i: int| 0 <= i < self.cells().len()
                        && text::int_of_text(#[trigger] self.cells()[i]) is None
                        && bad@ == self.cells()[i]
                        && (forall|j: int| 0 <= j < i
                            ==> text::int_of_text(#[trigger] self.cells()[j]) is Some))))
            },
    {
        match self {
            Column::Int(series) => Ok(Column::Int(series)),
            Column::Float(_) => Err(Error::InvalidCast),
            Column::Text(series) => {
                match series.into_int() {
                    Ok(s) => {
                        let r = Column::Int(s);
                        proof {
                            assert forall|i: int| 0 <= i < r.erased().len() implies
                                #[trigger] r.erased()[i]
                                    == Data::Int(text::int_of_text(series.cells()[i])->Some_0) by {
                                assert(r.erased()[i] == Data::Int(r->Int_0.data@[i]));
                                assert(Some(r->Int_0.data@[i])
                                    == text::int_of_text(series.cells()[i]));
                            }
                        }
                        Ok(r)
                    },
                    Err(e) => Err(e),
                }
            },
        }
    }

    /// Casts to a Float column. The widening conversion on Int; identity
    /// on Float; on Text, the all-or-nothing element-wise float cast.
    pub fn into_float(self) -> (r: Result<Column, Error>)
        requires
            self.wf(),
        ensures
            self.kind() == Kind::Int ==> (r matches Ok(c) && c.kind() == Kind::Float && c.wf()
                && c.spec_name() == self.spec_name() && c.cells() == self.cells()),
            self.kind() == Kind::Float ==> r == Ok::<Column, Error>(self),
            self.kind() == Kind::Text ==> {
                &&& (r is Ok <==> text::all_float(self.cells()))
                &&& (r matches Ok(c) ==> c.kind() == Kind::Float && c.wf()
                    && c.spec_name() == self.spec_name()
                    && c.cells() == self.cells())
                &&& (r matches Err(e) ==> (e matches Error::ParseError { text: bad, kind }
                    && kind == Kind::Float
                    && (exists|i: int| 0 <= i < self.cells().len()
                        && !text::is_float_text(#[trigger] self.cells()[i])
                        && bad@ == self.cells()[i]
                        && (forall|j: int| 0 <= j < i
                            ==> text::is_float_text(#[trigger] self.cells()[j])))))
            },
    {
        let ghost gself = self;
        match self {
            Column::Int(series) => Ok(Column::Float(series.into_float())),
            Column::Float(series) => Ok(Column::Float(series)),
            Column::Text(series) => {
                proof {
                    assert(series.cells() == gself.cells());
                }
                match series.into_float() {
                    Ok(s) => {
                        let r = Column::Float(s);
                        proof {
                            assert(r.cells() == s.cells());
                            assert(r.wf());
                        }
                        Ok(r)
                    },
                    Err(e) => Err(e),
                }
            },
        }
    }

    /// Casts to a Text column; always succeeds, preserving each value's
    /// canonical text. Identity on Text.
    pub fn into_text(self) -> (r: Column)
        ensures
            r.kind() == Kind::Text,
            r.wf(),
            r.spec_name() == self.spec_name(),
            r.cells() == self.cells(),
            self.kind() == Kind::Text ==> r == self,
    {
        match self {
            Column::Int(series) => Column::Text(series.into_text()),
            Column::Float(series) => Column::Text(series.into_text()),
            Column::Text(series) => Column::Text(series),
        }
    }

    /// The display text of every value, in order.
    pub fn data_to_vector_string(&self) -> (r: Vec<String>)
        ensures
            r@.map_values(|s: String| s@) == self.cells(),
    {
        match self {
            Column::Int(s) => s.data_to_vector_string(),
            Column::Float(s) => s.data_to_vector_string(),
            Column::Text(s) => s.data_to_vector_string(),
        }
    }

    /// Each value as an erased handle, in order: the handle's kind is the
    /// column's kind and its text is the cell's text.
    pub fn data_any(&self) -> (r: Vec<Data>)
        ensures
            r@.len() == self.spec_len(),
            forall|i: int| 0 <= i < r@.len()
                ==> (#[trigger] r@[i]).kind() == self.kind()
                    && r@[i].text_of() == self.cells()[i],
            self.kind() == Kind::Int ==> r@ == self.erased(),
    {
        match self {
            Column::Int(s) => s.data_any(),
            Column::Float(s) => s.data_any(),
            Column::Text(s) => s.data_any(),
        }
    }

    /// An owned erased copy of each value, in order.
    pub fn data_box_any(&self) -> (r: Vec<Data>)
        ensures
            r@.len() == self.spec_len(),
            forall|i: int| 0 <= i < r@.len()
                ==> (#[trigger] r@[i]).kind() == self.kind()
                    && r@[i].text_of() == self.cells()[i],
            self.kind() == Kind::Int ==> r@ == self.erased(),
    {
        self.data_any()
    }
}

/// The kind a freshly ingested text column settles at: Int when every cell
/// parses as an integer, else Float when every cell matches the float
/// grammar, else Text.
pub open spec fn promo_kind(cells: Seq<Seq<char>>) -> Kind {
    if text::all_int(cells) {
        Kind::Int
    } else if text::all_float(cells) {
        Kind::Float
    } else {
        Kind::Text
    }
}

/// The cell texts after promotion: re-rendered canonically when the column
/// becomes Int, kept verbatim otherwise.
pub open spec fn promo_cells(cells: Seq<Seq<char>>) -> Seq<Seq<char>> {
    if text::all_int(cells) {
        cells.map_values(|t: Seq<char>| text::int_to_text(text::int_of_text(t)->Some_0 as int))
    } else {
        cells
    }
}

/// Promotes a freshly ingested Text column to the narrowest compatible
/// kind: Integer before Float before Text, never reordering rows and never
/// producing a partially cast column. Columns of other kinds are returned
/// unchanged.
pub fn promote(col: Column) -> (r: Column)
    requires
        col.wf(),
    ensures
        r.wf(),
        r.spec_name() == col.spec_name(),
        r.spec_len() == col.spec_len(),
        col.kind() == Kind::Text ==> r.kind() == promo_kind(col.cells())
            && r.cells() == promo_cells(col.cells()),
        col.kind() != Kind::Text ==> r == col,
{
    match col {
        Column::Text(series) => {
            let ghost cells = Column::Text(series).cells();
            match series.into_int() {
                Ok(s) => {
                    let r = Column::Int(s);
                    proof {
                        assert forall|i: int| 0 <= i < r.cells().len() implies
                            #[trigger] r.cells()[i] == promo_cells(cells)[i] by {
                            assert(Some(s.data@[i]) == text::int_of_text(cells[i]));
                        }
                        assert(r.cells() =~= promo_cells(cells));
                    }
                    r
                },
                Err(_) => {
                    match series.into_float() {
                        Ok(s) => Column::Float(s),
                        Err(_) => Column::Text(series),
                    }
                },
            }
        },
        other => other,
    }
}

} // verus!
