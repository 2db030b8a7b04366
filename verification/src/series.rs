//! A homogeneous, named, growable sequence of values of one primitive
//! kind: the unit of storage backing every table column.
use vstd::prelude::*;
use crate::data::{Data, Error, FloatVal, Kind};
use crate::text;

verus! {

/// A named sequence of values of one kind.
#[derive(Debug)]
pub struct Series<T> {
    pub name: String,
    pub data: Vec<T>,
}

impl<T> Series<T> {
    /// Stores the name and the initial values as given.
    pub fn new(name: String, data: Vec<T>) -> (s: Self)
        ensures
            s.name@ == name@,
            s.data@ == data@,
    {
        Self { name, data }
    }

    /// Appends one value, preserving order.
    pub fn add_value(&mut self, value: T)
        ensures
            final(self).name@ == old(self).name@,
            final(self).data@ == old(self).data@.push(value),
    {
        self.data.push(value);
    }

    /// The number of stored values.
    pub fn len(&self) -> (n: usize)
        ensures
            n == self.data@.len(),
    {
        self.data.len()
    }

    /// Whether no value is stored.
    pub fn is_empty(&self) -> (r: bool)
        ensures
            r == (self.data@.len() == 0),
    {
        self.data.len() == 0
    }

    /// An owned copy of the name.
    pub fn name(&self) -> (r: String)
        ensures
            r@ == self.name@,
    {
        self.name.clone()
    }

    /// A reference to the stored values.
    pub fn data_ref(&self) -> (r: &Vec<T>)
        ensures
            r@ == self.data@,
    {
        &self.data
    }
}

impl Series<i64> {
    /// The canonical text of each value, in order.
    pub open spec fn cells(self) -> Seq<Seq<char>> {
        self.data@.map_values(|v: i64| text::int_to_text(v as int))
    }

    /// Casts every value through the widening integer-to-float conversion;
    /// always succeeds and keeps each value's canonical decimal text.
    pub fn into_float(self) -> (r: Series<FloatVal>)
        ensures
            r.name@ == self.name@,
            r.cells() == self.cells(),
            forall|i: int| 0 <= i < r.data@.len() ==> (#[trigger] r.data@[i]).valid(),
    {
        let ghost orig = self;
        let mut data: Vec<FloatVal> = Vec::new();
        let mut i: usize = 0;
        while i < self.data.len()
            invariant
                i <= self.data@.len(),
                self == orig,
                data@.len() == i as int,
                forall|j: int| 0 <= j < i
                    ==> (#[trigger] data@[j])@ == text::int_to_text(orig.data@[j] as int),
                forall|j: int| 0 <= j < i ==> (#[trigger] data@[j]).valid(),
            decreases self.data@.len() - i,
        {
            let t: String = text::render_int(self.data[i]);
            proof {
                lemma_int_text_valid_float(self.data@[i as int]);
            }
            let v: FloatVal = match FloatVal::new(t) {
                Ok(v) => v,
                Err(_) => {
                    proof {
                        assert(false);
                    }
                    unreached()
                },
            };
            data.push(v);
            i = i + 1;
        }
        let r = Series { name: self.name, data };
        proof {
            assert(r.cells() =~= orig.cells());
        }
        r
    }

    /// The display text of every value, in order.
    pub fn data_to_vector_string(&self) -> (r: Vec<String>)
        ensures
            r@.map_values(|s: String| s@) == self.cells(),
    {
        let mut v: Vec<String> = Vec::new();
        let mut i: usize = 0;
        while i < self.data.len()
            invariant
                i <= self.data@.len(),
                v@.len() == i as int,
                forall|j: int| 0 <= j < i
                    ==> (#[trigger] v@[j])@ == text::int_to_text(self.data@[j] as int),
            decreases self.data@.len() - i,
        {
            v.push(text::render_int(self.data[i]));
            i = i + 1;
        }
        proof {
            assert(v@.map_values(|s: String| s@) =~= self.cells());
        }
        v
    }

    /// Each value as an erased handle, in order.
    pub fn data_any(&self) -> (r: Vec<Data>)
        ensures
            r@ == self.data@.map_values(|v: i64| Data::Int(v)),
    {
        let mut v: Vec<Data> = Vec::new();
        let mut i: usize = 0;
        while i < self.data.len()
            invariant
                i <= self.data@.len(),
                v@.len() == i as int,
                forall|j: int| 0 <= j < i ==> #[trigger] v@[j] == Data::Int(self.data@[j]),
            decreases self.data@.len() - i,
        {
            v.push(Data::Int(self.data[i]));
            i = i + 1;
        }
        proof {
            assert(v@ =~= self.data@.map_values(|v: i64| Data::Int(v)));
        }
        v
    }

    /// An owned erased copy of each value, in order.
    pub fn data_box_any(&self) -> (r: Vec<Data>)
        ensures
            r@ == self.data@.map_values(|v: i64| Data::Int(v)),
    {
        self.data_any()
    }

    /// Casts every value to its canonical decimal text; always succeeds.
    pub fn into_text(self) -> (r: Series<String>)
        ensures
            r.name@ == self.name@,
            r.cells() == self.cells(),
    {
        let ghost orig = self;
        let mut data: Vec<String> = Vec::new();
        let mut i: usize = 0;
        while i < self.data.len()
            invariant
                i <= self.data@.len(),
                self == orig,
                data@.len() == i as int,
                forall|j: int| 0 <= j < i
                    ==> (#[trigger] data@[j])@ == text::int_to_text(orig.data@[j] as int),
            decreases self.data@.len() - i,
        {
            let t: String = text::render_int(self.data[i]);
            data.push(t);
            i = i + 1;
        }
        let r = Series { name: self.name, data };
        proof {
            assert(r.cells() =~= orig.cells());
        }
        r
    }
}

impl Series<FloatVal> {
    /// The carried text of each value, in order.
    pub open spec fn cells(self) -> Seq<Seq<char>> {
        self.data@.map_values(|v: FloatVal| v@)
    }

    /// Whether every stored value carries a float-denoting text.
    pub open spec fn all_valid(self) -> bool {
        forall|i: int| 0 <= i < self.data@.len() ==> (#[trigger] self.data@[i]).valid()
    }

    /// The display text of every value, in order.
    pub fn data_to_vector_string(&self) -> (r: Vec<String>)
        ensures
            r@.map_values(|s: String| s@) == self.cells(),
    {
        let mut v: Vec<String> = Vec::new();
        let mut i: usize = 0;
        while i < self.data.len()
            invariant
                i <= self.data@.len(),
                v@.len() == i as int,
                forall|j: int| 0 <= j < i ==> (#[trigger] v@[j])@ == self.data@[j]@,
            decreases self.data@.len() - i,
        {
            v.push(self.data[i].to_text());
            i = i + 1;
        }
        proof {
            assert(v@.map_values(|s: String| s@) =~= self.cells());
        }
        v
    }

    /// Each value as an erased handle, in order.
    pub fn data_any(&self) -> (r: Vec<Data>)
        ensures
            r@.len() == self.data@.len(),
            forall|i: int| 0 <= i < r@.len()
                ==> ((#[trigger] r@[i]) matches Data::Float(f) && f@ == self.data@[i]@),
    {
        let mut v: Vec<Data> = Vec::new();
        let mut i: usize = 0;
        while i < self.data.len()
            invariant
                i <= self.data@.len(),
                v@.len() == i as int,
                forall|j: int| 0 <= j < i
                    ==> ((#[trigger] v@[j]) matches Data::Float(f) && f@ == self.data@[j]@),
            decreases self.data@.len() - i,
        {
            v.push(Data::Float(self.data[i].clone()));
            i = i + 1;
        }
        v
    }

    /// An owned erased copy of each value, in order.
    pub fn data_box_any(&self) -> (r: Vec<Data>)
        ensures
            r@.len() == self.data@.len(),
            forall|i: int| 0 <= i < r@.len()
                ==> ((#[trigger] r@[i]) matches Data::Float(f) && f@ == self.data@[i]@),
    {
        self.data_any()
    }

    /// Casts every value to its text; always succeeds.
    pub fn into_text(self) -> (r: Series<String>)
        ensures
            r.name@ == self.name@,
            r.cells() == self.cells(),
    {
        let ghost orig = self;
        let mut data: Vec<String> = Vec::new();
        let mut i: usize = 0;
        while i < self.data.len()
            invariant
                i <= self.data@.len(),
                self == orig,
                data@.len() == i as int,
                forall|j: int| 0 <= j < i ==> (#[trigger] data@[j])@ == orig.data@[j]@,
            decreases self.data@.len() - i,
        {
            let t: String = self.data[i].to_text();
            data.push(t);
            i = i + 1;
        }
        let r = Series { name: self.name, data };
        proof {
            assert(r.cells() =~= orig.cells());
        }
        r
    }
}

impl Series<String> {
    /// The stored text of each value, in order.
    pub open spec fn cells(self) -> Seq<Seq<char>> {
        self.data@.map_values(|v: String| v@)
    }

    /// The display text of every value, in order.
    pub fn data_to_vector_string(&self) -> (r: Vec<String>)
        ensures
            r@.map_values(|s: String| s@) == self.cells(),
    {
        let mut v: Vec<String> = Vec::new();
        let mut i: usize = 0;
        while i < self.data.len()
            invariant
                i <= self.data@.len(),
                v@.len() == i as int,
                forall|j: int| 0 <= j < i ==> (#[trigger] v@[j])@ == self.data@[j]@,
            decreases self.data@.len() - i,
        {
            v.push(self.data[i].clone());
            i = i + 1;
        }
        proof {
            assert(v@.map_values(|s: String| s@) =~= self.cells());
        }
        v
    }

    /// Each value as an erased handle, in order.
    pub fn data_any(&self) -> (r: Vec<Data>)
        ensures
            r@.len() == self.data@.len(),
            forall|i: int| 0 <= i < r@.len()
                ==> ((#[trigger] r@[i]) matches Data::Text(t) && t@ == self.data@[i]@),
    {
        let mut v: Vec<Data> = Vec::new();
        let mut i: usize = 0;
        while i < self.data.len()
            invariant
                i <= self.data@.len(),
                v@.len() == i as int,
                forall|j: int| 0 <= j < i
                    ==> ((#[trigger] v@[j]) matches Data::Text(t) && t@ == self.data@[j]@),
            decreases self.data@.len() - i,
        {
            v.push(Data::Text(self.data[i].clone()));
            i = i + 1;
        }
        v
    }

    /// An owned erased copy of each value, in order.
    pub fn data_box_any(&self) -> (r: Vec<Data>)
        ensures
            r@.len() == self.data@.len(),
            forall|i: int| 0 <= i < r@.len()
                ==> ((#[trigger] r@[i]) matches Data::Text(t) && t@ == self.data@[i]@),
    {
        self.data_any()
    }

    /// Parses every element as a base-10 signed 64-bit integer. Succeeds
    /// exactly when every element parses; the first element that does not
    /// is reported in the error, and no partial column is ever produced.
    pub fn into_int(&self) -> (r: Result<Series<i64>, Error>)
        ensures
            r is Ok <==> text::all_int(self.cells()),
            r matches Ok(s) ==> s.name@ == self.name@ && s.data@.len() == self.data@.len()
                && (forall|i: int| 0 <= i < s.data@.len()
                    ==> Some(#[trigger] s.data@[i]) == text::int_of_text(self.cells()[i])),
            r matches Err(e) ==> (e matches Error::ParseError { text: bad, kind }
                && kind == Kind::Int
                && (exists|i: int| 0 <= i < self.cells().len()
                    && text::int_of_text(#[trigger] self.cells()[i]) is None && bad@ == self.cells()[i]
                    && (forall|j: int| 0 <= j < i
                        ==> text::int_of_text(#[trigger] self.cells()[j]) is Some))),
    {
        let mut data: Vec<i64> = Vec::new();
        let mut i: usize = 0;
        while i < self.data.len()
            invariant
                i <= self.data@.len(),
                data@.len() == i as int,
                forall|j: int| 0 <= j < i
                    ==> Some(#[trigger] data@[j]) == text::int_of_text(self.cells()[j]),
            decreases self.data@.len() - i,
        {
            proof {
                assert(self.cells()[i as int] == self.data@[i as int]@);
            }
            match text::parse_int(self.data[i].as_str()) {
                Some(v) => {
                    data.push(v);
                },
                None => {
                    let bad: String = self.data[i].clone();
                    proof {
                        assert(text::int_of_text(self.cells()[i as int]) is None);
                        assert(!text::all_int(self.cells()));
                        assert forall|j: int| 0 <= j < i implies
                            text::int_of_text(#[trigger] self.cells()[j]) is Some by {
                            assert(Some(data@[j]) == text::int_of_text(self.cells()[j]));
                        }
                    }
                    return Err(Error::ParseError { text: bad, kind: Kind::Int });
                },
            }
            i = i + 1;
        }
        proof {
            assert forall|j: int| 0 <= j < self.cells().len() implies
                text::int_of_text(#[trigger] self.cells()[j]) is Some by {
                assert(Some(data@[j]) == text::int_of_text(self.cells()[j]));
            }
        }
        Ok(Series { name: self.name.clone(), data })
    }

    /// Casts every element as the text of a 64-bit float. Succeeds exactly
    /// when every element matches the float-literal grammar, keeping each
    /// text; the first element that does not match is reported in the
    /// error, and no partial column is ever produced.
    pub fn into_float(&self) -> (r: Result<Series<FloatVal>, Error>)
        ensures
            r is Ok <==> text::all_float(self.cells()),
            r matches Ok(s) ==> s.name@ == self.name@ && s.cells() == self.cells()
                && s.all_valid(),
            r matches Err(e) ==> (e matches Error::ParseError { text: bad, kind }
                && kind == Kind::Float
                && (exists|i: int| 0 <= i < self.cells().len()
                    && !text::is_float_text(#[trigger] self.cells()[i]) && bad@ == self.cells()[i]
                    && (forall|j: int| 0 <= j < i
                        ==> text::is_float_text(#[trigger] self.cells()[j])))),
    {
        let mut data: Vec<FloatVal> = Vec::new();
        let mut i: usize = 0;
        while i < self.data.len()
            invariant
                i <= self.data@.len(),
                data@.len() == i as int,
                forall|j: int| 0 <= j < i ==> (#[trigger] data@[j])@ == self.cells()[j],
                forall|j: int| 0 <= j < i ==> (#[trigger] data@[j]).valid(),
            decreases self.data@.len() - i,
        {
            proof {
                assert(self.cells()[i as int] == self.data@[i as int]@);
            }
            let t: String = self.data[i].clone();
            match FloatVal::new(t) {
                Ok(v) => {
                    data.push(v);
                },
                Err(e) => {
                    proof {
                        assert(!text::is_float_text(self.cells()[i as int]));
                        assert(!text::all_float(self.cells()));
                        assert forall|j: int| 0 <= j < i implies
                            text::is_float_text(#[trigger] self.cells()[j]) by {
                            assert(data@[j]@ == self.cells()[j] && data@[j].valid());
                        }
                    }
                    return Err(e);
                },
            }
            i = i + 1;
        }
        let s = Series { name: self.name.clone(), data };
        proof {
            assert(s.cells() =~= self.cells());
            assert forall|j: int| 0 <= j < self.cells().len() implies
                text::is_float_text(#[trigger] self.cells()[j]) by {
                assert(data@[j]@ == self.cells()[j] && data@[j].valid());
            }
        }
        Ok(s)
    }
}

/// The canonical decimal text of an integer always matches the
/// float-literal grammar.
proof fn lemma_int_text_valid_float(v: i64)
    ensures
        text::is_float_text(text::int_to_text(v as int)),
{
    text::lemma_int_text_round_trip(v);
    text::lemma_int_text_is_float_text(text::int_to_text(v as int));
}

} // verus!
