//! The closed kind set, the type-erased value handle, the float value
//! carried as validated text, and the library's error type.
use vstd::prelude::*;
use crate::text;

verus! {

/// The closed set of primitive column kinds.
#[derive(Clone, Copy, PartialEq, Eq, Structural, Debug)]
pub enum Kind {
    Int,
    Float,
    Text,
}

/// A 64-bit floating-point value, carried as the text that denotes it.
/// The text always matches the float-literal grammar, so a cast of the
/// column it sits in can never fail, and rendering it back is exact.
#[derive(Debug)]
pub struct FloatVal {
    text: String,
}

impl View for FloatVal {
    type V = Seq<char>;

    closed spec fn view(&self) -> Seq<char> {
        self.text@
    }
}

impl Clone for FloatVal {
    fn clone(&self) -> (r: Self)
        ensures
            r@ == self@,
    {
        FloatVal { text: self.text.clone() }
    }
}

impl FloatVal {
    /// Whether the carried text denotes a 64-bit float.
    pub open spec fn valid(self) -> bool {
        text::is_float_text(self@)
    }

    /// Wraps a float-denoting text; rejects any other text with a
    /// `ParseError` naming it.
    pub fn new(t: String) -> (r: Result<FloatVal, Error>)
        ensures
            text::is_float_text(t@) <==> r is Ok,
            r matches Ok(v) ==> v@ == t@ && v.valid(),
            r matches Err(e) ==> (e matches Error::ParseError { text: bad, kind }
                && bad@ == t@ && kind == Kind::Float),
    {
        if text::check_float_text(t.as_str()) {
            Ok(FloatVal { text: t })
        } else {
            Err(Error::ParseError { text: t, kind: Kind::Float })
        }
    }

    /// The carried text.
    pub fn as_text(&self) -> (r: &String)
        ensures
            r@ == self@,
    {
        &self.text
    }

    /// An owned copy of the carried text.
    pub fn to_text(&self) -> (r: String)
        ensures
            r@ == self@,
    {
        self.text.clone()
    }
}

/// A type-erased value handle: one scalar value together with its runtime
/// kind, used to move untyped data into and out of columns.
#[derive(Debug)]
pub enum Data {
    Int(i64),
    Float(FloatVal),
    Text(String),
}

impl Data {
    /// The runtime kind of the carried value.
    pub open spec fn kind(self) -> Kind {
        match self {
            Data::Int(_) => Kind::Int,
            Data::Float(_) => Kind::Float,
            Data::Text(_) => Kind::Text,
        }
    }

    /// The canonical text of the carried value.
    pub open spec fn text_of(self) -> Seq<char> {
        match self {
            Data::Int(v) => text::int_to_text(v as int),
            Data::Float(f) => f@,
            Data::Text(t) => t@,
        }
    }

    /// Whether a carried float value is valid; trivially true otherwise.
    pub open spec fn valid(self) -> bool {
        match self {
            Data::Float(f) => f.valid(),
            _ => true,
        }
    }
}

/// Every failure a table operation can report. Each operation's contract
/// says exactly which variant it returns, and on which inputs.
#[derive(Debug)]
pub enum Error {
    /// A column's length disagrees with the table's established row count.
    LengthMismatch,
    /// A column's name collides with an existing column's name.
    DuplicateName,
    /// A lookup by a name absent from the table.
    ColumnNotFound,
    /// An erased value's runtime kind disagrees with the column's kind.
    TypeMismatch,
    /// A text failed to parse as a value of the attempted kind.
    ParseError { text: String, kind: Kind },
    /// A cast the kind system never permits, such as float to integer.
    InvalidCast,
    /// A data row whose field count differs from the header's.
    RowShapeError,
}

} // verus!
