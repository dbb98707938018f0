//! In-memory tables: named, typed columns and rows of cell values.
use crate::text::{
    decimal, digit_value, push_decimal, push_signed_decimal, signed_decimal,
    value_of_digit,
};
use crate::types::SourceType;
use vstd::string::*;
use vstd::prelude::*;

verus! {

/// One cell of a table.
#[derive(Debug)]
pub enum CellValue {
    Null,
    Boolean(bool),
    Int(i64),
    UInt(u64),
    /// A floating-point value, held as its decimal text.
    Real(String),
    Text(String),
}

impl Clone for CellValue {
    fn clone(&self) -> (r: Self)
        ensures
            r == *self,
    {
        match self {
            CellValue::Null => CellValue::Null,
            CellValue::Boolean(b) => CellValue::Boolean(*b),
            CellValue::Int(i) => CellValue::Int(*i),
            CellValue::UInt(u) => CellValue::UInt(*u),
            CellValue::Real(t) => CellValue::Real(t.clone()),
            CellValue::Text(t) => CellValue::Text(t.clone()),
        }
    }
}

/// A table: column names, their logical types, and rows of cells.
#[derive(Debug, Clone)]
pub struct Frame {
    pub columns: Vec<String>,
    pub dtypes: Vec<SourceType>,
    pub rows: Vec<Vec<CellValue>>,
}

/// The cells of a table, row by row.
pub open spec fn cells(rows: Seq<Vec<CellValue>>) -> Seq<Seq<CellValue>> {
    rows.map_values(|r: Vec<CellValue>| r@)
}

/// Index of the first name equal to `name`.
pub open spec fn first_index_of(names: Seq<String>, name: Seq<char>, i: int) -> bool {
    0 <= i < names.len() && names[i]@ == name && forall|j: int| 0 <= j < i ==> names[j]@ != name
}

pub open spec fn has_name(names: Seq<String>, name: Seq<char>) -> bool {
    exists|i: int| 0 <= i < names.len() && names[i]@ == name
}

impl Frame {
    /// One type per column and one cell per column in every row.
    pub open spec fn wf(&self) -> bool {
        &&& self.dtypes@.len() == self.columns@.len()
        &&& forall|i: int| 0 <= i < self.rows@.len() ==> self.rows@[i]@.len() == self.columns@.len()
    }

    /// The named, typed columns, in order.
    pub open spec fn fields(&self) -> Seq<(String, SourceType)> {
        Seq::new(self.columns@.len(), |i: int| (self.columns@[i], self.dtypes@[i]))
    }

    /// Whether every row has one cell per column and every column a type.
    pub fn is_well_formed(&self) -> (r: bool)
        ensures
            r == self.wf(),
    {
        if self.dtypes.len() != self.columns.len() {
            return false;
        }
        let mut i: usize = 0;
        while i < self.rows.len()
            invariant
                i <= self.rows@.len(),
                forall|k: int| 0 <= k < i ==> self.rows@[k]@.len() == self.columns@.len(),
            decreases self.rows.len() - i,
        {
            if self.rows[i].len() != self.columns.len() {
                return false;
            }
            i = i + 1;
        }
        true
    }

    /// Number of rows.
    pub fn height(&self) -> (r: usize)
        ensures
            r == self.rows@.len(),
    {
        self.rows.len()
    }

    /// Named, typed columns, in order.
    pub fn schema_fields(&self) -> (r: Vec<(String, SourceType)>)
        requires
            self.wf(),
        ensures
            r@ == self.fields(),
    {
        let mut r: Vec<(String, SourceType)> = Vec::new();
        let mut i: usize = 0;
        while i < self.columns.len()
            invariant
                self.wf(),
                i <= self.columns@.len(),
                r@ == self.fields().subrange(0, i as int),
            decreases self.columns.len() - i,
        {
            r.push((self.columns[i].clone(), self.dtypes[i]));
            assert(r@ =~= self.fields().subrange(0, i + 1));
            i = i + 1;
        }
        assert(r@ =~= self.fields());
        r
    }

    /// Position of the first column named `name`.
    pub fn column_index(&self, name: &str) -> (r: Option<usize>)
        ensures
            r matches Some(i) ==> first_index_of(self.columns@, name@, i as int),
            r is None <==> !has_name(self.columns@, name@),
    {
        let mut i: usize = 0;
        while i < self.columns.len()
            invariant
                i <= self.columns@.len(),
                forall|j: int| 0 <= j < i ==> self.columns@[j]@ != name@,
            decreases self.columns.len() - i,
        {
            if crate::text::text_eq(self.columns[i].as_str(), name) {
                return Some(i);
            }
            i = i + 1;
        }
        None
    }
}

pub open spec fn bool_text(b: bool) -> Seq<char> {
    if b {
        "true"@
    } else {
        "false"@
    }
}

/// Text of a cell as it reads when cells are joined as text; none for null.
pub open spec fn cell_text(c: CellValue) -> Option<Seq<char>> {
    match c {
        CellValue::Null => None,
        CellValue::Boolean(b) => Some(bool_text(b)),
        CellValue::Int(i) => Some(signed_decimal(i as int)),
        CellValue::UInt(u) => Some(decimal(u as nat)),
        CellValue::Real(t) => Some(t@),
        CellValue::Text(t) => Some(t@),
    }
}

pub open spec fn opt_view(o: Option<String>) -> Option<Seq<char>> {
    match o {
        Some(s) => Some(s@),
        None => None,
    }
}

/// The text of a cell, none for null.
pub fn cell_to_text(c: &CellValue) -> (r: Option<String>)
    ensures
        opt_view(r) == cell_text(*c),
{
    match c {
        CellValue::Null => None,
        CellValue::Boolean(b) => {
            if *b {
                Some(String::from_str("true"))
            } else {
                Some(String::from_str("false"))
            }
        },
        CellValue::Int(i) => {
            let mut out = String::new();
            push_signed_decimal(&mut out, *i);
            assert(out@ =~= signed_decimal(*i as int));
            Some(out)
        },
        CellValue::UInt(u) => {
            let mut out = String::new();
            push_decimal(&mut out, *u);
            assert(out@ =~= decimal(*u as nat));
            Some(out)
        },
        CellValue::Real(t) => Some(t.clone()),
        CellValue::Text(t) => Some(t.clone()),
    }
}

pub open spec fn all_digits(t: Seq<char>) -> bool {
    forall|i: int| 0 <= i < t.len() ==> (#[trigger] digit_value(t[i])) is Some
}

/// Value of a run of decimal digits.
pub open spec fn digits_value(t: Seq<char>) -> nat
    decreases t.len(),
{
    if t.len() == 0 {
        0
    } else {
        digits_value(t.drop_last()) * 10 + match digit_value(t.last()) {
            Some(d) => d,
            None => 0,
        }
    }
}

/// An unsigned integer written in decimal digits only, if it fits 64 bits.
pub open spec fn parse_unsigned(t: Seq<char>) -> Option<u64> {
    if t.len() > 0 && all_digits(t) && digits_value(t) <= u64::MAX {
        Some(digits_value(t) as u64)
    } else {
        None
    }
}

/// Reads an unsigned decimal integer; none for any other text or an
/// overflow.
pub fn parse_u64(t: &str) -> (r: Option<u64>)
    ensures
        r == parse_unsigned(t@),
{
    let n = t.unicode_len();
    if n == 0 {
        return None;
    }
    let mut acc: u64 = 0;
    let mut overflow = false;
    let mut i: usize = 0;
    while i < n
        invariant
            n == t@.len(),
            i <= n,
            all_digits(t@.subrange(0, i as int)),
            !overflow ==> acc as nat == digits_value(t@.subrange(0, i as int)),
            overflow ==> digits_value(t@.subrange(0, i as int)) > u64::MAX,
        decreases n - i,
    {
        let c = t.get_char(i);
        let ghost sub = t@.subrange(0, i + 1);
        proof {
            assert(sub.drop_last() =~= t@.subrange(0, i as int));
            assert(sub.last() == c);
        }
        match value_of_digit(c) {
            None => {
                assert(!all_digits(t@)) by {
                    assert(digit_value(t@[i as int]) is None);
                }
                return None;
            },
            Some(d) => {
                proof {
                    assert forall|k: int| 0 <= k < sub.len() implies (#[trigger] digit_value(
                        sub[k],
                    )) is Some by {
                        if k < i {
                            assert(sub[k] == t@.subrange(0, i as int)[k]);
                        }
                    }
                }
                if !overflow {
                    if acc > (u64::MAX - d) / 10 {
                        overflow = true;
                        assert(digits_value(sub) > u64::MAX) by (nonlinear_arith)
                            requires
                                digits_value(sub) == acc * 10 + d,
                                acc > (u64::MAX - d) / 10,
                                d < 10,
                        ;
                    } else {
                        assert(acc * 10 + d <= u64::MAX) by (nonlinear_arith)
                            requires
                                acc <= (u64::MAX - d) / 10,
                                d < 10,
                        ;
                        acc = acc * 10 + d;
                    }
                } else {
                    assert(digits_value(sub) > u64::MAX) by (nonlinear_arith)
                        requires
                            digits_value(sub) == digits_value(sub.drop_last()) * 10 + d,
                            digits_value(sub.drop_last()) > u64::MAX,
                    ;
                }
            },
        }
        i = i + 1;
    }
    assert(t@.subrange(0, n as int) =~= t@);
    if overflow {
        None
    } else {
        Some(acc)
    }
}

/// A cell cast to an unsigned integer: numbers that fit keep their value,
/// booleans are 0 or 1, digit texts are read, everything else is null.
pub open spec fn cast_unsigned(c: CellValue) -> CellValue {
    match c {
        CellValue::Null => CellValue::Null,
        CellValue::Boolean(b) => CellValue::UInt(
            if b {
                1
            } else {
                0
            },
        ),
        CellValue::Int(i) => if i >= 0 {
            CellValue::UInt(i as u64)
        } else {
            CellValue::Null
        },
        CellValue::UInt(u) => CellValue::UInt(u),
        CellValue::Real(t) => match parse_unsigned(t@) {
            Some(v) => CellValue::UInt(v),
            None => CellValue::Null,
        },
        CellValue::Text(t) => match parse_unsigned(t@) {
            Some(v) => CellValue::UInt(v),
            None => CellValue::Null,
        },
    }
}

/// Casts a cell to an unsigned integer.
pub fn cast_to_unsigned(c: &CellValue) -> (r: CellValue)
    ensures
        r == cast_unsigned(*c),
{
    match c {
        CellValue::Null => CellValue::Null,
        CellValue::Boolean(b) => CellValue::UInt(
            if *b {
                1
            } else {
                0
            },
        ),
        CellValue::Int(i) => {
            if *i >= 0 {
                CellValue::UInt(*i as u64)
            } else {
                CellValue::Null
            }
        },
        CellValue::UInt(u) => CellValue::UInt(*u),
        CellValue::Real(t) => match parse_u64(t.as_str()) {
            Some(v) => CellValue::UInt(v),
            None => CellValue::Null,
        },
        CellValue::Text(t) => match parse_u64(t.as_str()) {
            Some(v) => CellValue::UInt(v),
            None => CellValue::Null,
        },
    }
}

} // verus!
