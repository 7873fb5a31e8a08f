use vstd::prelude::*;

verus! {

/// A label of a row or a column.
#[derive(Debug, Clone, PartialEq, Eq, Hash, PartialOrd, Ord)]
pub enum OuterType {
    Str(String),
    Int32(i32),
    Int64(i64),
    /// A point in time: seconds since the Unix epoch and the nanoseconds past that second.
    DateTime(i64, u32),
}

/// What a label is compared by: two labels name the same line when their keys agree.
pub enum OuterKey {
    Str(Seq<char>),
    Int32(i32),
    Int64(i64),
    DateTime(i64, u32),
}

impl View for OuterType {
    type V = OuterKey;

    open spec fn view(&self) -> OuterKey {
        match self {
            OuterType::Str(s) => OuterKey::Str(s@),
            OuterType::Int32(i) => OuterKey::Int32(*i),
            OuterType::Int64(i) => OuterKey::Int64(*i),
            OuterType::DateTime(s, n) => OuterKey::DateTime(*s, *n),
        }
    }
}

impl OuterType {
    /// A copy of this label, equal to it.
    pub fn duplicate(&self) -> (r: OuterType)
        ensures
            r == *self,
    {
        match self {
            OuterType::Str(s) => OuterType::Str(s.clone()),
            OuterType::Int32(i) => OuterType::Int32(*i),
            OuterType::Int64(i) => OuterType::Int64(*i),
            OuterType::DateTime(s, n) => OuterType::DateTime(*s, *n),
        }
    }

    /// Whether two labels name the same line.
    pub fn same_name(&self, other: &OuterType) -> (r: bool)
        ensures
            r == (self@ == other@),
    {
        match (self, other) {
            (OuterType::Str(a), OuterType::Str(b)) => a.eq(b),
            (OuterType::Int32(a), OuterType::Int32(b)) => *a == *b,
            (OuterType::Int64(a), OuterType::Int64(b)) => *a == *b,
            (OuterType::DateTime(a, b), OuterType::DateTime(c, d)) => *a == *c && *b == *d,
            _ => false,
        }
    }
}


/// A cell of a data frame.
#[derive(Debug, Clone)]
pub enum InnerType {
    /// A floating-point number, held by the bits of its IEEE 754 binary64 encoding.
    Float(u64),
    Int64(i64),
    Int32(i32),
    Str(String),
    /// A missing value.
    Empty,
}

/// Whether the binary64 encoding `b` is a NaN: all exponent bits set and a non-zero
/// fraction.
pub open spec fn float_bits_nan(b: u64) -> bool {
    (b & 0x7ff0_0000_0000_0000u64) == 0x7ff0_0000_0000_0000u64 && (b & 0x000f_ffff_ffff_ffffu64)
        != 0
}

/// Whether the binary64 encoding `b` is a zero of either sign.
pub open spec fn float_bits_zero(b: u64) -> bool {
    (b & 0x7fff_ffff_ffff_ffffu64) == 0
}

/// Whether the floating-point numbers encoded by `a` and `b` are equal: neither is a
/// NaN, and they have the same encoding or are both zeros (of either sign).
pub open spec fn float_bits_eq(a: u64, b: u64) -> bool {
    !float_bits_nan(a) && !float_bits_nan(b) && (a == b || (float_bits_zero(a) && float_bits_zero(
        b,
    )))
}

/// Equality of cells: cells of the same kind holding equal values, where floats are
/// compared as floating-point numbers (so a NaN equals nothing, and the two zeros
/// are equal).
pub open spec fn cell_eq(a: InnerType, b: InnerType) -> bool {
    match (a, b) {
        (InnerType::Float(x), InnerType::Float(y)) => float_bits_eq(x, y),
        (InnerType::Int64(x), InnerType::Int64(y)) => x == y,
        (InnerType::Int32(x), InnerType::Int32(y)) => x == y,
        (InnerType::Str(x), InnerType::Str(y)) => x@ == y@,
        (InnerType::Empty, InnerType::Empty) => true,
        _ => false,
    }
}

impl PartialEq for InnerType {
    fn eq(&self, other: &InnerType) -> (r: bool) {
        match (self, other) {
            (InnerType::Float(x), InnerType::Float(y)) => {
                let x_nan = (*x & 0x7ff0_0000_0000_0000u64) == 0x7ff0_0000_0000_0000u64 && (*x
                    & 0x000f_ffff_ffff_ffffu64) != 0;
                let y_nan = (*y & 0x7ff0_0000_0000_0000u64) == 0x7ff0_0000_0000_0000u64 && (*y
                    & 0x000f_ffff_ffff_ffffu64) != 0;
                let both_zero = (*x & 0x7fff_ffff_ffff_ffffu64) == 0 && (*y
                    & 0x7fff_ffff_ffff_ffffu64) == 0;
                !x_nan && !y_nan && (*x == *y || both_zero)
            },
            (InnerType::Int64(x), InnerType::Int64(y)) => *x == *y,
            (InnerType::Int32(x), InnerType::Int32(y)) => *x == *y,
            (InnerType::Str(x), InnerType::Str(y)) => x.eq(y),
            (InnerType::Empty, InnerType::Empty) => true,
            _ => false,
        }
    }
}

impl vstd::std_specs::cmp::PartialEqSpecImpl for InnerType {
    open spec fn obeys_eq_spec() -> bool {
        true
    }

    open spec fn eq_spec(&self, other: &InnerType) -> bool {
        cell_eq(*self, *other)
    }
}

impl InnerType {
    /// A copy of this cell, equal to it.
    pub fn duplicate(&self) -> (r: InnerType)
        ensures
            r == *self,
    {
        match self {
            InnerType::Float(b) => InnerType::Float(*b),
            InnerType::Int64(i) => InnerType::Int64(*i),
            InnerType::Int32(i) => InnerType::Int32(*i),
            InnerType::Str(s) => InnerType::Str(s.clone()),
            InnerType::Empty => InnerType::Empty,
        }
    }
}

/// A type with a distinguished "missing" value.
pub trait Empty<T> {
    /// The missing value.
    fn empty() -> T;

    /// Whether this is the missing value.
    fn is_empty(&self) -> bool;
}

impl Empty<InnerType> for InnerType {
    fn empty() -> (r: InnerType)
        ensures
            r == InnerType::Empty,
    {
        InnerType::Empty
    }

    fn is_empty(&self) -> (r: bool)
        ensures
            r == (*self is Empty),
    {
        match self {
            InnerType::Empty => true,
            _ => false,
        }
    }
}

/// A copy of a line of cells, equal to it cell by cell.
pub(crate) fn duplicate_line(v: &Vec<InnerType>) -> (r: Vec<InnerType>)
    ensures
        r@ == v@,
{
    let mut r: Vec<InnerType> = Vec::new();
    let mut i: usize = 0;
    while i < v.len()
        invariant
            i <= v.len(),
            r@ == v@.take(i as int),
        decreases v.len() - i,
    {
        r.push(v[i].duplicate());
        i = i + 1;
        assert(r@ == v@.take(i as int));
    }
    assert(v@.take(v.len() as int) == v@);
    r
}

/// The direction in which a data frame is walked: along its rows, or along its columns.
#[derive(Debug, Clone, Copy, PartialEq, Eq)]
pub enum UtahAxis {
    Row,
    Column,
}

/// Why a data frame could not be built.
#[derive(Debug, Clone, Copy, PartialEq, Eq)]
pub enum ErrorKind {
    /// The number of column labels differs from the number of columns.
    ColumnShapeMismatch,
    /// The number of row labels differs from the number of rows.
    RowShapeMismatch,
    /// The number of cells differs from the number of rows times the number of columns.
    ShapeMismatch,
}


/// The character of the decimal digit `d` (for `d < 10`).
pub open spec fn digit_char(d: nat) -> char {
    (d + 48) as char
}

/// The decimal digits of `n`, most significant first, without sign or leading zeros.
pub open spec fn decimal(n: nat) -> Seq<char>
    decreases n,
{
    if n < 10 {
        seq![digit_char(n)]
    } else {
        decimal(n / 10).push(digit_char(n % 10))
    }
}

/// The one-character text of the decimal digit `d`.
fn digit_str(d: usize) -> (r: &'static str)
    requires
        d < 10,
    ensures
        r@ == seq![digit_char(d as nat)],
{
    if d == 0 {
        proof {
            reveal_strlit("0");
        }
        "0"
    } else if d == 1 {
        proof {
            reveal_strlit("1");
        }
        "1"
    } else if d == 2 {
        proof {
            reveal_strlit("2");
        }
        "2"
    } else if d == 3 {
        proof {
            reveal_strlit("3");
        }
        "3"
    } else if d == 4 {
        proof {
            reveal_strlit("4");
        }
        "4"
    } else if d == 5 {
        proof {
            reveal_strlit("5");
        }
        "5"
    } else if d == 6 {
        proof {
            reveal_strlit("6");
        }
        "6"
    } else if d == 7 {
        proof {
            reveal_strlit("7");
        }
        "7"
    } else if d == 8 {
        proof {
            reveal_strlit("8");
        }
        "8"
    } else {
        proof {
            reveal_strlit("9");
        }
        "9"
    }
}

/// Writes the decimal digits of `n` at the end of `s`.
fn write_decimal(n: usize, s: &mut String)
    ensures
        final(s)@ == old(s)@ + decimal(n as nat),
    decreases n,
{
    if n >= 10 {
        write_decimal(n / 10, s);
    }
    s.append(digit_str(n % 10));
}

/// The decimal digits of `n`, without sign or leading zeros.
pub(crate) fn usize_to_string(n: usize) -> (r: String)
    ensures
        r@ == decimal(n as nat),
{
    let mut s = String::new();
    write_decimal(n, &mut s);
    assert(s@ =~= decimal(n as nat));
    s
}

/// The number that a sequence of decimal digit characters denotes, most significant
/// digit first.
pub open spec fn digits_value(s: Seq<char>) -> int
    decreases s.len(),
{
    if s.len() == 0 {
        0
    } else {
        digits_value(s.drop_last()) * 10 + (s.last() as int - 48)
    }
}

/// The decimal text of a number reads back as that number: it is a non-empty run of
/// the characters '0' to '9', with no leading zero unless the number is zero, whose
/// digits denote the number.
pub proof fn lemma_decimal_reads_back(n: nat)
    ensures
        decimal(n).len() >= 1,
        forall|i: int| 0 <= i < decimal(n).len() ==> 48 <= #[trigger] (decimal(n)[i] as int) <= 57,
        n > 0 ==> decimal(n)[0] as int != 48,
        digits_value(decimal(n)) == n,
    decreases n,
{
    if n >= 10 {
        lemma_decimal_reads_back(n / 10);
        let d = decimal(n / 10);
        assert(decimal(n) == d.push(digit_char(n % 10)));
        assert(decimal(n).drop_last() =~= d);
        assert forall|i: int| 0 <= i < decimal(n).len() implies 48 <= #[trigger] (
        decimal(n)[i] as int) <= 57 by {
            if i < d.len() {
                assert(decimal(n)[i] == d[i]);
            }
        }
        assert(decimal(n)[0] == d[0]);
        assert(decimal(n).last() == digit_char(n % 10));
        assert(digit_char(n % 10) as int == n % 10 + 48);
        assert(digits_value(decimal(n)) == digits_value(d) * 10 + (n % 10) as int);
    } else {
        assert(decimal(n).drop_last() =~= Seq::<char>::empty());
        assert(digits_value(Seq::<char>::empty()) == 0);
        assert(digit_char(n) as int == n + 48);
    }
}

/// Cells of a whole-number or text kind are equal exactly when they hold the same
/// value; the missing value equals itself.
pub proof fn lemma_cell_eq_values(x: i32, y: i32, p: i64, q: i64, s: String, t: String)
    ensures
        cell_eq(InnerType::Int32(x), InnerType::Int32(y)) <==> x == y,
        cell_eq(InnerType::Int64(p), InnerType::Int64(q)) <==> p == q,
        cell_eq(InnerType::Str(s), InnerType::Str(t)) <==> s@ == t@,
        cell_eq(InnerType::Empty, InnerType::Empty),
{
}

/// Cells of different kinds are never equal, and equality of cells is symmetric.
pub proof fn lemma_cell_eq_kinds(a: InnerType, b: InnerType)
    ensures
        (a is Float && !(b is Float)) || (a is Int32 && !(b is Int32)) || (a is Int64 && !(
        b is Int64)) || (a is Str && !(b is Str)) || (a is Empty && !(b is Empty)) ==> !cell_eq(
            a,
            b,
        ),
        cell_eq(a, b) == cell_eq(b, a),
{
}

/// Float cells compare as floating-point numbers: a NaN (all exponent bits set and a
/// non-zero fraction) equals nothing; the two zeros are equal; otherwise two floats
/// are equal exactly when they have the same encoding, sign included.
pub proof fn lemma_float_cell_eq(a: u64, b: u64)
    ensures
        ((a & 0x7ff0_0000_0000_0000u64) == 0x7ff0_0000_0000_0000u64 && (a
            & 0x000f_ffff_ffff_ffffu64) != 0) ==> !cell_eq(InnerType::Float(a), InnerType::Float(b)),
        (a & 0x7fff_ffff_ffff_ffffu64) == 0 && (b & 0x7fff_ffff_ffff_ffffu64) == 0 ==> cell_eq(
            InnerType::Float(a),
            InnerType::Float(b),
        ),
        ((a & 0x7ff0_0000_0000_0000u64) != 0x7ff0_0000_0000_0000u64 || (a
            & 0x000f_ffff_ffff_ffffu64) == 0) ==> cell_eq(InnerType::Float(a), InnerType::Float(a)),
        cell_eq(InnerType::Float(a), InnerType::Float(b)) ==> a == b || ((a
            & 0x7fff_ffff_ffff_ffffu64) == 0 && (b & 0x7fff_ffff_ffff_ffffu64) == 0),
        cell_eq(InnerType::Float(a), InnerType::Float(b)) == cell_eq(
            InnerType::Float(b),
            InnerType::Float(a),
        ),
{
    assert((a & 0x7fff_ffff_ffff_ffffu64) == 0 ==> (a & 0x7ff0_0000_0000_0000u64) == 0)
        by (bit_vector);
    assert((b & 0x7fff_ffff_ffff_ffffu64) == 0 ==> (b & 0x7ff0_0000_0000_0000u64) == 0)
        by (bit_vector);
}

} // verus!
