use vstd::prelude::*;
use crate::types::{OuterType, OuterKey, InnerType, UtahAxis, ErrorKind, decimal, usize_to_string};
use crate::matrix::{Matrix, matrix_cells, matrix_shape, row_of, column_of};
use crate::join::{InnerJoin, inner_rows, lookup_map};

verus! {

/// A named line of a data frame, as the contracts see it: its label and its cells.
pub type Line = (OuterType, Seq<InnerType>);

/// A named line as a stream hands it out.
pub type LineItem = (OuterType, Vec<InnerType>);

/// The line that an item stands for.
pub open spec fn line_of(x: LineItem) -> Line {
    (x.0, x.1@)
}

/// Whether `labels` are the labels that a fresh data frame gives to `n` lines:
/// "0", "1", ..., in order.
pub open spec fn positional_labels(labels: Seq<OuterType>, n: nat) -> bool {
    &&& labels.len() == n
    &&& forall|i: int| 0 <= i < n ==> #[trigger] labels[i]@ == OuterKey::Str(decimal(i as nat))
}

/// Whether `name` names the same line as one of `names`.
pub open spec fn has_name(names: Seq<OuterType>, name: OuterType) -> bool {
    exists|i: int| 0 <= i < names.len() && #[trigger] names[i]@ == name@
}

/// The lines of `s` whose labels are among `names`, in their order.
pub open spec fn select_lines(s: Seq<Line>, names: Seq<OuterType>) -> Seq<Line> {
    s.filter(|l: Line| has_name(names, l.0))
}

/// The lines of `s` whose labels are not among `names`, in their order.
pub open spec fn remove_lines(s: Seq<Line>, names: Seq<OuterType>) -> Seq<Line> {
    s.filter(|l: Line| !has_name(names, l.0))
}

/// One step of a stream: from the lines `before` it hands out `r` and has `after` left.
/// An exhausted stream hands out `None` and stays exhausted; otherwise it hands out its
/// first line and keeps the rest.
pub open spec fn yields(before: Seq<Line>, after: Seq<Line>, r: Option<LineItem>) -> bool {
    match r {
        Some(x) => before.len() > 0 && line_of(x) == before[0] && after == before.drop_first(),
        None => before.len() == 0 && after == before,
    }
}

/// A data frame: a matrix of cells with a label for each column and each row.
#[derive(Debug, Clone, PartialEq)]
pub struct DataFrame {
    pub columns: Vec<OuterType>,
    pub data: Matrix,
    pub index: Vec<OuterType>,
}

/// The labels of the lines along `axis`: the row labels, or the column labels.
pub open spec fn axis_labels(df: DataFrame, axis: UtahAxis) -> Seq<OuterType> {
    match axis {
        UtahAxis::Row => df.index@,
        UtahAxis::Column => df.columns@,
    }
}

/// The number of lines of the matrix along `axis`.
pub open spec fn axis_len(df: DataFrame, axis: UtahAxis) -> nat {
    match axis {
        UtahAxis::Row => matrix_shape(df.data).0,
        UtahAxis::Column => matrix_shape(df.data).1,
    }
}

/// The cells of line `k` along `axis`.
pub open spec fn axis_line(df: DataFrame, axis: UtahAxis, k: nat) -> Seq<InnerType> {
    match axis {
        UtahAxis::Row => row_of(matrix_cells(df.data), matrix_shape(df.data).1, k),
        UtahAxis::Column => column_of(
            matrix_cells(df.data),
            matrix_shape(df.data).0,
            matrix_shape(df.data).1,
            k,
        ),
    }
}

/// The smaller of two numbers.
pub open spec fn min_nat(a: nat, b: nat) -> nat {
    if a <= b {
        a
    } else {
        b
    }
}

/// The named lines of a data frame along `axis`: each label paired with its line, as
/// far as both labels and lines go.
pub open spec fn frame_lines(df: DataFrame, axis: UtahAxis) -> Seq<Line> {
    Seq::new(
        min_nat(axis_labels(df, axis).len(), axis_len(df, axis)),
        |k: int| (axis_labels(df, axis)[k], axis_line(df, axis, k as nat)),
    )
}

/// A stream of named lines, handed out one at a time.
pub trait LineIter: Sized {
    /// The lines that the stream has still to hand out, in order.
    spec fn remaining(&self) -> Seq<Line>;

    /// Whether the stream's own bookkeeping is consistent.
    spec fn wf(&self) -> bool;

    /// Hands out the next line, or `None` once the stream is exhausted.
    fn next(&mut self) -> (r: Option<LineItem>)
        requires
            old(self).wf(),
        ensures
            final(self).wf(),
            yields(old(self).remaining(), final(self).remaining(), r),
    ;
}
/// A copy of the labels in `v`.
pub(crate) fn duplicate_labels(v: &Vec<OuterType>) -> (r: Vec<OuterType>)
    ensures
        r@ == v@,
{
    let mut r: Vec<OuterType> = Vec::new();
    let mut i: usize = 0;
    while i < v.len()
        invariant
            i <= v.len(),
            r@ == v@.take(i as int),
        decreases v.len() - i,
    {
        r.push(v[i].duplicate());
        i = i + 1;
        assert(r@ == v@.take(i as int));
    }
    assert(v@.take(v.len() as int) == v@);
    r
}

/// The labels "0", "1", ..., up to `n` of them.
fn default_labels(n: usize) -> (r: Vec<OuterType>)
    ensures
        positional_labels(r@, n as nat),
{
    let mut r: Vec<OuterType> = Vec::new();
    let mut i: usize = 0;
    while i < n
        invariant
            i <= n,
            r@.len() == i,
            forall|k: int| 0 <= k < i ==> #[trigger] r@[k]@ == OuterKey::Str(decimal(k as nat)),
        decreases n - i,
    {
        let text = usize_to_string(i);
        r.push(OuterType::Str(text));
        i = i + 1;
    }
    r
}

impl DataFrame {
    /// The data frame over `data` whose columns and rows are labelled by their
    /// positions, written in decimal: "0", "1", ...
    pub fn new(data: Matrix) -> (r: DataFrame)
        ensures
            r.data == data,
            positional_labels(r.columns@, matrix_shape(data).1),
            positional_labels(r.index@, matrix_shape(data).0),
    {
        let (rows, cols) = data.shape();
        let columns = default_labels(cols);
        let index = default_labels(rows);
        DataFrame { data, columns, index }
    }

    /// This data frame with the column labels `columns`; an error when their number
    /// differs from the number of columns.
    pub fn columns(self, columns: &[OuterType]) -> (r: Result<DataFrame, ErrorKind>)
        ensures
            r is Err <==> columns@.len() != matrix_shape(self.data).1,
            r matches Err(e) ==> e == ErrorKind::ColumnShapeMismatch,
            r matches Ok(df) ==> df.columns@ == columns@ && df.data == self.data && df.index
                == self.index,
    {
        let (_rows, cols) = self.data.shape();
        if columns.len() != cols {
            return Err(ErrorKind::ColumnShapeMismatch);
        }
        let mut labels: Vec<OuterType> = Vec::new();
        let mut i: usize = 0;
        while i < columns.len()
            invariant
                i <= columns@.len(),
                labels@ == columns@.take(i as int),
            decreases columns@.len() - i,
        {
            labels.push(columns[i].duplicate());
            i = i + 1;
            assert(labels@ == columns@.take(i as int));
        }
        assert(columns@.take(columns@.len() as int) == columns@);
        Ok(DataFrame { columns: labels, data: self.data, index: self.index })
    }

    /// This data frame with the row labels `index`; an error when their number
    /// differs from the number of rows.
    pub fn index(self, index: &[OuterType]) -> (r: Result<DataFrame, ErrorKind>)
        ensures
            r is Err <==> index@.len() != matrix_shape(self.data).0,
            r matches Err(e) ==> e == ErrorKind::RowShapeMismatch,
            r matches Ok(df) ==> df.index@ == index@ && df.data == self.data && df.columns
                == self.columns,
    {
        let (rows, _cols) = self.data.shape();
        if index.len() != rows {
            return Err(ErrorKind::RowShapeMismatch);
        }
        let mut labels: Vec<OuterType> = Vec::new();
        let mut i: usize = 0;
        while i < index.len()
            invariant
                i <= index@.len(),
                labels@ == index@.take(i as int),
            decreases index@.len() - i,
        {
            labels.push(index[i].duplicate());
            i = i + 1;
            assert(labels@ == index@.take(i as int));
        }
        assert(index@.take(index@.len() as int) == index@);
        Ok(DataFrame { columns: self.columns, data: self.data, index: labels })
    }

    /// The stream of this data frame's named lines along `axis`.
    pub fn df_iter<'a>(&'a self, axis: UtahAxis) -> (r: DataFrameIterator<'a>)
        ensures
            r.wf(),
            r.remaining() == frame_lines(*self, axis),
    {
        let (rows, cols) = self.data.shape();
        let (labels, lines) = match axis {
            UtahAxis::Row => (self.index.len(), rows),
            UtahAxis::Column => (self.columns.len(), cols),
        };
        let end = if labels <= lines {
            labels
        } else {
            lines
        };
        let r = DataFrameIterator { frame: self, axis, pos: 0, end };
        assert(r.remaining() =~= frame_lines(*self, axis));
        r
    }
}

impl DataFrame {
    /// The lines along `axis` whose labels are among `ind`.
    pub fn select<'a>(&'a self, ind: Vec<OuterType>, axis: UtahAxis) -> (r: Select<DataFrameIterator<'a>>)
        ensures
            r.wf(),
            r.remaining() == select_lines(frame_lines(*self, axis), ind@),
    {
        select(self.df_iter(axis), ind)
    }

    /// The lines along `axis` whose labels are not among `ind`.
    pub fn remove<'a>(&'a self, ind: Vec<OuterType>, axis: UtahAxis) -> (r: Remove<DataFrameIterator<'a>>)
        ensures
            r.wf(),
            r.remaining() == remove_lines(frame_lines(*self, axis), ind@),
    {
        remove(self.df_iter(axis), ind)
    }

    /// The line `(name, data)` followed by the lines along `axis`.
    pub fn append<'a>(&'a self, name: OuterType, data: Vec<InnerType>, axis: UtahAxis) -> (r: Append<
        DataFrameIterator<'a>,
    >)
        ensures
            r.wf(),
            r.remaining() == seq![(name, data@)] + frame_lines(*self, axis),
    {
        append(self.df_iter(axis), name, data)
    }
}

/// The stream of a data frame's named lines along one axis.
pub struct DataFrameIterator<'a> {
    frame: &'a DataFrame,
    axis: UtahAxis,
    pos: usize,
    end: usize,
}

impl<'a> LineIter for DataFrameIterator<'a> {
    closed spec fn remaining(&self) -> Seq<Line> {
        frame_lines(*self.frame, self.axis).subrange(self.pos as int, self.end as int)
    }

    closed spec fn wf(&self) -> bool {
        &&& self.pos <= self.end
        &&& self.end == frame_lines(*self.frame, self.axis).len()
        &&& matrix_cells(self.frame.data).len() == matrix_shape(self.frame.data).0
            * matrix_shape(self.frame.data).1
    }

    fn next(&mut self) -> (r: Option<LineItem>) {
        if self.pos < self.end {
            let k = self.pos;
            let ghost lines = frame_lines(*self.frame, self.axis);
            let name = match self.axis {
                UtahAxis::Row => self.frame.index[k].duplicate(),
                UtahAxis::Column => self.frame.columns[k].duplicate(),
            };
            let line = match self.axis {
                UtahAxis::Row => self.frame.data.row(k),
                UtahAxis::Column => self.frame.data.column(k),
            };
            self.pos = k + 1;
            assert(line_of((name, line)) == lines[k as int]);
            assert(lines.subrange(k as int, self.end as int).drop_first() =~= lines.subrange(
                k + 1,
                self.end as int,
            ));
            Some((name, line))
        } else {
            None
        }
    }
}


/// Filtering a non-empty sequence keeps its first element when the predicate
/// holds of it, and filters the rest.
pub(crate) proof fn lemma_filter_first<A>(s: Seq<A>, p: spec_fn(A) -> bool)
    requires
        s.len() > 0,
    ensures
        s.filter(p) == if p(s[0]) {
            seq![s[0]] + s.drop_first().filter(p)
        } else {
            s.drop_first().filter(p)
        },
{
    assert(s =~= seq![s[0]] + s.drop_first());
    Seq::filter_distributes_over_add(seq![s[0]], s.drop_first(), p);
    assert(seq![s[0]].drop_last() =~= Seq::<A>::empty());
    reveal_with_fuel(Seq::filter, 2);
    if p(s[0]) {
        assert(seq![s[0]].filter(p) =~= seq![s[0]]);
    } else {
        assert(seq![s[0]].filter(p) =~= Seq::<A>::empty());
    }
}

/// `select_lines` on a non-empty sequence, one line at a time.
proof fn lemma_select_first(s: Seq<Line>, names: Seq<OuterType>)
    requires
        s.len() > 0,
    ensures
        select_lines(s, names) == if has_name(names, s[0].0) {
            seq![s[0]] + select_lines(s.drop_first(), names)
        } else {
            select_lines(s.drop_first(), names)
        },
{
    lemma_filter_first(s, |l: Line| has_name(names, l.0));
}

/// `remove_lines` on a non-empty sequence, one line at a time.
proof fn lemma_remove_first(s: Seq<Line>, names: Seq<OuterType>)
    requires
        s.len() > 0,
    ensures
        remove_lines(s, names) == if has_name(names, s[0].0) {
            remove_lines(s.drop_first(), names)
        } else {
            seq![s[0]] + remove_lines(s.drop_first(), names)
        },
{
    lemma_filter_first(s, |l: Line| !has_name(names, l.0));
}

/// Whether `name` names the same line as one of `names`.
pub(crate) fn contains_name(names: &Vec<OuterType>, name: &OuterType) -> (r: bool)
    ensures
        r == has_name(names@, *name),
{
    let mut i: usize = 0;
    while i < names.len()
        invariant
            i <= names@.len(),
            forall|k: int| 0 <= k < i ==> #[trigger] names@[k]@ != name@,
        decreases names@.len() - i,
    {
        if names[i].same_name(name) {
            return true;
        }
        i = i + 1;
    }
    false
}

/// The lines of a stream whose labels are among a list of names.
pub struct Select<I: LineIter> {
    data: I,
    ind: Vec<OuterType>,
}

impl<I: LineIter> LineIter for Select<I> {
    closed spec fn remaining(&self) -> Seq<Line> {
        select_lines(self.data.remaining(), self.ind@)
    }

    closed spec fn wf(&self) -> bool {
        self.data.wf()
    }

    fn next(&mut self) -> (r: Option<LineItem>) {
        loop
            invariant
                self.data.wf(),
                self.ind == old(self).ind,
                select_lines(self.data.remaining(), self.ind@) == select_lines(
                    old(self).data.remaining(),
                    old(self).ind@,
                ),
            decreases self.data.remaining().len(),
        {
            let ghost before = self.data.remaining();
            match self.data.next() {
                Some(x) => {
                    proof {
                        lemma_select_first(before, self.ind@);
                    }
                    if contains_name(&self.ind, &x.0) {
                        assert((seq![before[0]] + select_lines(before.drop_first(), self.ind@)).drop_first()
                            =~= select_lines(before.drop_first(), self.ind@));
                        return Some(x);
                    }
                },
                None => {
                    return None;
                },
            }
        }
    }
}

/// The lines of a stream whose labels are not among a list of names.
pub struct Remove<I: LineIter> {
    data: I,
    ind: Vec<OuterType>,
}

impl<I: LineIter> LineIter for Remove<I> {
    closed spec fn remaining(&self) -> Seq<Line> {
        remove_lines(self.data.remaining(), self.ind@)
    }

    closed spec fn wf(&self) -> bool {
        self.data.wf()
    }

    fn next(&mut self) -> (r: Option<LineItem>) {
        loop
            invariant
                self.data.wf(),
                self.ind == old(self).ind,
                remove_lines(self.data.remaining(), self.ind@) == remove_lines(
                    old(self).data.remaining(),
                    old(self).ind@,
                ),
            decreases self.data.remaining().len(),
        {
            let ghost before = self.data.remaining();
            match self.data.next() {
                Some(x) => {
                    proof {
                        lemma_remove_first(before, self.ind@);
                    }
                    if !contains_name(&self.ind, &x.0) {
                        assert((seq![before[0]] + remove_lines(before.drop_first(), self.ind@)).drop_first()
                            =~= remove_lines(before.drop_first(), self.ind@));
                        return Some(x);
                    }
                },
                None => {
                    return None;
                },
            }
        }
    }
}

/// A stream with one more line put in front of it.
pub struct Append<I: LineIter> {
    first: Option<LineItem>,
    data: I,
}

impl<I: LineIter> LineIter for Append<I> {
    closed spec fn remaining(&self) -> Seq<Line> {
        match self.first {
            Some(x) => seq![line_of(x)] + self.data.remaining(),
            None => self.data.remaining(),
        }
    }

    closed spec fn wf(&self) -> bool {
        self.data.wf()
    }

    fn next(&mut self) -> (r: Option<LineItem>) {
        match self.first.take() {
            Some(x) => {
                assert((seq![line_of(x)] + self.data.remaining()).drop_first() =~= self.data.remaining());
                Some(x)
            },
            None => self.data.next(),
        }
    }
}

/// The lines of one stream followed by those of another.
pub struct Concat<A: LineIter, B: LineIter> {
    first: A,
    second: B,
}

impl<A: LineIter, B: LineIter> LineIter for Concat<A, B> {
    closed spec fn remaining(&self) -> Seq<Line> {
        self.first.remaining() + self.second.remaining()
    }

    closed spec fn wf(&self) -> bool {
        self.first.wf() && self.second.wf()
    }

    fn next(&mut self) -> (r: Option<LineItem>) {
        let ghost a = self.first.remaining();
        let ghost b = self.second.remaining();
        match self.first.next() {
            Some(x) => {
                assert((a + b).drop_first() =~= a.drop_first() + b);
                Some(x)
            },
            None => {
                assert(a + b =~= b);
                let r = self.second.next();
                assert(self.first.remaining() + self.second.remaining() =~= self.second.remaining());
                r
            },
        }
    }
}

/// The lines of `df` whose labels are among `ind`, in their order.
pub fn select<I: LineIter>(df: I, ind: Vec<OuterType>) -> (r: Select<I>)
    requires
        df.wf(),
    ensures
        r.wf(),
        r.remaining() == select_lines(df.remaining(), ind@),
{
    Select { data: df, ind }
}

/// The lines of `df` whose labels are not among `ind`, in their order.
pub fn remove<I: LineIter>(df: I, ind: Vec<OuterType>) -> (r: Remove<I>)
    requires
        df.wf(),
    ensures
        r.wf(),
        r.remaining() == remove_lines(df.remaining(), ind@),
{
    Remove { data: df, ind }
}

/// The line `(name, data)` followed by the lines of `df`.
pub fn append<I: LineIter>(df: I, name: OuterType, data: Vec<InnerType>) -> (r: Append<I>)
    requires
        df.wf(),
    ensures
        r.wf(),
        r.remaining() == seq![(name, data@)] + df.remaining(),
{
    Append { first: Some((name, data)), data: df }
}

/// The lines of `df` followed by those of `other`.
pub fn concat<A: LineIter, B: LineIter>(df: A, other: B) -> (r: Concat<A, B>)
    requires
        df.wf(),
        other.wf(),
    ensures
        r.wf(),
        r.remaining() == df.remaining() + other.remaining(),
{
    Concat { first: df, second: other }
}

/// The inner join of the lines of `this` with those of `other`: each line of `this`
/// whose label `other` also has, with `other`'s cells for it (the last of them where
/// `other` has the label more than once). The column labels of the two sides are
/// kept for building a data frame.
pub fn join<I: LineIter, J: LineIter>(
    this: I,
    other: J,
    left_columns: Vec<OuterType>,
    right_columns: Vec<OuterType>,
) -> (r: InnerJoin<I>)
    requires
        other.wf(),
    ensures
        r.left == this,
        r.right_map() == lookup_map(other.remaining()),
        r.remaining() == inner_rows(this.remaining(), lookup_map(other.remaining())),
        r.left_columns == left_columns,
        r.right_columns == right_columns,
{
    InnerJoin::new(this, other, left_columns, right_columns)
}

/// The results of a function applied to each line of a stream.
pub struct MapDF<I: LineIter, F> {
    data: I,
    f: F,
}

impl<I: LineIter, B, F: Fn(LineItem) -> B> MapDF<I, F> {
    /// The lines of the underlying stream still to come.
    pub closed spec fn remaining(&self) -> Seq<Line> {
        self.data.remaining()
    }

    /// Whether the underlying stream's bookkeeping is consistent and the function
    /// accepts every line.
    pub closed spec fn wf(&self) -> bool {
        &&& self.data.wf()
        &&& forall|x: LineItem| call_requires(self.f, (x,))
    }

    /// The function applied to the lines.
    pub closed spec fn func(&self) -> F {
        self.f
    }

    /// The result of the function on the next line, or `None` once the underlying
    /// stream is exhausted.
    pub fn next(&mut self) -> (r: Option<B>)
        requires
            old(self).wf(),
        ensures
            final(self).wf(),
            final(self).func() == old(self).func(),
            r is None <==> old(self).remaining().len() == 0,
            r is None ==> final(self).remaining() == old(self).remaining(),
            r matches Some(b) ==> final(self).remaining() == old(self).remaining().drop_first()
                && exists|x: LineItem|
                line_of(x) == old(self).remaining()[0] && call_ensures(old(self).func(), (x,), b),
    {
        match self.data.next() {
            Some(x) => {
                let ghost item = x;
                let b = (self.f)(x);
                assert(line_of(item) == old(self).remaining()[0]);
                Some(b)
            },
            None => None,
        }
    }
}

/// The results of `f` applied to each line of `df`, in order.
pub fn mapdf<I: LineIter, B, F: Fn(LineItem) -> B>(df: I, f: F) -> (r: MapDF<I, F>)
    requires
        df.wf(),
        forall|x: LineItem| call_requires(f, (x,)),
    ensures
        r.wf(),
        r.remaining() == df.remaining(),
        r.func() == f,
{
    MapDF { data: df, f }
}

/// The operations of a data frame's line streams: filtering by label, putting a
/// line in front, and concatenation.
pub trait DFIter: LineIter {
    /// The lines of this stream whose labels are among `names`.
    fn select(self, names: Vec<OuterType>) -> (r: Select<Self>)
        requires
            self.wf(),
        ensures
            r.wf(),
            r.remaining() == select_lines(self.remaining(), names@),
    {
        select(self, names)
    }

    /// The lines of this stream whose labels are not among `names`.
    fn remove(self, names: Vec<OuterType>) -> (r: Remove<Self>)
        requires
            self.wf(),
        ensures
            r.wf(),
            r.remaining() == remove_lines(self.remaining(), names@),
    {
        remove(self, names)
    }

    /// The line `(name, data)` followed by the lines of this stream.
    fn append(self, name: OuterType, data: Vec<InnerType>) -> (r: Append<Self>)
        requires
            self.wf(),
        ensures
            r.wf(),
            r.remaining() == seq![(name, data@)] + self.remaining(),
    {
        append(self, name, data)
    }

    /// The lines of this stream followed by those of `other`.
    fn concat<J: LineIter>(self, other: J) -> (r: Concat<Self, J>)
        requires
            self.wf(),
            other.wf(),
        ensures
            r.wf(),
            r.remaining() == self.remaining() + other.remaining(),
    {
        concat(self, other)
    }

    /// The results of `f` applied to each line of this stream.
    fn mapdf<B, F: Fn(LineItem) -> B>(self, f: F) -> (r: MapDF<Self, F>)
        requires
            self.wf(),
            forall|x: LineItem| call_requires(f, (x,)),
        ensures
            r.wf(),
            r.remaining() == self.remaining(),
            r.func() == f,
    {
        mapdf(self, f)
    }
}

impl<'a> DFIter for DataFrameIterator<'a> {

}

impl<I: LineIter> DFIter for Select<I> {

}

impl<I: LineIter> DFIter for Remove<I> {

}

impl<I: LineIter> DFIter for Append<I> {

}

/// Filtering by one predicate and then by another keeps the elements that satisfy both.
proof fn lemma_filter_filter<A>(s: Seq<A>, p: spec_fn(A) -> bool, q: spec_fn(A) -> bool)
    ensures
        s.filter(p).filter(q) == s.filter(|x: A| p(x) && q(x)),
    decreases s.len(),
{
    let pq = |x: A| p(x) && q(x);
    if s.len() == 0 {
        reveal(Seq::filter);
    } else {
        lemma_filter_first(s, p);
        lemma_filter_first(s, pq);
        lemma_filter_filter(s.drop_first(), p, q);
        let rest = s.drop_first().filter(p);
        if p(s[0]) {
            lemma_filter_first(seq![s[0]] + rest, q);
            assert((seq![s[0]] + rest).drop_first() =~= rest);
        }
    }
}

/// A filter whose predicate no element satisfies keeps nothing.
proof fn lemma_filter_none<A>(s: Seq<A>, p: spec_fn(A) -> bool)
    requires
        forall|x: A| !#[trigger] p(x),
    ensures
        s.filter(p) == Seq::<A>::empty(),
{
    if s.filter(p).len() > 0 {
        s.lemma_filter_pred(p, 0);
    }
    assert(s.filter(p) =~= Seq::<A>::empty());
}

/// Selecting and removing by the same names split the lines of a stream: every line
/// goes to exactly one of the two, so together they hold each line of the stream
/// as often as the stream does.
pub proof fn lemma_select_remove_partition(s: Seq<Line>, names: Seq<OuterType>)
    ensures
        select_lines(s, names).to_multiset().add(remove_lines(s, names).to_multiset())
            == s.to_multiset(),
        select_lines(s, names).len() + remove_lines(s, names).len() == s.len(),
    decreases s.len(),
{
    broadcast use vstd::multiset::group_multiset_axioms;

    if s.len() == 0 {
        reveal(Seq::filter);
        assert(s.to_multiset() =~= vstd::multiset::Multiset::<Line>::empty()) by {
            s.to_multiset_ensures();
        }
    } else {
        lemma_select_first(s, names);
        lemma_remove_first(s, names);
        lemma_select_remove_partition(s.drop_first(), names);
        let sel = select_lines(s.drop_first(), names);
        let rem = remove_lines(s.drop_first(), names);
        assert(s =~= seq![s[0]] + s.drop_first());
        vstd::seq_lib::lemma_multiset_commutative(seq![s[0]], s.drop_first());
        vstd::seq_lib::lemma_multiset_commutative(seq![s[0]], sel);
        vstd::seq_lib::lemma_multiset_commutative(seq![s[0]], rem);
        assert(select_lines(s, names).to_multiset().add(remove_lines(s, names).to_multiset())
            =~= s.to_multiset());
    }
}

/// Selecting by the same names twice selects nothing more: the second selection keeps
/// every line of the first.
pub proof fn lemma_select_idempotent(s: Seq<Line>, names: Seq<OuterType>)
    ensures
        select_lines(select_lines(s, names), names) == select_lines(s, names),
{
    let p = |l: Line| has_name(names, l.0);
    lemma_filter_filter(s, p, p);
    assert((|x: Line| p(x) && p(x)) =~= p);
}

/// Removing the names that were just selected leaves nothing.
pub proof fn lemma_remove_after_select(s: Seq<Line>, names: Seq<OuterType>)
    ensures
        remove_lines(select_lines(s, names), names) == Seq::<Line>::empty(),
{
    let p = |l: Line| has_name(names, l.0);
    let q = |l: Line| !has_name(names, l.0);
    lemma_filter_filter(s, p, q);
    lemma_filter_none(s, |x: Line| p(x) && q(x));
}

/// Two selections may be made in either order: the lines kept are those whose labels
/// are among both lists of names.
pub proof fn lemma_select_commute(s: Seq<Line>, a: Seq<OuterType>, b: Seq<OuterType>)
    ensures
        select_lines(select_lines(s, a), b) == select_lines(select_lines(s, b), a),
{
    let p = |l: Line| has_name(a, l.0);
    let q = |l: Line| has_name(b, l.0);
    lemma_filter_filter(s, p, q);
    lemma_filter_filter(s, q, p);
    assert((|x: Line| p(x) && q(x)) =~= (|x: Line| q(x) && p(x)));
}

/// Removing one list of names and then another removes the names of both lists at once.
pub proof fn lemma_remove_twice(s: Seq<Line>, a: Seq<OuterType>, b: Seq<OuterType>)
    ensures
        remove_lines(remove_lines(s, a), b) == remove_lines(s, a + b),
{
    let p = |l: Line| !has_name(a, l.0);
    let q = |l: Line| !has_name(b, l.0);
    lemma_filter_filter(s, p, q);
    assert forall|l: Line| has_name(a + b, l.0) <==> has_name(a, l.0) || has_name(b, l.0) by {
        if has_name(a + b, l.0) {
            let i = choose|i: int| 0 <= i < (a + b).len() && #[trigger] (a + b)[i]@ == l.0@;
            if i >= a.len() {
                assert(b[i - a.len()]@ == l.0@);
            }
        }
        if has_name(a, l.0) {
            let i = choose|i: int| 0 <= i < a.len() && #[trigger] a[i]@ == l.0@;
            assert((a + b)[i]@ == l.0@);
        }
        if has_name(b, l.0) {
            let i = choose|i: int| 0 <= i < b.len() && #[trigger] b[i]@ == l.0@;
            assert((a + b)[a.len() + i]@ == l.0@);
        }
    }
    assert((|x: Line| p(x) && q(x)) =~= (|l: Line| !has_name(a + b, l.0)));
}

/// Reading a data frame by rows and by columns shows the same cells: the cell at
/// position `j` of row `i` is the cell at position `i` of column `j`.
pub proof fn lemma_rows_columns_agree(df: DataFrame, i: int, j: int)
    requires
        matrix_cells(df.data).len() == matrix_shape(df.data).0 * matrix_shape(df.data).1,
        0 <= i < frame_lines(df, UtahAxis::Row).len(),
        0 <= j < frame_lines(df, UtahAxis::Column).len(),
    ensures
        frame_lines(df, UtahAxis::Row)[i].1[j] == frame_lines(df, UtahAxis::Column)[j].1[i],
{
    let r = matrix_shape(df.data).0;
    let c = matrix_shape(df.data).1;
    vstd::arithmetic::mul::lemma_mul_inequality(i + 1, r as int, c as int);
    vstd::arithmetic::mul::lemma_mul_is_distributive_add_other_way(c as int, i, 1);
    assert(i * c + c <= r * c);
    assert(frame_lines(df, UtahAxis::Row)[i].1 == row_of(matrix_cells(df.data), c, i as nat));
    assert(row_of(matrix_cells(df.data), c, i as nat)[j] == matrix_cells(df.data)[i * c + j]);
}

/// A line whose label equals one of the names is kept by a selection of those names
/// and dropped by their removal, whatever kind of label it has.
pub proof fn lemma_named_line_selected(s: Seq<Line>, names: Seq<OuterType>, k: int, i: int)
    requires
        0 <= k < s.len(),
        0 <= i < names.len(),
        names[i]@ == s[k].0@,
    ensures
        has_name(names, s[k].0),
        select_lines(s, names).contains(s[k]),
        !remove_lines(s, names).contains(s[k]),
{
    let p = |l: Line| has_name(names, l.0);
    let q = |l: Line| !has_name(names, l.0);
    assert(names[i]@ == s[k].0@);
    assert(p(s[k]));
    s.lemma_filter_contains(p, k);
    if s.filter(q).contains(s[k]) {
        let j = choose|j: int| 0 <= j < s.filter(q).len() && s.filter(q)[j] == s[k];
        s.lemma_filter_pred(q, j);
    }
}

/// A line whose label equals none of the names is dropped by a selection of those
/// names and kept by their removal.
pub proof fn lemma_unnamed_line_removed(s: Seq<Line>, names: Seq<OuterType>, k: int)
    requires
        0 <= k < s.len(),
        forall|i: int| 0 <= i < names.len() ==> (#[trigger] names[i])@ != s[k].0@,
    ensures
        !has_name(names, s[k].0),
        !select_lines(s, names).contains(s[k]),
        remove_lines(s, names).contains(s[k]),
{
    let p = |l: Line| has_name(names, l.0);
    let q = |l: Line| !has_name(names, l.0);
    assert(q(s[k]));
    s.lemma_filter_contains(q, k);
    if s.filter(p).contains(s[k]) {
        let j = choose|j: int| 0 <= j < s.filter(p).len() && s.filter(p)[j] == s[k];
        s.lemma_filter_pred(p, j);
    }
}

/// Line `k` of a data frame read by rows is row `k` of its matrix: it carries the
/// `k`-th row label and, at each position `j`, the cell of row `k` and column `j`;
/// it has one cell per column.
pub proof fn lemma_row_line_cells(df: DataFrame, k: int)
    requires
        matrix_cells(df.data).len() == matrix_shape(df.data).0 * matrix_shape(df.data).1,
        0 <= k < frame_lines(df, UtahAxis::Row).len(),
    ensures
        frame_lines(df, UtahAxis::Row)[k].0 == df.index@[k],
        frame_lines(df, UtahAxis::Row)[k].1.len() == matrix_shape(df.data).1,
        forall|j: int|
            0 <= j < matrix_shape(df.data).1 ==> #[trigger] frame_lines(df, UtahAxis::Row)[k].1[j]
                == matrix_cells(df.data)[k * matrix_shape(df.data).1 + j],
{
    let r = matrix_shape(df.data).0;
    let c = matrix_shape(df.data).1;
    vstd::arithmetic::mul::lemma_mul_inequality(k + 1, r as int, c as int);
    vstd::arithmetic::mul::lemma_mul_is_distributive_add_other_way(c as int, k, 1);
    assert(k * c + c <= r * c);
}

/// Line `k` of a data frame read by columns is column `k` of its matrix: it carries
/// the `k`-th column label and, at each position `i`, the cell of row `i` and column
/// `k`; it has one cell per row.
pub proof fn lemma_column_line_cells(df: DataFrame, k: int)
    requires
        matrix_cells(df.data).len() == matrix_shape(df.data).0 * matrix_shape(df.data).1,
        0 <= k < frame_lines(df, UtahAxis::Column).len(),
    ensures
        frame_lines(df, UtahAxis::Column)[k].0 == df.columns@[k],
        frame_lines(df, UtahAxis::Column)[k].1.len() == matrix_shape(df.data).0,
        forall|i: int|
            0 <= i < matrix_shape(df.data).0 ==> #[trigger] frame_lines(df, UtahAxis::Column)[k].1[i]
                == matrix_cells(df.data)[i * matrix_shape(df.data).1 + k],
{
}

/// A step of a stream hands out its lines in order and loses nothing: after handing
/// out a line, the line followed by what is left is what there was; after handing
/// out nothing, there was nothing.
pub proof fn lemma_step_in_order(before: Seq<Line>, after: Seq<Line>, r: Option<LineItem>)
    requires
        yields(before, after, r),
    ensures
        r matches Some(x) ==> before == seq![line_of(x)] + after,
        r is None ==> before.len() == 0 && after.len() == 0,
{
    if let Some(x) = r {
        assert(before =~= seq![line_of(x)] + after);
    }
}

} // verus!
