use vstd::prelude::*;
use crate::types::{OuterType, OuterKey, InnerType, Empty, UtahAxis, duplicate_line};
use crate::matrix::{Matrix, matrix_cells, matrix_shape, shape_accepts};
use crate::dataframe::{
    DataFrame, Line, LineItem, LineIter, line_of, duplicate_labels, lemma_filter_first, frame_lines,
};

verus! {

/// A line of an inner join: the key, the cells of the left line and those of the right line.
pub type JoinedLine = (OuterType, Seq<InnerType>, Seq<InnerType>);

/// A line of an outer join: the key, the cells of the left line and, where the right
/// side has the key, those of the right line.
pub type OuterJoinedLine = (OuterType, Seq<InnerType>, Option<Seq<InnerType>>);

/// The lines that a table of items stands for.
pub open spec fn table_lines(t: Seq<LineItem>) -> Seq<Line> {
    t.map_values(|x: LineItem| line_of(x))
}

/// What a table of lines answers for each key: the cells of the line listed under
/// that key, the last one where the key is listed more than once.
pub open spec fn lookup_map(s: Seq<Line>) -> Map<OuterKey, Seq<InnerType>>
    decreases s.len(),
{
    if s.len() == 0 {
        Map::empty()
    } else {
        lookup_map(s.drop_last()).insert(s.last().0@, s.last().1)
    }
}

/// The lines of an inner join: each left line whose key the right side has, in order,
/// with the right side's cells for that key.
pub open spec fn inner_rows(left: Seq<Line>, right: Map<OuterKey, Seq<InnerType>>) -> Seq<
    JoinedLine,
> {
    left.filter(|l: Line| right.contains_key(l.0@)).map_values(
        |l: Line| (l.0, l.1, right[l.0@]),
    )
}

/// The right side's cells for `key`, if it has the key.
pub open spec fn right_cells(right: Map<OuterKey, Seq<InnerType>>, key: OuterType) -> Option<
    Seq<InnerType>,
> {
    if right.contains_key(key@) {
        Some(right[key@])
    } else {
        None
    }
}

/// The lines of an outer join: every left line, in order, with the right side's cells
/// for its key where the right side has the key.
pub open spec fn outer_rows(left: Seq<Line>, right: Map<OuterKey, Seq<InnerType>>) -> Seq<
    OuterJoinedLine,
> {
    left.map_values(|l: Line| (l.0, l.1, right_cells(right, l.0)))
}

/// The cells of the table built from inner-join lines: each line's left cells then its
/// right cells, line after line.
pub open spec fn inner_cells(rows: Seq<JoinedLine>) -> Seq<InnerType> {
    rows.map_values(|t: JoinedLine| t.1 + t.2).flatten()
}

/// `width` missing values.
pub open spec fn empty_cells(width: nat) -> Seq<InnerType> {
    Seq::new(width, |i: int| InnerType::Empty)
}

/// The right cells of an outer-join line, or `width` missing values where it has none.
pub open spec fn filled(right: Option<Seq<InnerType>>, width: nat) -> Seq<InnerType> {
    match right {
        Some(v) => v,
        None => empty_cells(width),
    }
}

/// The cells of the table built from outer-join lines: each line's left cells then its
/// right cells, or `width` missing values where it has none, line after line.
pub open spec fn outer_cells(rows: Seq<OuterJoinedLine>, width: nat) -> Seq<InnerType> {
    rows.map_values(|t: OuterJoinedLine| t.1 + filled(t.2, width)).flatten()
}

/// The keys of a sequence of inner-join lines.
pub open spec fn inner_keys(rows: Seq<JoinedLine>) -> Seq<OuterType> {
    rows.map_values(|t: JoinedLine| t.0)
}

/// The keys of a sequence of outer-join lines.
pub open spec fn outer_keys(rows: Seq<OuterJoinedLine>) -> Seq<OuterType> {
    rows.map_values(|t: OuterJoinedLine| t.0)
}

/// One step of an inner join: from the lines `before` it hands out `r` and has `after` left.
pub open spec fn inner_yields(
    before: Seq<JoinedLine>,
    after: Seq<JoinedLine>,
    r: Option<(OuterType, Vec<InnerType>, Vec<InnerType>)>,
) -> bool {
    match r {
        Some(x) => before.len() > 0 && (x.0, x.1@, x.2@) == before[0] && after
            == before.drop_first(),
        None => before.len() == 0 && after == before,
    }
}

/// The cells that an optional line stands for.
pub open spec fn opt_line(o: Option<Vec<InnerType>>) -> Option<Seq<InnerType>> {
    match o {
        Some(v) => Some(v@),
        None => None,
    }
}

/// One step of an outer join: from the lines `before` it hands out `r` and has `after` left.
pub open spec fn outer_yields(
    before: Seq<OuterJoinedLine>,
    after: Seq<OuterJoinedLine>,
    r: Option<(OuterType, Vec<InnerType>, Option<Vec<InnerType>>)>,
) -> bool {
    match r {
        Some(x) => before.len() > 0 && (x.0, x.1@, opt_line(x.2)) == before[0] && after
            == before.drop_first(),
        None => before.len() == 0 && after == before,
    }
}

/// Collects the lines of a stream into a table.
fn collect_lines<I: LineIter>(right: I) -> (r: Vec<LineItem>)
    requires
        right.wf(),
    ensures
        table_lines(r@) == right.remaining(),
{
    let ghost all = right.remaining();
    let mut src = right;
    let mut table: Vec<LineItem> = Vec::new();
    loop
        invariant
            src.wf(),
            table_lines(table@) + src.remaining() == all,
            all == right.remaining(),
        decreases src.remaining().len(),
    {
        let ghost before = src.remaining();
        match src.next() {
            Some(x) => {
                let ghost done = table@;
                table.push(x);
                assert(table_lines(table@) =~= table_lines(done).push(line_of(x)));
                assert(table_lines(table@) + src.remaining() =~= table_lines(done) + before);
            },
            None => {
                assert(table_lines(table@) + src.remaining() =~= table_lines(table@));
                assert(table_lines(table@) == all);
                return table;
            },
        }
    }
}

/// The cells of the line that `table` lists under `key`, the last one where the key is
/// listed more than once.
fn lookup(table: &Vec<LineItem>, key: &OuterType) -> (r: Option<Vec<InnerType>>)
    ensures
        opt_line(r) == right_cells(lookup_map(table_lines(table@)), *key),
{
    let ghost whole = lookup_map(table_lines(table@));
    let mut i: usize = table.len();
    assert(table@.take(i as int) =~= table@);
    while i > 0
        invariant
            i <= table@.len(),
            whole == lookup_map(table_lines(table@)),
            right_cells(whole, *key) == right_cells(
                lookup_map(table_lines(table@.take(i as int))),
                *key,
            ),
        decreases i,
    {
        i = i - 1;
        let ghost shorter = table_lines(table@.take(i as int));
        let ghost longer = table_lines(table@.take(i + 1));
        assert(longer.drop_last() =~= shorter);
        assert(longer.last() == line_of(table@[i as int]));
        if table[i].0.same_name(key) {
            let v = duplicate_line(&table[i].1);
            return Some(v);
        }
    }
    assert(table_lines(table@.take(0)) =~= Seq::<Line>::empty());
    None
}

/// `inner_rows` on a non-empty sequence, one line at a time.
proof fn lemma_inner_first(s: Seq<Line>, m: Map<OuterKey, Seq<InnerType>>)
    requires
        s.len() > 0,
    ensures
        inner_rows(s, m) == if m.contains_key(s[0].0@) {
            seq![(s[0].0, s[0].1, m[s[0].0@])] + inner_rows(s.drop_first(), m)
        } else {
            inner_rows(s.drop_first(), m)
        },
{
    let p = |l: Line| m.contains_key(l.0@);
    let f = |l: Line| (l.0, l.1, m[l.0@]);
    lemma_filter_first(s, p);
    let rest = s.drop_first().filter(p);
    if p(s[0]) {
        assert((seq![s[0]] + rest).map_values(f) =~= seq![f(s[0])] + rest.map_values(f));
    }
}

/// `outer_rows` on a non-empty sequence, one line at a time.
proof fn lemma_outer_first(s: Seq<Line>, m: Map<OuterKey, Seq<InnerType>>)
    requires
        s.len() > 0,
    ensures
        outer_rows(s, m) == seq![(s[0].0, s[0].1, right_cells(m, s[0].0))] + outer_rows(
            s.drop_first(),
            m,
        ),
{
    assert(outer_rows(s, m) =~= seq![(s[0].0, s[0].1, right_cells(m, s[0].0))] + outer_rows(
        s.drop_first(),
        m,
    ));
}

/// Lines of equal width `w`, put one after another: line `k` stands at positions
/// `k * w` up to `k * w + w`.
proof fn lemma_flatten_uniform(lines: Seq<Seq<InnerType>>, w: nat)
    requires
        forall|i: int| 0 <= i < lines.len() ==> (#[trigger] lines[i]).len() == w,
    ensures
        lines.flatten().len() == lines.len() * w,
        forall|k: int|
            0 <= k < lines.len() ==> lines.flatten().subrange(k * w, k * w + w) == #[trigger] lines[k],
    decreases lines.len(),
{
    if lines.len() > 0 {
        let rest = lines.drop_first();
        lemma_flatten_uniform(rest, w);
        let flat = rest.flatten();
        assert(lines.flatten() == lines[0] + flat);
        vstd::arithmetic::mul::lemma_mul_is_distributive_add_other_way(w as int, 1, rest.len() as int);
        assert forall|k: int| 0 <= k < lines.len() implies lines.flatten().subrange(
            k * w,
            k * w + w,
        ) == #[trigger] lines[k] by {
            if k == 0 {
                assert(lines.flatten().subrange(0, w as int) =~= lines[0]);
            } else {
                vstd::arithmetic::mul::lemma_mul_is_distributive_sub_other_way(w as int, k, 1);
                vstd::arithmetic::mul::lemma_mul_inequality(k - 1, rest.len() - 1, w as int);
                vstd::arithmetic::mul::lemma_mul_is_distributive_sub_other_way(
                    w as int,
                    rest.len() as int,
                    1,
                );
                assert(rest[k - 1] == lines[k]);
                assert(lines.flatten().subrange(k * w, k * w + w) =~= flat.subrange(
                    (k - 1) * w,
                    (k - 1) * w + w,
                ));
            }
        }
    }
}

/// Whether line `j` of `left` is the first whose key `right` has.
pub open spec fn first_match(left: Seq<Line>, right: Map<OuterKey, Seq<InnerType>>, j: int) -> bool {
    &&& 0 <= j < left.len()
    &&& right.contains_key(left[j].0@)
    &&& forall|i: int| 0 <= i < j ==> !right.contains_key((#[trigger] left[i]).0@)
}

/// The inner join of a stream of lines with a table: the left lines whose keys the
/// table has, each with the table's cells for its key.
pub struct InnerJoin<L: LineIter> {
    pub left: L,
    pub right: Vec<LineItem>,
    pub left_columns: Vec<OuterType>,
    pub right_columns: Vec<OuterType>,
}

impl<L: LineIter> InnerJoin<L> {
    /// What the right side answers for each key.
    pub open spec fn right_map(&self) -> Map<OuterKey, Seq<InnerType>> {
        lookup_map(table_lines(self.right@))
    }

    /// The joined lines still to come.
    pub open spec fn remaining(&self) -> Seq<JoinedLine> {
        inner_rows(self.left.remaining(), self.right_map())
    }

    /// The join of `left` with the lines of `right`, collected into a table; the
    /// labels of the two sides' columns are kept for building a data frame.
    pub fn new<RI: LineIter>(
        left: L,
        right: RI,
        left_columns: Vec<OuterType>,
        right_columns: Vec<OuterType>,
    ) -> (r: Self)
        requires
            right.wf(),
        ensures
            r.left == left,
            table_lines(r.right@) == right.remaining(),
            r.left_columns == left_columns,
            r.right_columns == right_columns,
    {
        InnerJoin { left, right: collect_lines(right), left_columns, right_columns }
    }

    /// Hands out the next joined line, or `None` once the left side is exhausted.
    pub fn next(&mut self) -> (r: Option<(OuterType, Vec<InnerType>, Vec<InnerType>)>)
        requires
            old(self).left.wf(),
        ensures
            final(self).left.wf(),
            final(self).right == old(self).right,
            final(self).left_columns == old(self).left_columns,
            final(self).right_columns == old(self).right_columns,
            inner_yields(old(self).remaining(), final(self).remaining(), r),
            r is None ==> final(self).left.remaining().len() == 0,
            r is Some ==> exists|j: int|
                first_match(old(self).left.remaining(), old(self).right_map(), j)
                    && final(self).left.remaining() == old(self).left.remaining().skip(j + 1),
    {
        let ghost start = self.left.remaining();
        let ghost consumed: int = 0;
        loop
            invariant
                self.left.wf(),
                self.right == old(self).right,
                self.left_columns == old(self).left_columns,
                self.right_columns == old(self).right_columns,
                self.remaining() == old(self).remaining(),
                start == old(self).left.remaining(),
                0 <= consumed <= start.len(),
                self.left.remaining() == start.skip(consumed),
                forall|i: int|
                    0 <= i < consumed ==> !old(self).right_map().contains_key(
                        (#[trigger] start[i]).0@,
                    ),
            decreases self.left.remaining().len(),
        {
            let ghost before = self.left.remaining();
            match self.left.next() {
                Some(x) => {
                    proof {
                        lemma_inner_first(before, self.right_map());
                    }
                    let (k, lv) = x;
                    match lookup(&self.right, &k) {
                        Some(rv) => {
                            let ghost rest = inner_rows(before.drop_first(), self.right_map());
                            assert((seq![(k, lv@, rv@)] + rest).drop_first() =~= rest);
                            assert(start[consumed] == before[0]);
                            assert(before.drop_first() =~= start.skip(consumed + 1));
                            assert(first_match(start, old(self).right_map(), consumed));
                            return Some((k, lv, rv));
                        },
                        None => {
                            assert(start[consumed] == before[0]);
                            assert(before.drop_first() =~= start.skip(consumed + 1));
                            proof {
                                consumed = consumed + 1;
                            }
                        },
                    }
                },
                None => {
                    return None;
                },
            }
        }
    }

    /// The data frame of the joined lines: one row per line, labelled by its key,
    /// holding its left cells then its right cells, under the left column labels
    /// followed by the right ones.
    pub fn to_df(self) -> (r: DataFrame)
        requires
            self.left.wf(),
            shape_accepts(
                self.remaining().len(),
                self.left_columns@.len() + self.right_columns@.len(),
                inner_cells(self.remaining()).len(),
            ),
        ensures
            r.columns@ == self.left_columns@ + self.right_columns@,
            r.index@ == inner_keys(self.remaining()),
            matrix_shape(r.data) == (
                self.remaining().len(),
                self.left_columns@.len() + self.right_columns@.len(),
            ),
            matrix_cells(r.data) == inner_cells(self.remaining()),
            (forall|i: int|
                0 <= i < self.remaining().len() ==> (#[trigger] self.remaining()[i]).1.len()
                    == self.left_columns@.len() && self.remaining()[i].2.len()
                    == self.right_columns@.len()) ==> frame_lines(r, UtahAxis::Row)
                == self.remaining().map_values(|t: JoinedLine| (t.0, t.1 + t.2)),
    {
        let ghost rows = self.remaining();
        let ghost lw = self.left_columns@.len();
        let ghost rw = self.right_columns@.len();
        let mut columns = duplicate_labels(&self.left_columns);
        let mut right_labels = duplicate_labels(&self.right_columns);
        columns.append(&mut right_labels);
        let width = columns.len();
        let mut s = self;
        let mut cells: Vec<InnerType> = Vec::new();
        let mut names: Vec<OuterType> = Vec::new();
        loop
            invariant
                s.left.wf(),
                names@.len() <= rows.len(),
                rows == rows.take(names@.len() as int) + s.remaining(),
                names@ == inner_keys(rows.take(names@.len() as int)),
                cells@ == inner_cells(rows.take(names@.len() as int)),
            ensures
                names@.len() == rows.len(),
                names@ == inner_keys(rows.take(names@.len() as int)),
                cells@ == inner_cells(rows.take(names@.len() as int)),
            decreases s.remaining().len(),
        {
            let ghost n = names@.len();
            let ghost before = s.remaining();
            match s.next() {
                Some(x) => {
                    let (k, lv, rv) = x;
                    let ghost line = (k, lv@, rv@);
                    let mut lv = lv;
                    let mut rv = rv;
                    assert(rows[n as int] == line) by {
                        assert(rows[n as int] == before[0]);
                    }
                    let ghost done = rows.take(n as int);
                    assert(rows.take((n + 1) as int) =~= done.push(line));
                    cells.append(&mut lv);
                    cells.append(&mut rv);
                    names.push(k);
                    proof {
                        let f = |t: JoinedLine| t.1 + t.2;
                        assert(done.push(line).map_values(f) =~= done.map_values(f).push(
                            line.1 + line.2,
                        ));
                        done.map_values(f).lemma_flatten_push(line.1 + line.2);
                        assert(inner_keys(done.push(line)) =~= inner_keys(done).push(k));
                        assert(rows =~= rows.take((n + 1) as int) + s.remaining());
                    }
                },
                None => {
                    assert(rows =~= rows.take(n as int));
                    break ;
                },
            }
        }
        assert(rows.take(names@.len() as int) =~= rows);
        let data = Matrix::from_shape_vec(names.len(), width, cells).unwrap();
        let r = DataFrame { columns, data, index: names };
        proof {
            let f = |t: JoinedLine| t.1 + t.2;
            let lines = rows.map_values(f);
            if forall|i: int|
                0 <= i < rows.len() ==> (#[trigger] rows[i]).1.len() == lw && rows[i].2.len() == rw {
                assert forall|i: int| 0 <= i < lines.len() implies (#[trigger] lines[i]).len() == width
                    by {
                    assert(rows[i].1.len() == lw && rows[i].2.len() == rw);
                }
                lemma_flatten_uniform(lines, width as nat);
                assert forall|k: int| 0 <= k < rows.len() implies #[trigger] frame_lines(r, UtahAxis::Row)[k]
                    == (rows[k].0, rows[k].1 + rows[k].2) by {
                    assert(lines[k] == rows[k].1 + rows[k].2);
                }
                assert(frame_lines(r, UtahAxis::Row) =~= rows.map_values(
                    |t: JoinedLine| (t.0, t.1 + t.2),
                ));
            }
        }
        r
    }
}

/// `width` missing values, as a line.
fn empty_line(width: usize) -> (r: Vec<InnerType>)
    ensures
        r@ == empty_cells(width as nat),
{
    let mut r: Vec<InnerType> = Vec::new();
    let mut i: usize = 0;
    while i < width
        invariant
            i <= width,
            r@ == empty_cells(i as nat),
        decreases width - i,
    {
        r.push(InnerType::empty());
        i = i + 1;
        assert(r@ =~= empty_cells(i as nat));
    }
    r
}

/// The outer join of a stream of lines with a table: every left line, with the
/// table's cells for its key where the table has the key.
pub struct OuterJoin<L: LineIter> {
    left: L,
    right: Vec<LineItem>,
    left_columns: Vec<OuterType>,
    right_columns: Vec<OuterType>,
}

impl<L: LineIter> OuterJoin<L> {
    /// Whether the left stream's bookkeeping is consistent.
    pub closed spec fn wf(&self) -> bool {
        self.left.wf()
    }

    /// What the right side answers for each key.
    pub closed spec fn right_map(&self) -> Map<OuterKey, Seq<InnerType>> {
        lookup_map(table_lines(self.right@))
    }

    /// The joined lines still to come.
    pub closed spec fn remaining(&self) -> Seq<OuterJoinedLine> {
        outer_rows(self.left.remaining(), self.right_map())
    }

    /// The labels of the left side's columns.
    pub closed spec fn left_labels(&self) -> Seq<OuterType> {
        self.left_columns@
    }

    /// The labels of the right side's columns.
    pub closed spec fn right_labels(&self) -> Seq<OuterType> {
        self.right_columns@
    }

    /// The join of `left` with the lines of `right`, collected into a table; the
    /// labels of the two sides' columns are kept for building a data frame.
    pub fn new<RI: LineIter>(
        left: L,
        right: RI,
        left_columns: Vec<OuterType>,
        right_columns: Vec<OuterType>,
    ) -> (r: Self)
        requires
            left.wf(),
            right.wf(),
        ensures
            r.wf(),
            r.right_map() == lookup_map(right.remaining()),
            r.remaining() == outer_rows(left.remaining(), lookup_map(right.remaining())),
            r.left_labels() == left_columns@,
            r.right_labels() == right_columns@,
    {
        OuterJoin { left, right: collect_lines(right), left_columns, right_columns }
    }

    /// Hands out the next joined line, or `None` once the left side is exhausted.
    pub fn next(&mut self) -> (r: Option<(OuterType, Vec<InnerType>, Option<Vec<InnerType>>)>)
        requires
            old(self).wf(),
        ensures
            final(self).wf(),
            final(self).right_map() == old(self).right_map(),
            final(self).left_labels() == old(self).left_labels(),
            final(self).right_labels() == old(self).right_labels(),
            outer_yields(old(self).remaining(), final(self).remaining(), r),
    {
        let ghost before = self.left.remaining();
        match self.left.next() {
            Some(x) => {
                proof {
                    lemma_outer_first(before, self.right_map());
                }
                let (k, lv) = x;
                let rv = lookup(&self.right, &k);
                let ghost rest = outer_rows(before.drop_first(), self.right_map());
                assert((seq![(k, lv@, opt_line(rv))] + rest).drop_first() =~= rest);
                Some((k, lv, rv))
            },
            None => {
                assert(outer_rows(before, self.right_map()) =~= Seq::<OuterJoinedLine>::empty());
                None
            },
        }
    }

    /// The data frame of the joined lines: one row per line, labelled by its key,
    /// holding its left cells then its right cells, or missing values in place of
    /// the right cells where the right side lacks the key, under the left column
    /// labels followed by the right ones.
    pub fn to_df(self) -> (r: DataFrame)
        requires
            self.wf(),
            shape_accepts(
                self.remaining().len(),
                self.left_labels().len() + self.right_labels().len(),
                outer_cells(self.remaining(), self.right_labels().len()).len(),
            ),
        ensures
            r.columns@ == self.left_labels() + self.right_labels(),
            r.index@ == outer_keys(self.remaining()),
            matrix_shape(r.data) == (
                self.remaining().len(),
                self.left_labels().len() + self.right_labels().len(),
            ),
            matrix_cells(r.data) == outer_cells(self.remaining(), self.right_labels().len()),
            (forall|i: int|
                0 <= i < self.remaining().len() ==> (#[trigger] self.remaining()[i]).1.len()
                    == self.left_labels().len() && filled(
                    self.remaining()[i].2,
                    self.right_labels().len(),
                ).len() == self.right_labels().len()) ==> frame_lines(r, UtahAxis::Row)
                == self.remaining().map_values(
                |t: OuterJoinedLine| (t.0, t.1 + filled(t.2, self.right_labels().len())),
            ),
    {
        let ghost rows = self.remaining();
        let ghost lw = self.left_labels().len();
        let ghost rw = self.right_labels().len();
        let right_width = self.right_columns.len();
        let mut columns = duplicate_labels(&self.left_columns);
        let mut right_labels = duplicate_labels(&self.right_columns);
        columns.append(&mut right_labels);
        let width = columns.len();
        let mut s = self;
        let mut cells: Vec<InnerType> = Vec::new();
        let mut names: Vec<OuterType> = Vec::new();
        loop
            invariant
                s.wf(),
                right_width == rw,
                names@.len() <= rows.len(),
                rows == rows.take(names@.len() as int) + s.remaining(),
                names@ == outer_keys(rows.take(names@.len() as int)),
                cells@ == outer_cells(rows.take(names@.len() as int), rw),
            ensures
                names@.len() == rows.len(),
                names@ == outer_keys(rows.take(names@.len() as int)),
                cells@ == outer_cells(rows.take(names@.len() as int), rw),
            decreases s.remaining().len(),
        {
            let ghost n = names@.len();
            let ghost before = s.remaining();
            match s.next() {
                Some(x) => {
                    let (k, lv, rv) = x;
                    let ghost line = (k, lv@, opt_line(rv));
                    let mut lv = lv;
                    let mut rv = match rv {
                        Some(v) => v,
                        None => empty_line(right_width),
                    };
                    assert(rows[n as int] == line) by {
                        assert(rows[n as int] == before[0]);
                    }
                    let ghost done = rows.take(n as int);
                    assert(rows.take((n + 1) as int) =~= done.push(line));
                    let ghost f = |t: OuterJoinedLine| t.1 + filled(t.2, rw);
                    assert(lv@ + rv@ == f(line));
                    cells.append(&mut lv);
                    cells.append(&mut rv);
                    names.push(k);
                    proof {
                        assert(done.push(line).map_values(f) =~= done.map_values(f).push(f(line)));
                        done.map_values(f).lemma_flatten_push(f(line));
                        assert(outer_keys(done.push(line)) =~= outer_keys(done).push(k));
                        assert(rows =~= rows.take((n + 1) as int) + s.remaining());
                    }
                },
                None => {
                    assert(rows =~= rows.take(n as int));
                    break ;
                },
            }
        }
        assert(rows.take(names@.len() as int) =~= rows);
        let data = Matrix::from_shape_vec(names.len(), width, cells).unwrap();
        let r = DataFrame { columns, data, index: names };
        proof {
            let f = |t: OuterJoinedLine| t.1 + filled(t.2, rw);
            let lines = rows.map_values(f);
            if forall|i: int|
                0 <= i < rows.len() ==> (#[trigger] rows[i]).1.len() == lw && filled(
                    rows[i].2,
                    rw,
                ).len() == rw {
                assert forall|i: int| 0 <= i < lines.len() implies (#[trigger] lines[i]).len() == width
                    by {
                    assert(rows[i].1.len() == lw && filled(rows[i].2, rw).len() == rw);
                }
                lemma_flatten_uniform(lines, width as nat);
                assert forall|k: int| 0 <= k < rows.len() implies #[trigger] frame_lines(r, UtahAxis::Row)[k]
                    == (rows[k].0, rows[k].1 + filled(rows[k].2, rw)) by {
                    assert(lines[k] == rows[k].1 + filled(rows[k].2, rw));
                }
                assert(frame_lines(r, UtahAxis::Row) =~= rows.map_values(
                    |t: OuterJoinedLine| (t.0, t.1 + filled(t.2, rw)),
                ));
            }
        }
        r
    }
}

/// The matched lines of an outer join, as inner-join lines.
pub open spec fn matched(rows: Seq<OuterJoinedLine>) -> Seq<JoinedLine> {
    rows.filter(|t: OuterJoinedLine| t.2 is Some).map_values(
        |t: OuterJoinedLine|
            (
                t.0,
                t.1,
                match t.2 {
                    Some(v) => v,
                    None => Seq::empty(),
                },
            ),
    )
}

/// The inner join holds exactly the lines of the outer join that found a match on
/// the right side, in the same order and with the same cells.
pub proof fn lemma_inner_is_matched_outer(left: Seq<Line>, right: Map<OuterKey, Seq<InnerType>>)
    ensures
        inner_rows(left, right) == matched(outer_rows(left, right)),
    decreases left.len(),
{
    let p = |t: OuterJoinedLine| t.2 is Some;
    let f = |t: OuterJoinedLine|
        (
            t.0,
            t.1,
            match t.2 {
                Some(v) => v,
                None => Seq::empty(),
            },
        );
    if left.len() == 0 {
        reveal(Seq::filter);
        assert(inner_rows(left, right) =~= Seq::<JoinedLine>::empty());
        assert(matched(outer_rows(left, right)) =~= Seq::<JoinedLine>::empty());
    } else {
        lemma_inner_first(left, right);
        lemma_outer_first(left, right);
        lemma_inner_is_matched_outer(left.drop_first(), right);
        let o = outer_rows(left, right);
        let head = (left[0].0, left[0].1, right_cells(right, left[0].0));
        let rest = outer_rows(left.drop_first(), right);
        assert(o.drop_first() =~= rest);
        lemma_filter_first(o, p);
        let kept = rest.filter(p);
        if p(head) {
            assert((seq![head] + kept).map_values(f) =~= seq![f(head)] + kept.map_values(f));
        }
    }
}

/// The outer join keeps every left line, in order, each with its key and cells, and
/// pairs it with the right side's cells for its key where the right side has the key,
/// with nothing where it does not.
pub proof fn lemma_outer_keeps_left(left: Seq<Line>, right: Map<OuterKey, Seq<InnerType>>)
    ensures
        outer_rows(left, right).len() == left.len(),
        forall|i: int|
            0 <= i < left.len() ==> (#[trigger] outer_rows(left, right)[i]).0 == left[i].0
                && outer_rows(left, right)[i].1 == left[i].1,
        forall|i: int|
            0 <= i < left.len() && right.contains_key(left[i].0@) ==> (#[trigger] outer_rows(
                left,
                right,
            )[i]).2 == Some(right[left[i].0@]),
        forall|i: int|
            0 <= i < left.len() && !right.contains_key(left[i].0@) ==> (#[trigger] outer_rows(
                left,
                right,
            )[i]).2 is None,
{
}

/// Every line of the inner join is a left line whose key the right side has, paired
/// with the right side's cells for that key; and every such left line is in it.
pub proof fn lemma_inner_rows_matched(left: Seq<Line>, right: Map<OuterKey, Seq<InnerType>>)
    ensures
        forall|i: int|
            0 <= i < inner_rows(left, right).len() ==> {
                let t = #[trigger] inner_rows(left, right)[i];
                &&& right.contains_key(t.0@)
                &&& t.2 == right[t.0@]
                &&& left.contains((t.0, t.1))
            },
        forall|k: int|
            0 <= k < left.len() && right.contains_key(left[k].0@) ==> inner_rows(
                left,
                right,
            ).contains((left[k].0, left[k].1, right[left[k].0@])),
{
    let p = |l: Line| right.contains_key(l.0@);
    let f = |l: Line| (l.0, l.1, right[l.0@]);
    let kept = left.filter(p);
    assert forall|i: int| 0 <= i < inner_rows(left, right).len() implies {
        let t = #[trigger] inner_rows(left, right)[i];
        &&& right.contains_key(t.0@)
        &&& t.2 == right[t.0@]
        &&& left.contains((t.0, t.1))
    } by {
        left.lemma_filter_pred(p, i);
        assert(kept.contains(kept[i]));
        left.lemma_filter_contains_rev(p, kept[i]);
    }
    assert forall|k: int| 0 <= k < left.len() && right.contains_key(left[k].0@) implies inner_rows(
        left,
        right,
    ).contains((left[k].0, left[k].1, right[left[k].0@])) by {
        left.lemma_filter_contains(p, k);
        let j = choose|j: int| 0 <= j < kept.len() && kept[j] == left[k];
        assert(inner_rows(left, right)[j] == f(left[k]));
    }
}

/// The right side of a join answers for the key of its line `i` with that line's
/// cells, where no later line has the same key: of lines with equal keys, the last
/// one wins.
pub proof fn lemma_lookup_last(s: Seq<Line>, i: int)
    requires
        0 <= i < s.len(),
        forall|j: int| i < j < s.len() ==> (#[trigger] s[j]).0@ != s[i].0@,
    ensures
        lookup_map(s).contains_key(s[i].0@),
        lookup_map(s)[s[i].0@] == s[i].1,
    decreases s.len(),
{
    if i < s.len() - 1 {
        let t = s.drop_last();
        assert forall|j: int| i < j < t.len() implies (#[trigger] t[j]).0@ != t[i].0@ by {
            assert(t[j] == s[j]);
        }
        lemma_lookup_last(t, i);
        assert(s.last() == s[s.len() - 1]);
    }
}

/// The right side of a join has no answer for a key that none of its lines has.
pub proof fn lemma_lookup_absent(s: Seq<Line>, key: OuterKey)
    requires
        forall|j: int| 0 <= j < s.len() ==> (#[trigger] s[j]).0@ != key,
    ensures
        !lookup_map(s).contains_key(key),
    decreases s.len(),
{
    if s.len() > 0 {
        let t = s.drop_last();
        assert forall|j: int| 0 <= j < t.len() implies (#[trigger] t[j]).0@ != key by {
            assert(t[j] == s[j]);
        }
        lemma_lookup_absent(t, key);
    }
}

/// A filter whose predicate every element satisfies keeps everything.
proof fn lemma_filter_all<A>(s: Seq<A>, p: spec_fn(A) -> bool)
    requires
        forall|i: int| 0 <= i < s.len() ==> p(#[trigger] s[i]),
    ensures
        s.filter(p) == s,
    decreases s.len(),
{
    if s.len() == 0 {
        reveal(Seq::filter);
    } else {
        lemma_filter_first(s, p);
        assert forall|i: int| 0 <= i < s.drop_first().len() implies p(
            #[trigger] s.drop_first()[i],
        ) by {
            assert(s.drop_first()[i] == s[i + 1]);
        }
        lemma_filter_all(s.drop_first(), p);
        assert(seq![s[0]] + s.drop_first() =~= s);
    }
}

/// The data frame an inner join builds is the one the outer join builds with the
/// unmatched rows taken out: the same row labels and the same cells, row by row,
/// for the rows that found a match, in their order.
pub proof fn lemma_inner_frame_is_outer_frame_matched(
    left: Seq<Line>,
    right: Map<OuterKey, Seq<InnerType>>,
    width: nat,
)
    ensures
        inner_rows(left, right).len() == outer_rows(left, right).filter(
            |t: OuterJoinedLine| t.2 is Some,
        ).len(),
        inner_keys(inner_rows(left, right)) == outer_keys(
            outer_rows(left, right).filter(|t: OuterJoinedLine| t.2 is Some),
        ),
        inner_cells(inner_rows(left, right)) == outer_cells(
            outer_rows(left, right).filter(|t: OuterJoinedLine| t.2 is Some),
            width,
        ),
{
    let p = |t: OuterJoinedLine| t.2 is Some;
    let kept = outer_rows(left, right).filter(p);
    let u = |t: OuterJoinedLine|
        (
            t.0,
            t.1,
            match t.2 {
                Some(v) => v,
                None => Seq::empty(),
            },
        );
    lemma_inner_is_matched_outer(left, right);
    assert(inner_rows(left, right) == kept.map_values(u));
    let f = |t: JoinedLine| t.1 + t.2;
    let g = |t: OuterJoinedLine| t.1 + filled(t.2, width);
    assert forall|i: int| 0 <= i < kept.len() implies #[trigger] kept.map_values(u).map_values(f)[i]
        == kept.map_values(g)[i] by {
        outer_rows(left, right).lemma_filter_pred(p, i);
    }
    assert(kept.map_values(u).map_values(f) =~= kept.map_values(g));
    assert(inner_keys(kept.map_values(u)) =~= outer_keys(kept));
}

/// Where every left key is matched on the right, the outer join builds the same data
/// frame as the inner join: the same row labels and the same cells, with no missing
/// value added.
pub proof fn lemma_outer_frame_is_inner_when_all_match(
    left: Seq<Line>,
    right: Map<OuterKey, Seq<InnerType>>,
    width: nat,
)
    requires
        forall|i: int| 0 <= i < left.len() ==> right.contains_key((#[trigger] left[i]).0@),
    ensures
        outer_rows(left, right).len() == inner_rows(left, right).len(),
        outer_keys(outer_rows(left, right)) == inner_keys(inner_rows(left, right)),
        outer_cells(outer_rows(left, right), width) == inner_cells(inner_rows(left, right)),
{
    let p = |t: OuterJoinedLine| t.2 is Some;
    let o = outer_rows(left, right);
    assert forall|i: int| 0 <= i < o.len() implies p(#[trigger] o[i]) by {
        assert(right.contains_key(left[i].0@));
    }
    lemma_filter_all(o, p);
    lemma_inner_frame_is_outer_frame_matched(left, right, width);
}

/// The cells that fill the right side of an unmatched outer-join row are `width`
/// missing values and nothing else.
pub proof fn lemma_filler_is_missing(width: nat)
    ensures
        filled(None, width).len() == width,
        forall|i: int| 0 <= i < width ==> #[trigger] filled(None, width)[i] == InnerType::Empty,
{
}

} // verus!
