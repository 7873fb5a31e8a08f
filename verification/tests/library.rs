use utah::dataframe::{mapdf, DFIter, DataFrame, LineIter};
use utah::join::{InnerJoin, OuterJoin};
use utah::matrix::Matrix;
use utah::types::{Empty, ErrorKind, InnerType, OuterType, UtahAxis};

fn i(x: i32) -> InnerType {
    InnerType::Int32(x)
}

fn label(x: &str) -> OuterType {
    OuterType::Str(x.to_string())
}

fn matrix(rows: usize, cols: usize, cells: Vec<InnerType>) -> Matrix {
    Matrix::from_shape_vec(rows, cols, cells).unwrap()
}

/// A 2 x 3 frame with columns a, b, c and rows r0, r1: [[1, 2, 3], [4, 5, 6]].
fn frame() -> DataFrame {
    DataFrame::new(matrix(2, 3, vec![i(1), i(2), i(3), i(4), i(5), i(6)]))
        .columns(&[label("a"), label("b"), label("c")])
        .unwrap()
        .index(&[label("r0"), label("r1")])
        .unwrap()
}

fn drain<I: LineIter>(mut it: I) -> Vec<(OuterType, Vec<InnerType>)> {
    let mut out = Vec::new();
    while let Some(x) = it.next() {
        out.push(x);
    }
    out
}

#[test]
fn matrix_rejects_wrong_cell_count() {
    assert_eq!(
        Matrix::from_shape_vec(2, 2, vec![i(1), i(2), i(3)]),
        Err(ErrorKind::ShapeMismatch)
    );
    assert_eq!(
        Matrix::from_shape_vec(1, 2, vec![i(1), i(2), i(3)]),
        Err(ErrorKind::ShapeMismatch)
    );
}

#[test]
fn matrix_accepts_empty_shapes() {
    assert_eq!(Matrix::from_shape_vec(0, 5, vec![]).unwrap().shape(), (0, 5));
    assert_eq!(Matrix::from_shape_vec(3, 0, vec![]).unwrap().shape(), (3, 0));
}

#[test]
fn matrix_rows_and_columns() {
    let m = matrix(2, 3, vec![i(1), i(2), i(3), i(4), i(5), i(6)]);
    assert_eq!(m.shape(), (2, 3));
    assert_eq!(m.row(1), vec![i(4), i(5), i(6)]);
    assert_eq!(m.column(2), vec![i(3), i(6)]);
    assert_eq!(m.clone(), m);
}

#[test]
fn new_labels_lines_by_position() {
    let cells: Vec<InnerType> = (0..24).map(i).collect();
    let df = DataFrame::new(matrix(12, 2, cells));
    assert_eq!(df.columns, vec![label("0"), label("1")]);
    assert_eq!(df.index.len(), 12);
    assert_eq!(df.index[0], label("0"));
    assert_eq!(df.index[9], label("9"));
    assert_eq!(df.index[10], label("10"));
    assert_eq!(df.index[11], label("11"));
}

#[test]
fn label_count_errors() {
    let df = DataFrame::new(matrix(1, 2, vec![i(1), i(2)]));
    assert_eq!(df.clone().columns(&[label("a")]), Err(ErrorKind::ColumnShapeMismatch));
    assert_eq!(df.clone().index(&[label("a"), label("b")]), Err(ErrorKind::RowShapeMismatch));
    let ok = df.index(&[OuterType::Int64(7)]).unwrap();
    assert_eq!(ok.index, vec![OuterType::Int64(7)]);
    assert_eq!(ok.columns, vec![label("0"), label("1")]);
}

#[test]
fn iterate_rows_and_columns() {
    let df = frame();
    assert_eq!(
        drain(df.df_iter(UtahAxis::Row)),
        vec![(label("r0"), vec![i(1), i(2), i(3)]), (label("r1"), vec![i(4), i(5), i(6)])]
    );
    assert_eq!(
        drain(df.df_iter(UtahAxis::Column)),
        vec![
            (label("a"), vec![i(1), i(4)]),
            (label("b"), vec![i(2), i(5)]),
            (label("c"), vec![i(3), i(6)]),
        ]
    );
}

#[test]
fn iteration_stops_at_the_shorter_of_labels_and_lines() {
    let df = DataFrame {
        columns: vec![label("only")],
        data: matrix(1, 2, vec![i(1), i(2)]),
        index: vec![label("x")],
    };
    let mut it = df.df_iter(UtahAxis::Column);
    assert_eq!(it.next(), Some((label("only"), vec![i(1)])));
    assert_eq!(it.next(), None);
    assert_eq!(it.next(), None);
}

#[test]
fn rows_and_columns_show_the_same_cells() {
    let df = frame();
    let rows = drain(df.df_iter(UtahAxis::Row));
    let cols = drain(df.df_iter(UtahAxis::Column));
    for r in 0..rows.len() {
        for c in 0..cols.len() {
            assert_eq!(rows[r].1[c], cols[c].1[r]);
        }
    }
}

#[test]
fn select_and_remove_columns() {
    let df = frame();
    let sel = drain(df.select(vec![label("c"), label("a"), label("zz")], UtahAxis::Column));
    assert_eq!(sel, vec![(label("a"), vec![i(1), i(4)]), (label("c"), vec![i(3), i(6)])]);
    let rem = drain(df.remove(vec![label("a")], UtahAxis::Column));
    assert_eq!(rem, vec![(label("b"), vec![i(2), i(5)]), (label("c"), vec![i(3), i(6)])]);
    assert!(drain(df.select(vec![], UtahAxis::Row)).is_empty());
}

#[test]
fn select_and_remove_split_the_lines() {
    let df = frame();
    let names = vec![label("b"), label("r1")];
    let all = drain(df.df_iter(UtahAxis::Column));
    let sel = drain(df.select(names.clone(), UtahAxis::Column));
    let rem = drain(df.remove(names, UtahAxis::Column));
    assert_eq!(sel.len() + rem.len(), all.len());
    for line in &all {
        assert!(sel.contains(line) != rem.contains(line));
    }
}

#[test]
fn selections_commute_and_repeat() {
    let df = frame();
    let a = vec![label("a"), label("b")];
    let b = vec![label("b"), label("c")];
    let ab = drain(df.df_iter(UtahAxis::Column).select(a.clone()).select(b.clone()));
    let ba = drain(df.df_iter(UtahAxis::Column).select(b.clone()).select(a.clone()));
    assert_eq!(ab, ba);
    assert_eq!(ab, vec![(label("b"), vec![i(2), i(5)])]);
    let twice = drain(df.df_iter(UtahAxis::Column).select(a.clone()).select(a.clone()));
    let once = drain(df.df_iter(UtahAxis::Column).select(a.clone()));
    assert_eq!(twice, once);
    assert!(drain(df.df_iter(UtahAxis::Column).select(a.clone()).remove(a)).is_empty());
}

#[test]
fn removing_twice_removes_both_lists() {
    let df = frame();
    let two = drain(
        df.df_iter(UtahAxis::Column).remove(vec![label("a")]).remove(vec![label("c")]),
    );
    let one = drain(df.remove(vec![label("a"), label("c")], UtahAxis::Column));
    assert_eq!(two, one);
    assert_eq!(one, vec![(label("b"), vec![i(2), i(5)])]);
}

#[test]
fn append_puts_the_line_first() {
    let df = frame();
    let lines = drain(df.append(label("new"), vec![i(9), i(9), i(9)], UtahAxis::Row));
    assert_eq!(
        lines,
        vec![
            (label("new"), vec![i(9), i(9), i(9)]),
            (label("r0"), vec![i(1), i(2), i(3)]),
            (label("r1"), vec![i(4), i(5), i(6)]),
        ]
    );
}

#[test]
fn concat_chains_two_streams() {
    let df = frame();
    let lines = drain(utah::dataframe::concat(
        df.select(vec![label("r1")], UtahAxis::Row),
        df.df_iter(UtahAxis::Row),
    ));
    assert_eq!(
        lines,
        vec![
            (label("r1"), vec![i(4), i(5), i(6)]),
            (label("r0"), vec![i(1), i(2), i(3)]),
            (label("r1"), vec![i(4), i(5), i(6)]),
        ]
    );
    let via_method = drain(df.df_iter(UtahAxis::Row).concat(df.df_iter(UtahAxis::Row)));
    assert_eq!(via_method.len(), 4);
}

#[test]
fn mapdf_applies_the_function_to_each_line() {
    let df = frame();
    let mut m = df.df_iter(UtahAxis::Column).mapdf(|x: (OuterType, Vec<InnerType>)| x.1.len());
    assert_eq!(m.next(), Some(2));
    assert_eq!(m.next(), Some(2));
    assert_eq!(m.next(), Some(2));
    assert_eq!(m.next(), None);
    let mut n = mapdf(df.df_iter(UtahAxis::Row), |x: (OuterType, Vec<InnerType>)| x.0);
    assert_eq!(n.next(), Some(label("r0")));
    assert_eq!(n.next(), Some(label("r1")));
    assert_eq!(n.next(), None);
}

#[test]
fn join_uses_the_last_right_line_of_a_key() {
    let left = DataFrame::new(matrix(2, 1, vec![i(1), i(2)]))
        .index(&[OuterType::Int32(1), OuterType::Int32(2)])
        .unwrap();
    let right = DataFrame::new(matrix(3, 1, vec![i(10), i(11), i(20)]))
        .index(&[OuterType::Int32(1), OuterType::Int32(1), OuterType::Int32(5)])
        .unwrap();
    let mut j = utah::dataframe::join(
        left.df_iter(UtahAxis::Row),
        right.df_iter(UtahAxis::Row),
        vec![],
        vec![],
    );
    assert_eq!(j.next(), Some((OuterType::Int32(1), vec![i(1)], vec![i(11)])));
    assert_eq!(j.next(), None);
    let mut o = OuterJoin::new(
        left.df_iter(UtahAxis::Row),
        right.df_iter(UtahAxis::Row),
        vec![],
        vec![],
    );
    assert_eq!(o.next(), Some((OuterType::Int32(1), vec![i(1)], Some(vec![i(11)]))));
    assert_eq!(o.next(), Some((OuterType::Int32(2), vec![i(2)], None)));
    assert_eq!(o.next(), None);
}

#[test]
fn inner_join_is_the_matched_part_of_the_outer_join() {
    let left = frame();
    let right = DataFrame::new(matrix(2, 1, vec![i(7), i(8)]))
        .index(&[label("r1"), label("zz")])
        .unwrap();
    let mut inner = InnerJoin::new(left.df_iter(UtahAxis::Row), right.df_iter(UtahAxis::Row), vec![], vec![]);
    let mut outer = OuterJoin::new(left.df_iter(UtahAxis::Row), right.df_iter(UtahAxis::Row), vec![], vec![]);
    let mut matched = Vec::new();
    let mut count = 0;
    while let Some((k, l, r)) = outer.next() {
        count += 1;
        if let Some(r) = r {
            matched.push((k, l, r));
        }
    }
    assert_eq!(count, 2);
    let mut joined = Vec::new();
    while let Some(x) = inner.next() {
        joined.push(x);
    }
    assert_eq!(joined, matched);
    assert_eq!(joined, vec![(label("r1"), vec![i(4), i(5), i(6)], vec![i(7)])]);
}

#[test]
fn inner_join_with_no_match_builds_an_empty_frame() {
    let left = frame();
    let right = DataFrame::new(matrix(1, 1, vec![i(7)])).index(&[label("none")]).unwrap();
    let df = InnerJoin::new(
        left.df_iter(UtahAxis::Row),
        right.df_iter(UtahAxis::Row),
        left.columns.clone(),
        right.columns.clone(),
    )
    .to_df();
    assert!(df.index.is_empty());
    assert_eq!(df.data.shape(), (0, 4));
    assert_eq!(df.columns, vec![label("a"), label("b"), label("c"), label("0")]);
}

#[test]
fn outer_join_fills_missing_cells() {
    let left = frame();
    let right = DataFrame::new(matrix(1, 2, vec![i(7), i(8)]))
        .index(&[label("r0")])
        .unwrap()
        .columns(&[label("x"), label("y")])
        .unwrap();
    let df = OuterJoin::new(
        left.df_iter(UtahAxis::Row),
        right.df_iter(UtahAxis::Row),
        left.columns.clone(),
        right.columns.clone(),
    )
    .to_df();
    assert_eq!(df.index, vec![label("r0"), label("r1")]);
    assert_eq!(df.data.shape(), (2, 5));
    assert_eq!(df.data.row(0), vec![i(1), i(2), i(3), i(7), i(8)]);
    assert_eq!(df.data.row(1), vec![i(4), i(5), i(6), InnerType::Empty, InnerType::Empty]);
}

#[test]
fn labels_and_cells() {
    assert!(OuterType::Str("a".to_string()).same_name(&label("a")));
    assert!(!OuterType::Int32(1).same_name(&OuterType::Int64(1)));
    assert!(OuterType::DateTime(5, 1).same_name(&OuterType::DateTime(5, 1)));
    assert!(!OuterType::DateTime(5, 1).same_name(&OuterType::DateTime(5, 2)));
    assert_eq!(label("q").duplicate(), label("q"));
    assert_eq!(InnerType::Str("s".to_string()).duplicate(), InnerType::Str("s".to_string()));
    assert_eq!(<InnerType as Empty<InnerType>>::empty(), InnerType::Empty);
    assert!(InnerType::Empty.is_empty());
    assert!(!InnerType::Float(0).is_empty());
}

#[test]
fn inner_join_advances_left_just_past_the_match() {
    let left = frame();
    let right = DataFrame::new(matrix(1, 1, vec![i(7)])).index(&[label("r0")]).unwrap();
    let mut j = InnerJoin::new(left.df_iter(UtahAxis::Row), right.df_iter(UtahAxis::Row), vec![], vec![]);
    assert_eq!(j.next(), Some((label("r0"), vec![i(1), i(2), i(3)], vec![i(7)])));
    assert_eq!(j.left.next(), Some((label("r1"), vec![i(4), i(5), i(6)])));
    let mut k = InnerJoin::new(left.df_iter(UtahAxis::Row), right.df_iter(UtahAxis::Row), vec![], vec![]);
    assert!(k.next().is_some());
    assert_eq!(k.next(), None);
    assert_eq!(k.left.next(), None);
}

#[test]
fn outer_frame_equals_inner_frame_when_every_key_matches() {
    let left = frame();
    let right = DataFrame::new(matrix(2, 1, vec![i(8), i(7)]))
        .index(&[label("r1"), label("r0")])
        .unwrap()
        .columns(&[label("x")])
        .unwrap();
    let outer = OuterJoin::new(left.df_iter(UtahAxis::Row), right.df_iter(UtahAxis::Row), left.columns.clone(), right.columns.clone()).to_df();
    let inner = InnerJoin::new(left.df_iter(UtahAxis::Row), right.df_iter(UtahAxis::Row), left.columns.clone(), right.columns.clone()).to_df();
    assert_eq!(outer, inner);
    assert_eq!(inner.data.row(1), vec![i(4), i(5), i(6), i(8)]);
}

#[test]
fn inner_frame_is_outer_frame_without_unmatched_rows() {
    let left = frame();
    let right = DataFrame::new(matrix(1, 1, vec![i(8)]))
        .index(&[label("r1")])
        .unwrap()
        .columns(&[label("x")])
        .unwrap();
    let outer = OuterJoin::new(left.df_iter(UtahAxis::Row), right.df_iter(UtahAxis::Row), left.columns.clone(), right.columns.clone()).to_df();
    let inner = InnerJoin::new(left.df_iter(UtahAxis::Row), right.df_iter(UtahAxis::Row), left.columns.clone(), right.columns.clone()).to_df();
    assert_eq!(outer.index, vec![label("r0"), label("r1")]);
    assert_eq!(inner.index, vec![label("r1")]);
    assert_eq!(inner.columns, outer.columns);
    assert_eq!(inner.data.row(0), outer.data.row(1));
    assert_eq!(outer.data.row(0), vec![i(1), i(2), i(3), InnerType::Empty]);
}

#[test]
fn positional_labels_are_decimal() {
    let cells: Vec<InnerType> = (0..101).map(i).collect();
    let df = DataFrame::new(matrix(101, 1, cells));
    assert_eq!(df.index[0], label("0"));
    assert_eq!(df.index[7], label("7"));
    assert_eq!(df.index[42], label("42"));
    assert_eq!(df.index[100], label("100"));
}

#[test]
fn floats_compare_as_floating_point_numbers() {
    let pos = InnerType::Float(0.0f64.to_bits());
    let neg = InnerType::Float((-0.0f64).to_bits());
    let nan = InnerType::Float(f64::NAN.to_bits());
    assert_eq!(pos, neg);
    assert_ne!(nan.clone(), nan);
    assert_eq!(InnerType::Float(1.5f64.to_bits()), InnerType::Float(1.5f64.to_bits()));
    assert_ne!(InnerType::Float(1.5f64.to_bits()), InnerType::Float(2.5f64.to_bits()));
    assert_ne!(InnerType::Float(1.0f64.to_bits()), InnerType::Int64(1));
    assert_eq!(InnerType::Str("a".to_string()), InnerType::Str("a".to_string()));
    assert_eq!(InnerType::Empty, InnerType::Empty);
    let a = DataFrame::new(matrix(1, 1, vec![pos]));
    let b = DataFrame::new(matrix(1, 1, vec![neg]));
    assert_eq!(a, b);
    let c = DataFrame::new(matrix(1, 1, vec![nan.clone()]));
    assert_ne!(c.clone(), c);
}
