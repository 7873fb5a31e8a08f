use chrono::{TimeZone, Utc};
use utah::dataframe::{DataFrame, LineIter};
use utah::join::{InnerJoin, OuterJoin};
use utah::matrix::Matrix;
use utah::types::{InnerType, OuterType, UtahAxis};

fn s(x: &str) -> InnerType {
    InnerType::Str(x.to_string())
}

fn f(x: f64) -> InnerType {
    InnerType::Float(x.to_bits())
}

fn label(x: &str) -> OuterType {
    OuterType::Str(x.to_string())
}

fn matrix(rows: usize, cols: usize, cells: Vec<InnerType>) -> Matrix {
    Matrix::from_shape_vec(rows, cols, cells).unwrap()
}

#[test]
fn outer_left_join() {
    let a = matrix(2, 1, vec![s("Alice"), s("Bob")]);
    let left = DataFrame::new(a)
        .index(&[OuterType::Int32(1), OuterType::Int32(2)])
        .unwrap()
        .columns(&[label("a")])
        .unwrap();
    let b = matrix(1, 1, vec![s("Programmer")]);
    let right = DataFrame::new(b)
        .index(&[OuterType::Int32(1)])
        .unwrap()
        .columns(&[label("b")])
        .unwrap();
    let res = OuterJoin::new(
        left.df_iter(UtahAxis::Row),
        right.df_iter(UtahAxis::Row),
        left.columns.clone(),
        right.columns.clone(),
    )
    .to_df();
    let expected_data = matrix(2, 2, vec![s("Alice"), s("Programmer"), s("Bob"), InnerType::Empty]);
    let expected = DataFrame::new(expected_data)
        .index(&[OuterType::Int32(1), OuterType::Int32(2)])
        .unwrap()
        .columns(&[label("a"), label("b")])
        .unwrap();
    assert_eq!(res, expected);
}

#[test]
fn inner_join() {
    let a = matrix(3, 1, vec![s("Alice"), s("Bob"), s("Suchin")]);
    let left = DataFrame::new(a)
        .index(&[OuterType::Int32(1), OuterType::Int32(2), OuterType::Int32(3)])
        .unwrap()
        .columns(&[label("a")])
        .unwrap();
    let b = matrix(2, 1, vec![s("Programmer"), s("Data Scientist")]);
    let right = DataFrame::new(b)
        .index(&[OuterType::Int32(1), OuterType::Int32(3)])
        .unwrap()
        .columns(&[label("b")])
        .unwrap();
    let res = InnerJoin::new(
        left.df_iter(UtahAxis::Row),
        right.df_iter(UtahAxis::Row),
        left.columns.clone(),
        right.columns.clone(),
    )
    .to_df();
    let expected_data = matrix(
        2,
        2,
        vec![s("Alice"), s("Programmer"), s("Suchin"), s("Data Scientist")],
    );
    let expected = DataFrame::new(expected_data)
        .index(&[OuterType::Int32(1), OuterType::Int32(3)])
        .unwrap()
        .columns(&[label("a"), label("b")])
        .unwrap();
    assert_eq!(res, expected);
}

#[test]
fn dataframe_creation() {
    let a = matrix(2, 2, vec![f(2.), f(3.), f(3.), f(4.)]);
    let df = DataFrame::new(a).columns(&[label("a"), label("b")]);
    assert!(df.is_ok())
}

#[test]
fn dataframe_creation_mixed_types() {
    let a = matrix(2, 2, vec![s("string"), f(14.), f(4.), InnerType::Int32(4)]);
    let first = Utc.with_ymd_and_hms(2014, 7, 8, 9, 10, 11).unwrap();
    let second = Utc.with_ymd_and_hms(2014, 10, 5, 2, 5, 7).unwrap();
    let df = DataFrame::new(a).columns(&[
        OuterType::DateTime(first.timestamp(), first.timestamp_subsec_nanos()),
        OuterType::DateTime(second.timestamp(), second.timestamp_subsec_nanos()),
    ]);
    assert!(df.is_ok())
}

#[test]
fn dataframe_index() {
    let a = matrix(2, 2, vec![f(2.), f(3.), f(3.), f(4.)]);
    let df = DataFrame::new(a).columns(&[label("a"), label("b")]).unwrap();

    let mut z = df.select(vec![label("a")], UtahAxis::Column);
    let col = df.data.column(0);
    assert_eq!(z.next(), Some((label("a"), col)));
    assert_eq!(z.next(), None);

    let mut z = df.select(vec![label("0")], UtahAxis::Row);
    let row = df.data.row(0);
    assert_eq!(z.next(), Some((label("0"), row)));
    assert_eq!(z.next(), None);
}

#[test]
fn dataframe_creation_failure() {
    let cells: Vec<InnerType> = (0..10).map(|i| f(i as f64 * 0.9)).collect();
    let a = matrix(2, 5, cells);
    let df = DataFrame::new(a).columns(&[label("1"), label("2")]);
    assert!(df.is_err())
}
