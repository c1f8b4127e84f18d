use knn_classifier::knn::{k_nearest_neighbors, Accuracy};
use knn_classifier::reader::{ColumnVal, DataFrame, NumericVal};
use knn_classifier::KnnError;

fn sample_frame() -> DataFrame {
    let mut df = DataFrame::new();
    assert!(df.push_column("age".to_string()));
    assert!(df.push_column("weight".to_string()));
    assert!(df.push_column("name".to_string()));
    assert!(df.push_column("sick".to_string()));
    assert!(df.append_row(vec![
        ColumnVal::Integer(34),
        ColumnVal::Real(70.5f64.to_bits()),
        ColumnVal::Text("ada".to_string()),
        ColumnVal::Flag(false),
    ]));
    assert!(df.append_row(vec![
        ColumnVal::Integer(61),
        ColumnVal::Real(82.0f64.to_bits()),
        ColumnVal::Text("bob".to_string()),
        ColumnVal::Flag(true),
    ]));
    df
}

#[test]
fn builds_and_counts() {
    let df = sample_frame();
    assert_eq!(2, df.num_rows());
    assert_eq!(4, df.num_columns());
    assert_eq!(Some(0), df.find_column(&"age".to_string()));
    assert_eq!(Some(3), df.find_column(&"sick".to_string()));
    assert_eq!(None, df.find_column(&"height".to_string()));
    assert_eq!(&ColumnVal::Integer(61), df.cell(0, 1));
    assert_eq!(&ColumnVal::Text("ada".to_string()), df.cell(2, 0));
}

#[test]
fn push_column_refuses_duplicates_and_late_columns() {
    let mut df = DataFrame::new();
    assert!(df.push_column("age".to_string()));
    assert!(!df.push_column("age".to_string()));
    assert!(df.append_row(vec![ColumnVal::Integer(1)]));
    assert!(!df.push_column("weight".to_string()));
    assert_eq!(1, df.num_columns());
}

#[test]
fn append_row_refuses_wrong_arity() {
    let mut df = DataFrame::new();
    assert!(df.push_column("age".to_string()));
    assert!(df.push_column("weight".to_string()));
    assert!(!df.append_row(vec![ColumnVal::Integer(1)]));
    assert_eq!(0, df.num_rows());
}

#[test]
fn restrict_columns_projects_in_order() {
    let mut df = sample_frame();
    assert_eq!(Ok(()), df.restrict_columns(vec!["weight".to_string(), "age".to_string()]));
    assert_eq!(2, df.num_columns());
    assert_eq!(2, df.num_rows());
    assert_eq!(Some(0), df.find_column(&"weight".to_string()));
    assert_eq!(Some(1), df.find_column(&"age".to_string()));
    assert_eq!(None, df.find_column(&"name".to_string()));
    assert_eq!(&ColumnVal::Real(70.5f64.to_bits()), df.cell(0, 0));
    assert_eq!(&ColumnVal::Integer(34), df.cell(1, 0));
    assert_eq!(&ColumnVal::Integer(61), df.cell(1, 1));
}

#[test]
fn restrict_columns_unknown_name() {
    let mut df = sample_frame();
    assert_eq!(
        Err(KnnError::UnknownColumn),
        df.restrict_columns(vec!["age".to_string(), "height".to_string()])
    );
    // the failed restriction leaves the table unchanged
    assert_eq!(4, df.num_columns());
    assert_eq!(2, df.num_rows());
}

#[test]
fn restrict_columns_duplicate_name() {
    let mut df = sample_frame();
    assert_eq!(
        Err(KnnError::DuplicateColumn),
        df.restrict_columns(vec!["age".to_string(), "age".to_string()])
    );
    assert_eq!(4, df.num_columns());
}

#[test]
fn numeric_rows_widens_and_orders() {
    let mut df = sample_frame();
    assert_eq!(Ok(()), df.restrict_columns(vec!["age".to_string(), "weight".to_string()]));
    let rows = df.numeric_rows().unwrap();
    assert_eq!(
        vec![
            vec![NumericVal::Integer(34), NumericVal::Real(70.5f64.to_bits())],
            vec![NumericVal::Integer(61), NumericVal::Real(82.0f64.to_bits())],
        ],
        rows
    );
    // the consumer widens Integer to Real when building feature vectors
    let widened: Vec<Vec<f64>> = rows
        .iter()
        .map(|r| {
            r.iter()
                .map(|v| match v {
                    NumericVal::Real(b) => f64::from_bits(*b),
                    NumericVal::Integer(n) => *n as f64,
                })
                .collect()
        })
        .collect();
    assert_eq!(vec![vec![34.0, 70.5], vec![61.0, 82.0]], widened);
}

#[test]
fn numeric_rows_rejects_text() {
    let df = sample_frame();
    assert_eq!(Err(KnnError::UnsupportedCellVariant), df.numeric_rows());
}

#[test]
fn bool_column_reads_flags() {
    let df = sample_frame();
    assert_eq!(vec![false, true], df.bool_column(3).unwrap());
    assert_eq!(Err(KnnError::UnsupportedCellVariant), df.bool_column(0));
}

#[test]
fn table_to_classification_pipeline() {
    // the full flow the library is made for: a populated table is split
    // into a numeric view and a label view, feature rows are widened,
    // distances are computed outside and handed in as bit-pattern keys
    let mut df = DataFrame::new();
    assert!(df.push_column("x".to_string()));
    assert!(df.push_column("y".to_string()));
    assert!(df.push_column("hit".to_string()));
    let points: [(f64, f64, bool); 6] =
        [(0.0, 0.0, true), (1.0, 0.0, true), (0.0, 1.5, true), (9.0, 9.0, false),
            (8.0, 9.5, false), (5.0, 5.0, true)];
    for (x, y, hit) in points {
        assert!(df.append_row(vec![
            ColumnVal::Real(x.to_bits()),
            ColumnVal::Real(y.to_bits()),
            ColumnVal::Flag(hit),
        ]));
    }
    let mut features = df.clone();
    let mut labels = df.clone();
    assert_eq!(Ok(()), features.restrict_columns(vec!["x".to_string(), "y".to_string()]));
    assert_eq!(Ok(()), labels.restrict_columns(vec!["hit".to_string()]));
    let rows: Vec<Vec<f64>> = features
        .numeric_rows()
        .unwrap()
        .iter()
        .map(|r| {
            r.iter()
                .map(|v| match v {
                    NumericVal::Real(b) => f64::from_bits(*b),
                    NumericVal::Integer(n) => *n as f64,
                })
                .collect()
        })
        .collect();
    let label_vals = labels.bool_column(0).unwrap();

    // first four rows train, last two are tested
    let train: Vec<Vec<f64>> = rows[..4].to_vec();
    let train_labels = label_vals[..4].to_vec();
    let test: Vec<Vec<f64>> = rows[4..].to_vec();
    let test_labels = label_vals[4..].to_vec();
    let dists: Vec<Vec<u64>> = test
        .iter()
        .map(|p| {
            train
                .iter()
                .map(|t| {
                    let mut sum: f64 = 0.0;
                    for i in 0..t.len() {
                        sum += (t[i] - p[i]).powf(2.0);
                    }
                    sum.powf(0.5).to_bits()
                })
                .collect()
        })
        .collect();
    let (predictions, accuracy) =
        k_nearest_neighbors(&dists, &train_labels, &test_labels, 3).unwrap();
    // (8, 9.5) sits by the false cluster but two of its three nearest
    // training rows are true-labelled; (5, 5) is nearer the true cluster
    assert_eq!(vec![true, true], predictions);
    assert_eq!(Accuracy { correct: 1, total: 2 }, accuracy);
}
