use toroidal_tql::ast::{WindowExpression, WindowFunction, WindowSpec};
use toroidal_tql::window::{Cell, WindowFunctionExecutor};

fn s(x: &str) -> Cell {
    Cell::Str(x.to_string())
}

#[test]
fn test_row_number() {
    let mut executor = WindowFunctionExecutor::new();
    let data = vec![vec![s("a")], vec![s("b")], vec![s("c")]];

    let window_expr = WindowExpression {
        function: WindowFunction::RowNumber,
        window_spec: None,
        alias: "rn".to_string(),
    };

    let result = executor.execute(&data.clone(), &window_expr).unwrap().unwrap();
    assert_eq!(result[0], Cell::UInt(1));
    assert_eq!(result[1], Cell::UInt(2));
    assert_eq!(result[2], Cell::UInt(3));
}

#[test]
fn test_lag() {
    let mut executor = WindowFunctionExecutor::new();
    let data = vec![vec![Cell::UInt(1)], vec![Cell::UInt(2)], vec![Cell::UInt(3)]];

    let window_expr = WindowExpression {
        function: WindowFunction::Lag("$0".to_string()),
        window_spec: None,
        alias: "prev".to_string(),
    };

    let result = executor.execute(&data.clone(), &window_expr).unwrap().unwrap();
    assert_eq!(result[0], Cell::Null);
    assert_eq!(result[1], Cell::UInt(1));
    assert_eq!(result[2], Cell::UInt(2));
}

#[test]
fn test_lead() {
    let mut executor = WindowFunctionExecutor::new();
    let data = vec![vec![Cell::UInt(1)], vec![Cell::UInt(2)], vec![Cell::UInt(3)]];

    let window_expr = WindowExpression {
        function: WindowFunction::Lead("$0".to_string()),
        window_spec: None,
        alias: "next".to_string(),
    };

    let result = executor.execute(&data.clone(), &window_expr).unwrap().unwrap();
    assert_eq!(result[0], Cell::UInt(2));
    assert_eq!(result[1], Cell::UInt(3));
    assert_eq!(result[2], Cell::Null);
}

fn partitioned(f: WindowFunction) -> WindowExpression {
    WindowExpression {
        function: f,
        window_spec: Some(WindowSpec { partition_by: vec!["g".to_string()], order_by: None }),
        alias: "w".to_string(),
    }
}

fn rows() -> Vec<Vec<Cell>> {
    vec![
        vec![s("x"), Cell::UInt(10)],
        vec![s("y"), Cell::UInt(20)],
        vec![s("x"), Cell::UInt(30)],
        vec![s("x"), Cell::UInt(10)],
    ]
}

#[test]
fn partitioned_row_number_and_count() {
    let mut e = WindowFunctionExecutor::new();
    let data = rows();
    let rn = e.execute(&data, &partitioned(WindowFunction::RowNumber)).unwrap().unwrap();
    assert_eq!(rn, vec![Cell::UInt(1), Cell::UInt(1), Cell::UInt(2), Cell::UInt(1)]);
    let cnt = e.execute(&data, &partitioned(WindowFunction::Count)).unwrap().unwrap();
    assert_eq!(cnt, vec![Cell::UInt(3), Cell::UInt(1), Cell::UInt(3), Cell::UInt(3)]);
}

#[test]
fn partitioned_rank_uses_first_equal_row() {
    let mut e = WindowFunctionExecutor::new();
    let data = vec![
        vec![s("x"), Cell::UInt(10)],
        vec![s("x"), Cell::UInt(30)],
        vec![s("x"), Cell::UInt(10)],
    ];
    let rk = e.execute(&data, &partitioned(WindowFunction::Rank)).unwrap().unwrap();
    assert_eq!(rk, vec![Cell::UInt(1), Cell::UInt(2), Cell::UInt(1)]);
    let dr = e.execute(&data, &partitioned(WindowFunction::DenseRank)).unwrap().unwrap();
    assert_eq!(dr, vec![Cell::UInt(1), Cell::UInt(2), Cell::UInt(1)]);
}

#[test]
fn partitioned_lag_lead_first_last() {
    let mut e = WindowFunctionExecutor::new();
    let data = vec![
        vec![s("x"), Cell::UInt(10)],
        vec![s("y"), Cell::UInt(20)],
        vec![s("x"), Cell::UInt(30)],
    ];
    let lag = e.execute(&data, &partitioned(WindowFunction::Lag("$1".to_string()))).unwrap().unwrap();
    assert_eq!(lag, vec![Cell::Null, Cell::Null, s("x")]);
    let lead = e.execute(&data, &partitioned(WindowFunction::Lead("$1".to_string()))).unwrap().unwrap();
    assert_eq!(lead, vec![s("x"), Cell::Null, Cell::Null]);
    let first = e.execute(&data, &partitioned(WindowFunction::FirstValue("$1".to_string()))).unwrap().unwrap();
    assert_eq!(first, vec![s("x"), s("y"), s("x")]);
}

#[test]
fn floating_point_functions_are_left_to_the_caller() {
    let mut e = WindowFunctionExecutor::new();
    let data = rows();
    assert_eq!(e.execute(&data, &partitioned(WindowFunction::Sum("$1".to_string()))).unwrap(), None);
    assert_eq!(e.execute(&data, &partitioned(WindowFunction::Avg("$1".to_string()))).unwrap(), None);
    let plain = WindowExpression { function: WindowFunction::DenseRank, window_spec: None, alias: "d".to_string() };
    assert_eq!(e.execute(&data, &plain).unwrap(), None);
}

#[test]
fn unpartitioned_first_last_count_and_field_index() {
    let mut e = WindowFunctionExecutor::new();
    let data = vec![
        vec![Cell::Null, Cell::UInt(1)],
        vec![Cell::UInt(7), Cell::UInt(2)],
    ];
    let plain = |f| WindowExpression { function: f, window_spec: None, alias: "a".to_string() };
    assert_eq!(
        e.execute(&data, &plain(WindowFunction::FirstValue("$0".to_string()))).unwrap().unwrap(),
        vec![Cell::UInt(1), Cell::UInt(1)]
    );
    assert_eq!(
        e.execute(&data, &plain(WindowFunction::LastValue("$0".to_string()))).unwrap().unwrap(),
        vec![Cell::UInt(7), Cell::UInt(7)]
    );
    assert_eq!(
        e.execute(&data, &plain(WindowFunction::Count)).unwrap().unwrap(),
        vec![Cell::UInt(2), Cell::UInt(2)]
    );
    // "$1" names column 1; a reference that is not "$n" names column 0
    assert_eq!(
        e.execute(&data, &plain(WindowFunction::Lag("$1".to_string()))).unwrap().unwrap(),
        vec![Cell::Null, Cell::UInt(1)]
    );
    assert_eq!(
        e.execute(&data, &plain(WindowFunction::Lead("price".to_string()))).unwrap().unwrap(),
        vec![Cell::UInt(7), Cell::Null]
    );
    let empty: Vec<Vec<Cell>> = vec![];
    assert!(e.execute(&empty, &plain(WindowFunction::FirstValue("$0".to_string()))).unwrap().unwrap().is_empty());
}

#[test]
fn zero_and_negative_zero_share_a_partition() {
    let mut e = WindowFunctionExecutor::new();
    let data = vec![
        vec![Cell::Float(0.0f64.to_bits()), Cell::UInt(1)],
        vec![Cell::Float((-0.0f64).to_bits()), Cell::UInt(2)],
        vec![Cell::Float(1.5f64.to_bits()), Cell::UInt(3)],
    ];
    let cnt = e.execute(&data, &partitioned(WindowFunction::Count)).unwrap().unwrap();
    assert_eq!(cnt, vec![Cell::UInt(2), Cell::UInt(2), Cell::UInt(1)]);
    let rn = e.execute(&data, &partitioned(WindowFunction::RowNumber)).unwrap().unwrap();
    assert_eq!(rn, vec![Cell::UInt(1), Cell::UInt(2), Cell::UInt(1)]);
}
