use cellsheet::cell::CellValue;
use cellsheet::demo::setup_demo_data;
use cellsheet::formula::{build_context, coord_to_name, evaluate_formula};
use cellsheet::grid_state::GridState;

#[test]
fn test_coord_to_name() {
    assert_eq!(coord_to_name(0, 0), "A0");
    assert_eq!(coord_to_name(1, 0), "B0");
    assert_eq!(coord_to_name(25, 0), "Z0");
    assert_eq!(coord_to_name(26, 0), "AA0");
    assert_eq!(coord_to_name(27, 0), "AB0");
    assert_eq!(coord_to_name(0, 15), "A15");
    assert_eq!(coord_to_name(26, 10), "AA10");
}

#[test]
fn test_demo_data_setup() {
    let mut grid = GridState::new();
    setup_demo_data(&mut grid);

    // Test counter setup
    let counter_cell = grid.get_cell(0, 0).unwrap();
    assert_eq!(counter_cell.raw, "= A0 + 1");
    assert!(counter_cell.is_formula);
    assert!(!counter_cell.error);

    // Test blinker setup
    let blinker1 = grid.get_cell(1, 0).unwrap();
    assert_eq!(blinker1.raw, "= A0 % 2");
    assert!(blinker1.is_formula);

    let blinker2 = grid.get_cell(1, 1).unwrap();
    assert_eq!(blinker2.raw, "= (A0 + 1) % 2");
    assert!(blinker2.is_formula);

    // Test accumulator setup
    let acc1 = grid.get_cell(2, 0).unwrap();
    assert_eq!(acc1.raw, "10");
    assert!(!acc1.is_formula);

    let acc2 = grid.get_cell(2, 1).unwrap();
    assert_eq!(acc2.raw, "20");
    assert!(!acc2.is_formula);

    let acc_sum = grid.get_cell(2, 2).unwrap();
    assert_eq!(acc_sum.raw, "= C0 + C1");
    assert!(acc_sum.is_formula);

    // Test Fibonacci setup
    let fib1 = grid.get_cell(3, 0).unwrap();
    assert_eq!(fib1.raw, "1");

    let fib2 = grid.get_cell(3, 1).unwrap();
    assert_eq!(fib2.raw, "1");

    let fib3 = grid.get_cell(3, 2).unwrap();
    assert_eq!(fib3.raw, "= D0 + D1");
    assert!(fib3.is_formula);
}

#[test]
fn test_counter_evaluation() {
    let mut grid = GridState::new();
    setup_demo_data(&mut grid);

    // Initial state - counter should be 0
    let context = build_context(&grid);
    let counter_cell = grid.get_cell(0, 0).unwrap();
    let expr = cellsheet::cell::formula_body_of(counter_cell.raw.as_str());
    let result = evaluate_formula(expr.as_str(), &context).unwrap();

    // A0 is initially 0, so A0 + 1 = 1
    assert_eq!(result, CellValue::Int(1));
}

#[test]
fn test_accumulator_evaluation() {
    let mut grid = GridState::new();
    setup_demo_data(&mut grid);

    // Set values for accumulator literals
    if let Some(cell) = grid.get_cell_mut(2, 0) {
        cell.value = CellValue::Int(10);
    }
    if let Some(cell) = grid.get_cell_mut(2, 1) {
        cell.value = CellValue::Int(20);
    }

    let context = build_context(&grid);
    let acc_sum = grid.get_cell(2, 2).unwrap();
    let expr = cellsheet::cell::formula_body_of(acc_sum.raw.as_str());
    let result = evaluate_formula(expr.as_str(), &context).unwrap();

    assert_eq!(result, CellValue::Int(30));
}

#[test]
fn test_fibonacci_evaluation() {
    let mut grid = GridState::new();
    setup_demo_data(&mut grid);

    // Set initial Fibonacci values
    if let Some(cell) = grid.get_cell_mut(3, 0) {
        cell.value = CellValue::Int(1);
    }
    if let Some(cell) = grid.get_cell_mut(3, 1) {
        cell.value = CellValue::Int(1);
    }

    let context = build_context(&grid);

    // Test D2 = D0 + D1 = 1 + 1 = 2
    let fib3 = grid.get_cell(3, 2).unwrap();
    let expr = cellsheet::cell::formula_body_of(fib3.raw.as_str());
    let result = evaluate_formula(expr.as_str(), &context).unwrap();
    assert_eq!(result, CellValue::Int(2));
}

#[test]
fn test_blinker_evaluation() {
    let mut grid = GridState::new();
    setup_demo_data(&mut grid);

    // Test with even counter value
    {
        // Set counter to even value
        if let Some(cell) = grid.get_cell_mut(0, 0) {
            cell.value = CellValue::Int(4);
        }

        let context = build_context(&grid);

        // B0 = A0 % 2 = 4 % 2 = 0
        let expr1 = grid.get_cell(1, 0).unwrap().raw.clone();
        let expr1 = cellsheet::cell::formula_body_of(expr1.as_str());
        let result1 = evaluate_formula(expr1.as_str(), &context).unwrap();
        assert_eq!(result1, CellValue::Int(0));

        // B1 = (A0 + 1) % 2 = 5 % 2 = 1
        let expr2 = grid.get_cell(1, 1).unwrap().raw.clone();
        let expr2 = cellsheet::cell::formula_body_of(expr2.as_str());
        let result2 = evaluate_formula(expr2.as_str(), &context).unwrap();
        assert_eq!(result2, CellValue::Int(1));
    }

    // Test with odd counter value
    {
        // Set counter to odd value
        if let Some(cell) = grid.get_cell_mut(0, 0) {
            cell.value = CellValue::Int(5);
        }
        let context = build_context(&grid);

        // B0 = A0 % 2 = 5 % 2 = 1
        let expr1 = grid.get_cell(1, 0).unwrap().raw.clone();
        let expr1 = cellsheet::cell::formula_body_of(expr1.as_str());
        let result1_odd = evaluate_formula(expr1.as_str(), &context).unwrap();
        assert_eq!(result1_odd, CellValue::Int(1));

        // B1 = (A0 + 1) % 2 = 6 % 2 = 0
        let expr2 = grid.get_cell(1, 1).unwrap().raw.clone();
        let expr2 = cellsheet::cell::formula_body_of(expr2.as_str());
        let result2_odd = evaluate_formula(expr2.as_str(), &context).unwrap();
        assert_eq!(result2_odd, CellValue::Int(0));
    }
}

#[test]
fn test_all_digits_display() {
    let mut grid = GridState::new();
    setup_demo_data(&mut grid);

    // Test that digits 0-9 are set up correctly
    for i in 0..10 {
        let col = i % 5;
        let row = 5 + (i / 5);
        let cell = grid.get_cell(col, row).unwrap();
        assert_eq!(cell.raw, i.to_string());
        assert!(!cell.is_formula);
    }
}
