use papergrid::borders::{BorderError, Borders};

#[test]
fn split_lines_demand_the_right_counts() {
    let mut borders = Borders::new(2, 2);

    assert!(matches!(
        borders.set_horizontal(5, vec!['-', '-'], &vec![' ']),
        Err(BorderError::WrongRowIndex)
    ));
    assert!(matches!(
        borders.set_horizontal(0, vec!['-'], &vec![' ']),
        Err(BorderError::NotEnoughLineSymbols)
    ));
    assert!(matches!(
        borders.set_horizontal(0, vec!['-', '-'], &vec![]),
        Err(BorderError::NotEnoughIntersections)
    ));
    assert!(borders.set_horizontal(0, vec!['-', '-'], &vec![' ']).is_ok());
    assert!(matches!(
        borders.set_vertical(0, vec!['|'], &vec![' ', ' ']),
        Err(BorderError::NotEnoughLineSymbols)
    ));
    assert!(borders.set_vertical(0, vec!['|', '|'], &vec![' ', ' ']).is_ok());
}

#[test]
fn styling_demands_an_existing_split_line() {
    let mut borders = Borders::new(2, 2);

    assert!(matches!(
        borders.set_row_symbol(0, 0, 'x'),
        Err(BorderError::WrongRowIndex)
    ));
    assert!(matches!(
        borders.set_column_symbol(0, 0, 'x'),
        Err(BorderError::WrongColumnIndex)
    ));
    assert!(borders.set_horizontal(0, vec!['-', '-'], &vec![' ']).is_ok());
    assert!(matches!(
        borders.set_intersection(0, 0, '+'),
        Err(BorderError::WrongColumnIndex)
    ));
    assert!(borders.set_vertical(0, vec!['|', '|'], &vec![' ', ' ']).is_ok());
    assert!(borders.set_intersection(0, 0, '+').is_ok());
    assert!(borders.set_row_symbol(0, 1, '=').is_ok());
    assert!(matches!(
        borders.set_row_symbol(1, 0, 'x'),
        Err(BorderError::WrongRowIndex)
    ));
}
