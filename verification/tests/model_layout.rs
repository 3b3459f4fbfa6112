use grid_layout::{Attrs, ModelLayout};

#[test]
fn test_count_lines() {
    let lines: Vec<Vec<(Option<Attrs>, Vec<char>)>> = vec![vec![(None, vec!['a'; 5])]];

    let rows = ModelLayout::count_lines(&lines, 4);
    assert_eq!(2, rows);
}

#[test]
fn test_resize() {
    let lines: Vec<Vec<(Option<Attrs>, Vec<char>)>> =
        vec![vec![(None, vec!['a'; 5])]; ModelLayout::ROWS_STEP];
    let mut model = ModelLayout::new(5);

    model.layout(&lines);
    let (cols, rows) = model.size();
    assert_eq!(5, cols);
    assert_eq!(ModelLayout::ROWS_STEP, rows);

    model.layout_append(&lines);
    let (cols, rows) = model.size();
    assert_eq!(5, cols);
    assert_eq!(ModelLayout::ROWS_STEP * 2, rows);
    assert_eq!(ModelLayout::ROWS_STEP * 2, model.model.rows);
}

#[test]
fn test_cols_filled() {
    let lines: Vec<Vec<(Option<Attrs>, Vec<char>)>> = vec![vec![(None, vec!['a'; 3])]; 1];
    let mut model = ModelLayout::new(5);

    model.layout(&lines);
    let (cols, _) = model.size();
    assert_eq!(4, cols); // size is 3 and 4 - is with cursor position

    let lines: Vec<Vec<(Option<Attrs>, Vec<char>)>> = vec![vec![(None, vec!['a'; 2])]; 1];

    model.layout_append(&lines);
    let (cols, _) = model.size();
    assert_eq!(3, cols);
}
