use grid_layout::{Attrs, Cell, Color, Line, ModelLayout, UiModel};

type Lines = Vec<Vec<(Option<Attrs>, Vec<char>)>>;

fn plain(text: &str) -> Vec<(Option<Attrs>, Vec<char>)> {
    vec![(None, text.chars().collect())]
}

fn blank() -> Cell {
    Cell { ch: ' ', attrs: None, double_width: false }
}

fn cell(ch: char) -> Cell {
    Cell { ch, attrs: None, double_width: false }
}

fn row(model: &ModelLayout, r: usize) -> Vec<Cell> {
    model.model.model()[r].line.clone()
}

fn row_text(model: &ModelLayout, r: usize) -> String {
    row(model, r).iter().map(|c| c.ch).collect()
}

fn bold() -> Attrs {
    let mut attrs = Attrs::new();
    attrs.bold = true;
    attrs.foreground = Some(Color { red: 255, green: 0, blue: 0 });
    attrs
}

#[test]
fn fresh_engine_is_blank() {
    let model = ModelLayout::new(5);
    assert_eq!((1, 0), model.size());
    assert_eq!(10, model.model.rows);
    assert_eq!(5, model.model.columns);
    assert_eq!((0, 0), model.model.get_cursor());
    for r in 0..10 {
        assert_eq!(vec![blank(); 5], row(&model, r));
    }
}

#[test]
fn count_lines_uses_columns_plus_one() {
    let five: Lines = vec![plain("aaaaa")];
    assert_eq!(1, ModelLayout::count_lines(&five, 5));
    let six: Lines = vec![plain("aaaaaa")];
    assert_eq!(2, ModelLayout::count_lines(&six, 5));
    let eleven: Lines = vec![plain("aaaaaaaaaaa")];
    assert_eq!(2, ModelLayout::count_lines(&eleven, 5));
    let twelve: Lines = vec![plain("aaaaaaaaaaaa")];
    assert_eq!(3, ModelLayout::count_lines(&twelve, 5));
}

#[test]
fn count_lines_counts_every_line() {
    let lines: Lines = vec![plain(""), vec![], plain("abc"), plain("abcdefgh")];
    assert_eq!(1 + 1 + 1 + 2, ModelLayout::count_lines(&lines, 5));
    let none: Lines = vec![];
    assert_eq!(0, ModelLayout::count_lines(&none, 5));
}

#[test]
fn count_lines_sums_the_spans_of_a_line() {
    let lines: Lines = vec![vec![
        (None, vec!['a', 'b', 'c']),
        (Some(bold()), vec!['d', 'e']),
        (None, vec!['f']),
    ]];
    assert_eq!(2, ModelLayout::count_lines(&lines, 5));
    assert_eq!(7, ModelLayout::count_lines(&lines, 0));
}

#[test]
fn estimate_is_the_rows_written() {
    let lines: Lines = vec![plain("abcdef"), plain("gh"), plain("")];
    let mut model = ModelLayout::new(5);
    assert!(model.can_layout(0, &lines));
    model.layout(&lines);
    assert_eq!(4, ModelLayout::count_lines(&lines, 5));
    assert_eq!(4, model.size().1);
    assert_eq!("abcde", row_text(&model, 0));
    assert_eq!("f    ", row_text(&model, 1));
    assert_eq!("gh   ", row_text(&model, 2));
    assert_eq!("     ", row_text(&model, 3));
}

#[test]
fn estimate_falls_short_on_a_long_line() {
    let lines: Lines = vec![plain("abcdefghijk")];
    let mut model = ModelLayout::new(5);
    assert_eq!(2, ModelLayout::count_lines(&lines, 5));
    assert!(model.can_layout(0, &lines));
    model.layout(&lines);
    assert_eq!(2, model.size().1);
    assert_eq!("abcde", row_text(&model, 0));
    assert_eq!("fghij", row_text(&model, 1));
    assert_eq!("k    ", row_text(&model, 2));
}

#[test]
fn layout_wraps_at_the_last_column() {
    let lines: Lines = vec![plain("abcdefg")];
    let mut model = ModelLayout::new(5);
    model.layout(&lines);
    assert_eq!(vec![cell('a'), cell('b'), cell('c'), cell('d'), cell('e')], row(&model, 0));
    assert_eq!(vec![cell('f'), cell('g'), blank(), blank(), blank()], row(&model, 1));
    assert_eq!((1, 2), model.model.get_cursor());
    assert_eq!((5, 2), model.size());
}

#[test]
fn layout_keeps_the_attributes_of_each_span() {
    let lines: Lines = vec![vec![(Some(bold()), vec!['a', 'b']), (None, vec!['c'])]];
    let mut model = ModelLayout::new(4);
    model.layout(&lines);
    let styled = |ch| Cell { ch, attrs: Some(bold()), double_width: false };
    assert_eq!(vec![styled('a'), styled('b'), cell('c'), blank()], row(&model, 0));
}

#[test]
fn each_line_starts_on_a_fresh_row() {
    let lines: Lines = vec![plain("ab"), plain("c"), plain("defgh"), plain("i")];
    let mut model = ModelLayout::new(5);
    model.layout(&lines);
    assert_eq!("ab   ", row_text(&model, 0));
    assert_eq!("c    ", row_text(&model, 1));
    assert_eq!("defgh", row_text(&model, 2));
    assert_eq!("i    ", row_text(&model, 3));
    assert_eq!((5, 4), model.size());
}

#[test]
fn layout_clears_what_a_longer_line_left() {
    let mut model = ModelLayout::new(5);
    model.layout(&vec![plain("abcd")]);
    assert_eq!("abcd ", row_text(&model, 0));
    model.layout(&vec![plain("xy")]);
    assert_eq!("xy   ", row_text(&model, 0));
    model.layout(&vec![vec![]]);
    assert_eq!("     ", row_text(&model, 0));
}

#[test]
fn layout_of_an_empty_line_fills_one_row() {
    let mut model = ModelLayout::new(5);
    model.layout(&vec![plain("")]);
    assert_eq!((1, 1), model.size());
    assert_eq!((0, 0), model.model.get_cursor());
}

#[test]
fn layout_of_no_line_fills_no_row() {
    let mut model = ModelLayout::new(5);
    model.layout(&vec![plain("abc"), plain("de")]);
    assert_eq!((3, 2), model.size());
    let none: Lines = vec![];
    model.layout(&none);
    assert_eq!(0, model.size().1);
    assert_eq!(3, model.cols_filled);
}

#[test]
fn size_after_one_line_is_its_length_and_the_cursor() {
    let mut model = ModelLayout::new(5);
    model.layout(&vec![plain("abc")]);
    assert_eq!((4, 1), model.size());
    let mut full = ModelLayout::new(5);
    full.layout(&vec![plain("abcde")]);
    assert_eq!((5, 1), full.size());
    assert_eq!((0, 4), full.model.get_cursor());
}

#[test]
fn append_adds_rows_and_keeps_what_was_there() {
    let mut model = ModelLayout::new(5);
    model.layout(&vec![plain("abc"), plain("defghi")]);
    let before: Vec<Vec<Cell>> = (0..3).map(|r| row(&model, r)).collect();
    assert_eq!(3, model.size().1);

    let more: Lines = vec![plain("xy"), plain("z")];
    assert!(model.can_layout(model.rows_filled, &more));
    model.layout_append(&more);
    assert_eq!(5, model.size().1);
    for r in 0..3 {
        assert_eq!(before[r], row(&model, r));
    }
    assert_eq!("xy   ", row_text(&model, 3));
    assert_eq!("z    ", row_text(&model, 4));
}

#[test]
fn width_is_reset_by_a_single_row_and_grows_otherwise() {
    let mut model = ModelLayout::new(8);
    model.layout(&vec![plain("abcdef")]);
    assert_eq!(6, model.cols_filled);
    model.layout(&vec![plain("ab")]);
    assert_eq!(2, model.cols_filled);

    model.layout(&vec![plain("abcd"), plain("e")]);
    assert_eq!(4, model.cols_filled);
    model.layout(&vec![plain("a"), plain("b")]);
    assert_eq!(4, model.cols_filled);
    model.layout(&vec![plain("abcdefg"), plain("b")]);
    assert_eq!(7, model.cols_filled);
    model.layout_append(&vec![plain("c")]);
    assert_eq!(7, model.cols_filled);
    assert_eq!((7, 3), model.size());
}

#[test]
fn grid_grows_in_steps() {
    let eleven: Lines = vec![plain("a"); 11];
    let mut model = ModelLayout::new(5);
    assert!(model.can_layout(0, &eleven));
    model.layout(&eleven);
    assert_eq!(20, model.model.rows);
    assert_eq!(20, model.model.model().len());
    assert_eq!(11, model.size().1);

    let twenty_two: Lines = vec![plain("a"); 22];
    assert!(model.can_layout(0, &twenty_two));
    model.layout(&twenty_two);
    assert_eq!(30, model.model.rows);
    assert_eq!(22, model.size().1);
    assert_eq!("a    ", row_text(&model, 21));
    assert_eq!("     ", row_text(&model, 22));
}

#[test]
fn growth_that_falls_short_is_not_accepted() {
    let model = ModelLayout::new(5);
    let twenty: Lines = vec![plain("a"); 20];
    assert!(model.can_layout(0, &twenty));
    let twenty_one: Lines = vec![plain("a"); 21];
    assert!(!model.can_layout(0, &twenty_one));
    let most: Lines = vec![plain("a"); 110];
    assert!(model.can_layout(0, &most));
    let too_many: Lines = vec![plain("a"); 111];
    assert!(!model.can_layout(0, &too_many));
}

#[test]
fn rows_written_past_the_grid_are_not_accepted() {
    let model = ModelLayout::new(2);
    // 30 characters take 15 rows of 2, and the estimator counts 11
    let long: Lines = vec![vec![(None, vec!['a'; 30])]];
    assert_eq!(11, ModelLayout::count_lines(&long, 2));
    assert!(model.can_layout(0, &long));
    // 42 characters take 21 rows, the estimator counts 15: the grid grows to 20
    let longer: Lines = vec![vec![(None, vec!['a'; 42])]];
    assert_eq!(15, ModelLayout::count_lines(&longer, 2));
    assert!(!model.can_layout(0, &longer));
    // nothing fits from a row behind the grid on
    assert!(model.can_layout(9, &vec![plain("a")]));
    assert!(!model.can_layout(usize::MAX, &vec![plain("a")]));
}

#[test]
fn check_model_size_keeps_rows_and_cursor() {
    let mut model = ModelLayout::new(4);
    model.layout(&vec![plain("abcdef"), plain("gh")]);
    model.set_cursor(3);
    let before: Vec<Vec<Cell>> = (0..3).map(|r| row(&model, r)).collect();

    model.check_model_size(10);
    assert_eq!(10, model.model.rows);

    model.check_model_size(15);
    assert_eq!(20, model.model.rows);
    assert_eq!(4, model.model.columns);
    assert_eq!((2, 3), model.model.get_cursor());
    assert_eq!((4, 3), model.size());
    for r in 0..3 {
        assert_eq!(before[r], row(&model, r));
    }
    for r in 3..20 {
        assert_eq!(vec![blank(); 4], row(&model, r));
    }

    model.check_model_size(7);
    assert_eq!(20, model.model.rows);
}

#[test]
fn check_model_size_of_an_engine_without_rows() {
    let mut model = ModelLayout::new(3);
    model.check_model_size(33);
    assert_eq!(40, model.model.rows);
    assert_eq!((1, 0), model.size());
    assert_eq!(vec![blank(); 3], row(&model, 39));
}

#[test]
fn set_cursor_goes_to_the_last_filled_row() {
    let mut model = ModelLayout::new(5);
    model.set_cursor(2);
    assert_eq!((0, 2), model.model.get_cursor());
    assert_eq!((3, 0), model.size());

    model.layout(&vec![plain("a"), plain("b"), plain("c")]);
    model.set_cursor(4);
    assert_eq!((2, 4), model.model.get_cursor());
    assert_eq!((5, 3), model.size());
    model.set_cursor(5);
    assert_eq!((2, 4), model.model.get_cursor());
}

#[test]
fn insert_writes_one_character_under_the_cursor() {
    let mut model = ModelLayout::new(5);
    model.layout(&vec![plain("ab")]);
    assert_eq!((0, 2), model.model.get_cursor());

    model.insert("", false);
    assert_eq!("ab   ", row_text(&model, 0));
    model.insert("x", true);
    assert_eq!("ab   ", row_text(&model, 0));
    assert_eq!((0, 2), model.model.get_cursor());

    model.insert("xyz", false);
    assert_eq!("abx  ", row_text(&model, 0));
    assert_eq!((0, 3), model.model.get_cursor());
    assert_eq!((4, 1), model.size());
    assert_eq!(2, model.cols_filled);
}

#[test]
fn grid_put_stays_in_the_last_column() {
    let mut grid = UiModel::new(2, 3);
    grid.set_cursor(1, 1);
    grid.put('a', false, None);
    assert_eq!((1, 2), grid.get_cursor());
    let attrs = bold();
    grid.put('b', true, Some(&attrs));
    assert_eq!((1, 2), grid.get_cursor());
    grid.put('c', false, None);
    assert_eq!(
        vec![blank(), cell('a'), cell('c')],
        grid.model()[1].line,
    );
    grid.set_cursor(0, 0);
    grid.put('d', true, Some(&attrs));
    assert_eq!(Cell { ch: 'd', attrs: Some(bold()), double_width: true }, grid.model()[0].line[0]);
}

#[test]
fn grid_set_cursor_ignores_what_is_outside() {
    let mut grid = UiModel::new(2, 3);
    grid.set_cursor(1, 2);
    assert_eq!((1, 2), grid.get_cursor());
    grid.set_cursor(2, 0);
    assert_eq!((1, 2), grid.get_cursor());
    grid.set_cursor(0, 3);
    assert_eq!((1, 2), grid.get_cursor());
}

#[test]
fn grid_copy_rows_and_clear_line() {
    let mut source = UiModel::new(3, 2);
    for (r, ch) in ['a', 'b', 'c'].iter().enumerate() {
        source.set_cursor(r, 0);
        source.put(*ch, false, None);
        source.put(*ch, false, None);
    }
    let mut target = UiModel::new(4, 3);
    target.set_cursor(3, 2);
    source.copy_rows(&mut target, 1);
    assert_eq!(vec![cell('a'), cell('a'), blank()], target.model()[0].line);
    assert_eq!(vec![cell('b'), cell('b'), blank()], target.model()[1].line);
    assert_eq!(vec![blank(); 3], target.model()[2].line);
    assert_eq!((3, 2), target.get_cursor());

    target.clear_line(1, 1, 2);
    assert_eq!(vec![cell('b'), blank(), blank()], target.model()[1].line);
    target.clear_line(0, 2, 1);
    assert_eq!(vec![cell('a'), cell('a'), blank()], target.model()[0].line);
}

#[test]
fn line_clear_and_copy_to() {
    let mut line = Line::new(4);
    assert_eq!(vec![blank(); 4], line.line);
    let mut full = Line::new(4);
    for c in full.line.iter_mut() {
        c.ch = 'x';
    }
    full.copy_to(&mut line, 1, 2);
    assert_eq!(vec![blank(), cell('x'), cell('x'), blank()], line.line);
    full.clear(0, 1);
    assert_eq!(vec![blank(), blank(), cell('x'), cell('x')], full.line);
    let mut one = cell('q');
    one.clear();
    assert_eq!(Cell::new_empty(), one);
}
