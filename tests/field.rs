use falling_figure::{parse_into_field, Field, Pixel};

#[test]
fn test_tick() {
    let mut field = parse_into_field(
        r"4 4
        .pp.
        pppp
        .pp.
        ....",
    )
    .unwrap();

    field.tick();

    assert_eq!(
        field.to_string(),
        r"....
.pp.
pppp
.pp.
"
    )
}

#[test]
fn tick_reports_movement() {
    let mut field = parse_into_field("3 2\np.\n..\n..").unwrap();
    assert!(field.tick());
    assert_eq!(field.figure, vec![Pixel { x: 0, y: 1 }]);
    assert!(field.tick());
    assert_eq!(field.to_string(), "..\n..\np.\n");
    assert!(!field.tick());
    assert_eq!(field.figure, vec![Pixel { x: 0, y: 2 }]);
}

#[test]
fn tick_on_bottom_row_is_terminal() {
    let mut field = parse_into_field("2 3\n...\npp.").unwrap();
    let before = field.to_string();
    assert!(!field.tick());
    assert_eq!(field.to_string(), before);
    assert_eq!(field.figure, vec![Pixel { x: 0, y: 1 }, Pixel { x: 1, y: 1 }]);
}

#[test]
fn tick_above_landscape_is_terminal() {
    let mut field = parse_into_field("3 3\n.pp\n..#\n...").unwrap();
    assert!(!field.tick());
    assert_eq!(field.to_string(), ".pp\n..#\n...\n");
}

#[test]
fn tick_is_all_or_nothing() {
    // one cell is free to fall, the other is blocked: nothing moves
    let mut field = parse_into_field("3 2\npp\n.#\n..").unwrap();
    assert!(!field.tick());
    assert_eq!(field.figure, vec![Pixel { x: 0, y: 0 }, Pixel { x: 1, y: 0 }]);
}

#[test]
fn tick_without_figure_moves_trivially() {
    let mut field = parse_into_field("2 2\n..\n##").unwrap();
    assert!(field.tick());
    assert_eq!(field.to_string(), "..\n##\n");
}

#[test]
fn render_twice_is_identical() {
    let field = parse_into_field("3 3\n.p.\n...\n#.#").unwrap();
    let first = field.to_string();
    let second = field.to_string();
    assert_eq!(first, second);
    assert_eq!(first, ".p.\n...\n#.#\n");
}

#[test]
fn new_field_is_empty() {
    let field = Field::new(3, 2);
    assert_eq!(field.width, 3);
    assert_eq!(field.height, 2);
    assert!(field.landscape.is_empty());
    assert!(field.figure.is_empty());
    assert_eq!(field.to_string(), "...\n...\n");
    assert_eq!(Field::new(0, 0).to_string(), "");
}

#[test]
fn figure_takes_precedence_over_landscape() {
    let mut field = Field::new(2, 1);
    field.landscape.push(Pixel { x: 1, y: 0 });
    field.figure.push(Pixel { x: 1, y: 0 });
    assert_eq!(field.get(1, 0), 'p');
    assert_eq!(field.get(0, 0), '.');
    assert_eq!(field.to_string(), ".p\n");
}

#[test]
fn get_outside_the_grid_is_empty() {
    let field = parse_into_field("1 1\np").unwrap();
    assert_eq!(field.get(5, 0), '.');
    assert_eq!(field.get(0, 5), '.');
}
