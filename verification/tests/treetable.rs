use treetable::Command;
use treetable::Format;
use treetable::ParseError;
use treetable::Tree;
use treetable::TreeRowIter;
use treetable::TreeTableIter;
use treetable::Viewport;
use treetable::column_widths;
use treetable::fit_columns;
use treetable::parse_tree;
use treetable::visible_cells;

fn leaf(s: &str) -> Tree {
    Tree { label: s.to_string(), children: vec![] }
}

fn node(s: &str, children: Vec<Tree>) -> Tree {
    Tree { label: s.to_string(), children }
}

/// The example tree (root (a 1 2) (b 3)).
fn example_tree() -> Tree {
    node(
        "root",
        vec![node("a", vec![leaf("1"), leaf("2")]), node("b", vec![leaf("3")])],
    )
}

fn collect_row(mut row: TreeRowIter) -> Vec<Option<String>> {
    let mut cells = vec![];
    while let Some(cell) = row.next() {
        cells.push(cell.map(|s| s.to_string()));
    }
    cells
}

fn collect_rows(tree: &Tree) -> Vec<Vec<Option<String>>> {
    let mut rows = vec![];
    let mut it = TreeTableIter::new(tree);
    while let Some(row) = it.next() {
        rows.push(collect_row(row));
    }
    rows
}

fn tree_eq(a: &Tree, b: &Tree) -> bool {
    a.label == b.label
        && a.children.len() == b.children.len()
        && a.children.iter().zip(b.children.iter()).all(|(x, y)| tree_eq(x, y))
}

#[test]
fn size_single_leaf() {
    assert_eq!(leaf("x").size(), (1, 1));
}

#[test]
fn size_example_tree() {
    let t = example_tree();
    assert_eq!(t.size(), (3, 3));
}

#[test]
fn size_skewed_chain() {
    let t = node("a", vec![node("b", vec![leaf("c")])]);
    assert_eq!(t.size(), (3, 1));
}

#[test]
fn size_balanced() {
    let t = node(
        "r",
        vec![node("x", vec![leaf("1"), leaf("2")]), node("y", vec![leaf("3"), leaf("4")])],
    );
    assert_eq!(t.size(), (3, 4));
}

#[test]
fn single_leaf_row() {
    let rows = collect_rows(&leaf("x"));
    assert_eq!(rows, vec![vec![Some("x".to_string())]]);
}

#[test]
fn example_tree_rows() {
    let rows = collect_rows(&example_tree());
    assert_eq!(rows.len(), 3);
    assert_eq!(
        rows[0],
        vec![Some("root".to_string()), Some("a".to_string()), Some("1".to_string())]
    );
    assert_eq!(rows[1], vec![None, None, Some("2".to_string())]);
    assert_eq!(rows[2], vec![None, Some("b".to_string()), Some("3".to_string())]);
}

#[test]
fn rows_count_equals_height() {
    for t in [
        leaf("x"),
        example_tree(),
        node("a", vec![node("b", vec![leaf("c")])]),
        node("r", vec![leaf("1"), leaf("2"), leaf("3")]),
    ] {
        let (_, h) = t.size();
        assert_eq!(collect_rows(&t).len(), h);
    }
}

#[test]
fn rows_fit_in_grid() {
    for t in [leaf("x"), example_tree(), node("a", vec![node("b", vec![leaf("c")])])] {
        let (w, _) = t.size();
        for row in collect_rows(&t) {
            assert!(row.len() <= w);
            let blanks = row.iter().take_while(|c| c.is_none()).count();
            assert!(blanks < w);
            assert!(row.iter().any(|c| c.is_some()));
        }
    }
}

fn all_labels(t: &Tree, out: &mut Vec<String>) {
    out.push(t.label.clone());
    for c in &t.children {
        all_labels(c, out);
    }
}

#[test]
fn every_label_drawn_exactly_once() {
    for t in [
        leaf("x"),
        example_tree(),
        node("a", vec![node("b", vec![leaf("c")])]),
        node(
            "r",
            vec![node("x", vec![leaf("1"), leaf("2")]), leaf("x"), node("x", vec![leaf("1")])],
        ),
    ] {
        let mut expected = vec![];
        all_labels(&t, &mut expected);
        expected.sort();
        let mut drawn: Vec<String> =
            collect_rows(&t).into_iter().flatten().flatten().collect();
        drawn.sort();
        assert_eq!(drawn, expected);
    }
}

#[test]
fn row_is_restartable() {
    let t = example_tree();
    let first = collect_row(TreeRowIter::new(&t, 1));
    let again = collect_row(TreeRowIter::new(&t, 1));
    assert_eq!(first, again);
    assert_eq!(first, vec![None, None, Some("2".to_string())]);
}

#[test]
fn deep_nesting_rows() {
    let t = parse_tree("(a (b (c d) e))").unwrap();
    assert_eq!(t.size(), (4, 2));
    let rows = collect_rows(&t);
    assert_eq!(
        rows[0],
        vec![
            Some("a".to_string()),
            Some("b".to_string()),
            Some("c".to_string()),
            Some("d".to_string())
        ]
    );
    assert_eq!(rows[1], vec![None, None, Some("e".to_string())]);
}

#[test]
fn column_widths_example() {
    let t = example_tree();
    assert_eq!(column_widths(&t), vec![4, 1, 1]);
}

#[test]
fn column_widths_single_leaf() {
    assert_eq!(column_widths(&leaf("hello")), vec![5]);
}

#[test]
fn column_widths_wide_characters() {
    // two CJK characters occupy four terminal cells, not two chars or six
    // bytes
    assert_eq!(column_widths(&leaf("\u{65e5}\u{672c}")), vec![4]);
}

#[test]
fn column_widths_monotone() {
    let t1 = example_tree();
    let t2 = node(
        "root",
        vec![node("a", vec![leaf("1"), leaf("2")]), node("bbbb", vec![leaf("3")])],
    );
    let w1 = column_widths(&t1);
    let w2 = column_widths(&t2);
    assert_eq!(w2, vec![4, 4, 1]);
    for (a, b) in w1.iter().zip(w2.iter()) {
        assert!(a <= b);
    }
}

#[test]
fn fit_columns_greedy() {
    let widths = vec![4, 1, 1];
    assert_eq!(fit_columns(&widths, 0, 10), 3);
    assert_eq!(fit_columns(&widths, 0, 6), 3);
    assert_eq!(fit_columns(&widths, 0, 5), 2);
    assert_eq!(fit_columns(&widths, 0, 4), 1);
    assert_eq!(fit_columns(&widths, 0, 3), 0);
    assert_eq!(fit_columns(&widths, 1, 2), 2);
    assert_eq!(fit_columns(&widths, 3, 10), 0);
    assert_eq!(fit_columns(&vec![4], 0, 4), 1);
    assert_eq!(fit_columns(&vec![], 0, 10), 0);
}

#[test]
fn visible_cells_window() {
    let t = example_tree();
    // columns 1..3 of all three rows
    assert_eq!(
        visible_cells(&t, 1, 0, 2, 3),
        vec![
            vec!["a".to_string(), "1".to_string()],
            vec!["".to_string(), "2".to_string()],
            vec!["b".to_string(), "3".to_string()],
        ]
    );
    // rows run out at the grid boundary; short rows pad with blanks
    assert_eq!(
        visible_cells(&t, 2, 2, 2, 10),
        vec![vec!["3".to_string(), "".to_string()]]
    );
    // a window past the last row is empty
    assert_eq!(visible_cells(&t, 0, 3, 3, 2), Vec::<Vec<String>>::new());
}

#[test]
fn navigation_page_right_clamps() {
    // grid of width 5 and height 1: ten page-right commands stop at column 4
    let mut v = Viewport::new();
    for _ in 0..10 {
        v.step(Command::RightLarge, 5, 1);
    }
    assert_eq!((v.col, v.row), (4, 0));
}

#[test]
fn navigation_origin_absorbs_left_up() {
    let mut v = Viewport::new();
    for c in [Command::LeftSmall, Command::UpSmall, Command::LeftLarge, Command::UpLarge] {
        for _ in 0..3 {
            v.step(c, 7, 9);
        }
    }
    assert_eq!((v.col, v.row), (0, 0));
}

#[test]
fn navigation_converges_to_far_corner() {
    let mut v = Viewport { col: 2, row: 1 };
    for _ in 0..10 {
        v.step(Command::RightSmall, 5, 4);
        v.step(Command::DownSmall, 5, 4);
    }
    assert_eq!((v.col, v.row), (4, 3));
    v.step(Command::RightLarge, 5, 4);
    v.step(Command::DownLarge, 5, 4);
    assert_eq!((v.col, v.row), (4, 3));
}

#[test]
fn navigation_small_steps() {
    let mut v = Viewport::new();
    v.step(Command::RightSmall, 5, 4);
    v.step(Command::DownSmall, 5, 4);
    assert_eq!((v.col, v.row), (1, 1));
    v.step(Command::LeftSmall, 5, 4);
    v.step(Command::UpSmall, 5, 4);
    assert_eq!((v.col, v.row), (0, 0));
}

#[test]
fn format_from_str() {
    assert_eq!(Format::from_str("sexp").unwrap(), Format::Sexp);
    assert_eq!(Format::from_str("SEXP").unwrap(), Format::Sexp);
    assert_eq!(Format::from_str("Sexp").unwrap(), Format::Sexp);
    let e = Format::from_str("json").unwrap_err();
    assert_eq!(e.0, "json");
}

#[test]
fn format_default_and_name() {
    assert_eq!(Format::default(), Format::Sexp);
    assert_eq!(Format::default().name(), "Sexp");
}

#[test]
fn parse_example() {
    let t = parse_tree("(root (a 1 2) (b 3))").unwrap();
    assert!(tree_eq(&t, &example_tree()));
}

#[test]
fn parse_atoms_take_textual_form() {
    let t = parse_tree("(1 2.5 x)").unwrap();
    assert!(tree_eq(&t, &node("1", vec![leaf("2.5"), leaf("x")])));
}

#[test]
fn parse_headless_list_gets_placeholder() {
    let t = parse_tree("((a) b)").unwrap();
    assert!(tree_eq(&t, &node("<\u{b7}\u{b7}\u{b7}>", vec![node("a", vec![]), leaf("b")])));
}

#[test]
fn parse_syntax_error() {
    let e = parse_tree("(((").unwrap_err();
    assert!(matches!(e, ParseError::Syntax(_)));
}

#[test]
fn parse_empty_list_rejected() {
    assert!(matches!(parse_tree("()").unwrap_err(), ParseError::EmptyList));
    assert!(matches!(parse_tree("(a ())").unwrap_err(), ParseError::EmptyList));
}
