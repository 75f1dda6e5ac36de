use snowglobe::grid::BitGrid;
use snowglobe::grid::Space;
use snowglobe::movetree::MoveTree;

#[test]
fn space_reports_its_size() {
    let s = Space::new(3, 4, '_');
    assert_eq!(s.width, 3);
    assert_eq!(s.height, 4);
    assert_eq!(s.character, Some('_'));
    assert_eq!(s.size(), 12);
}

#[test]
fn grid_zero_is_empty() {
    assert_eq!(BitGrid::zero().bits, 0);
}

#[test]
fn grid_parse_blank_board() {
    let pos = "___\n___\n___\n";
    let (blanks, space) = BitGrid::parse('_', pos).unwrap();
    assert_eq!(blanks.bits, 0x1ff);
    assert_eq!(space.width, 3);
    assert_eq!(space.height, 3);
    assert_eq!(space.character, Some('_'));
}

#[test]
fn grid_parse_marks_only_the_wanted_character() {
    let pos = "x._\n.x.\n__x\n";
    let (xs, space) = BitGrid::parse('x', pos).unwrap();
    assert_eq!(xs.bits, (1 << 0) | (1 << 4) | (1 << 8));
    assert_eq!(space.width, 3);
    assert_eq!(space.height, 3);
}

#[test]
fn grid_parse_handles_crlf_lines() {
    let pos = "ab\r\ncd\r\n";
    let (grid, space) = BitGrid::parse('c', pos).unwrap();
    assert_eq!(grid.bits, 1 << 2);
    assert_eq!(space.width, 2);
    assert_eq!(space.height, 2);
}

#[test]
fn grid_parse_rejects_ragged_rows() {
    assert!(BitGrid::parse('_', "___\n__\n").is_none());
}

#[test]
fn grid_parse_without_trailing_newline() {
    let (grid, space) = BitGrid::parse('b', "ab\nba").unwrap();
    assert_eq!(grid.bits, (1 << 1) | (1 << 2));
    assert_eq!(space.width, 2);
    assert_eq!(space.height, 2);
}

#[test]
fn grid_parse_empty_text() {
    let (grid, space) = BitGrid::parse('_', "").unwrap();
    assert_eq!(grid.bits, 0);
    assert_eq!(space.width, 0);
    assert_eq!(space.height, 0);
}

#[test]
fn grid_cell_coordinates() {
    let s = Space::new(3, 3, '_');
    // the mask value itself, split by the width, as the scheme defines it
    let g = BitGrid { bits: 1 << 2 };
    assert_eq!(g.x(&s), ((1u64 << 2) % 3) as u8);
    assert_eq!(g.y(&s), ((1u64 << 2) / 3) as u8);
    let g0 = BitGrid { bits: 1 };
    assert_eq!(g0.x(&s), 1);
    assert_eq!(g0.y(&s), 0);
}

#[test]
fn move_tree_leaf() {
    let t = MoveTree::from_json_str("{\"board\": \"___ ___ ___\"}").unwrap();
    assert_eq!(t.board, "___ ___ ___");
    assert_eq!(t.children.len(), 0);
}

#[test]
fn move_tree_with_children() {
    let text = "{\"board\": \"root\", \"children\": [\
        {\"board\": \"left\", \"children\": []},\
        {\"board\": \"right\", \"children\": [{\"board\": \"deep\"}]}\
    ]}";
    let t = MoveTree::from_json_str(text).unwrap();
    assert_eq!(t.board, "root");
    assert_eq!(t.children.len(), 2);
    assert_eq!(t.children[0].board, "left");
    assert_eq!(t.children[0].children.len(), 0);
    assert_eq!(t.children[1].board, "right");
    assert_eq!(t.children[1].children.len(), 1);
    assert_eq!(t.children[1].children[0].board, "deep");
}

#[test]
fn move_tree_rejects_bad_shapes() {
    // not JSON at all
    assert!(MoveTree::from_json_str("{").is_none());
    // no board member
    assert!(MoveTree::from_json_str("{\"children\": []}").is_none());
    // board is not a string
    assert!(MoveTree::from_json_str("{\"board\": 3}").is_none());
    // children is not an array
    assert!(MoveTree::from_json_str("{\"board\": \"b\", \"children\": 0}").is_none());
    // one bad child rejects the whole tree
    assert!(
        MoveTree::from_json_str("{\"board\": \"b\", \"children\": [{\"leaves\": 1}]}").is_none()
    );
    // not an object
    assert!(MoveTree::from_json_str("[1, 2]").is_none());
}
