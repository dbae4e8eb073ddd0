use bitty_ui::a11y::{
    chrome_tab_order, expose_terminal, interactive_role, role_of, terminal_text_runs,
    validate_scene, A11yError, A11yRole, ChromeKind, ChromeNode, InteractiveNode, SceneKind,
    MAX_A11Y_TREE_NODES, MAX_ACCESSIBLE_NAME_LEN,
};
use bitty_ui::a11y_tree::{build_a11y_tree, A11yNodeKind, A11yTreeBuilder};
use bitty_ui::term_state::{Cell, Cursor, CursorPosition, Snapshot};

fn cell(glyph: char) -> Cell {
    Cell { glyph, zerowidth: Vec::new(), spacer: false }
}

fn snapshot(width: usize, rows: &[&str]) -> Snapshot {
    let mut cells = Vec::new();
    for row in rows {
        let mut count = 0;
        for glyph in row.chars() {
            cells.push(cell(glyph));
            count += 1;
        }
        while count < width {
            cells.push(cell(' '));
            count += 1;
        }
    }
    Snapshot {
        width,
        height: rows.len(),
        cells,
        cursor: Cursor { position: CursorPosition { row: 1, col: 12 }, visible: true },
        title: "shell".to_string(),
    }
}

#[test]
fn every_mapped_kind_has_a_role() {
    for kind in SceneKind::mapped() {
        assert!(role_of(kind).is_ok());
    }
    let unmapped: Vec<SceneKind> = SceneKind::all()
        .into_iter()
        .filter(|kind| role_of(*kind).is_err())
        .collect();
    assert_eq!(unmapped.len(), 1);
    assert_eq!(role_of(unmapped[0]), Err(A11yError::UnmappedSceneKind));
    assert_eq!(validate_scene(&SceneKind::mapped()), Ok(()));
    assert_eq!(
        validate_scene(&SceneKind::all()),
        Err(A11yError::UnmappedSceneKind)
    );
    assert_eq!(validate_scene(&[]), Ok(()));
}

#[test]
fn controls_take_their_role_from_their_purpose() {
    assert_eq!(interactive_role("button"), Ok(A11yRole::Button));
    assert_eq!(interactive_role("input"), Ok(A11yRole::Input));
    assert_eq!(interactive_role("slider"), Err(A11yError::UnmappedSceneKind));
    let node = InteractiveNode::new("button", "Close", true).expect("control");
    assert_eq!(node.role(), A11yRole::Button);
    assert_eq!(node.name(), "Close");
    assert!(node.is_enabled());
    assert!(node.activation_label().is_some());
    let off = InteractiveNode::new("button", "Close", false).expect("control");
    assert_eq!(off.activation_label(), None);
    let long = "n".repeat(MAX_ACCESSIBLE_NAME_LEN + 1);
    assert_eq!(
        InteractiveNode::new("button", &long, true).err(),
        Some(A11yError::NameTooLong { len: 257, cap: 256 })
    );
}

#[test]
fn runs_skip_blank_rows_and_trim_the_end() {
    let shot = snapshot(6, &["  ls", "", "a b  "]);
    let runs = terminal_text_runs(&shot);
    let got: Vec<(usize, &str)> = runs.iter().map(|run| (run.row, run.text.as_str())).collect();
    assert_eq!(got, vec![(0, "  ls"), (2, "a b")]);
}

#[test]
fn runs_keep_marks_and_drop_spacers() {
    let mut shot = snapshot(4, &["x"]);
    shot.cells[0] = Cell { glyph: 'e', zerowidth: vec!['\u{301}'], spacer: false };
    shot.cells[1] = cell('\u{4e16}');
    shot.cells[2] = Cell { glyph: ' ', zerowidth: Vec::new(), spacer: true };
    shot.cells[3] = cell('!');
    let runs = terminal_text_runs(&shot);
    assert_eq!(runs.len(), 1);
    assert_eq!(runs[0].text, "e\u{301}\u{4e16}!");
}

#[test]
fn a_short_grid_is_read_as_far_as_it_goes() {
    let mut shot = snapshot(3, &["abc", "def", "ghi"]);
    shot.cells.truncate(4);
    let runs = terminal_text_runs(&shot);
    let got: Vec<&str> = runs.iter().map(|run| run.text.as_str()).collect();
    assert_eq!(got, vec!["abc", "d"]);
    shot.width = 0;
    assert!(terminal_text_runs(&shot).is_empty());
}

#[test]
fn exposure_carries_title_and_cursor() {
    let exposure = expose_terminal(&snapshot(4, &["ok"]));
    assert_eq!(exposure.title, "shell");
    assert_eq!(exposure.runs.len(), 1);
    assert_eq!(exposure.cursor, CursorPosition { row: 1, col: 12 });
    assert!(exposure.cursor_visible);
}

#[test]
fn chrome_is_named_and_never_a_tab_stop() {
    let bar = ChromeNode::new(ChromeKind::Bar, "status", Some("main")).expect("chrome");
    assert_eq!(bar.kind(), ChromeKind::Bar);
    assert_eq!(bar.accessible_name(), "status");
    assert_eq!(bar.active_item(), Some("main"));
    assert!(!bar.is_tab_stop());
    let nodes = [bar.clone(), bar];
    assert!(chrome_tab_order(&nodes).is_empty());
    let long = "n".repeat(300);
    assert_eq!(
        ChromeNode::new(ChromeKind::Rail, &long, None).err(),
        Some(A11yError::NameTooLong { len: 300, cap: 256 })
    );
    assert_eq!(
        ChromeNode::new(ChromeKind::Rail, "rail", Some(&long)).err(),
        Some(A11yError::NameTooLong { len: 300, cap: 256 })
    );
}

#[test]
fn a_window_is_read_terminal_first() {
    let shot = snapshot(4, &["ls", "", "ok"]);
    let chrome = [ChromeNode::new(ChromeKind::TabStrip, "tabs", Some("one")).expect("chrome")];
    let scene = [SceneKind::mapped()[0]];
    let tree = build_a11y_tree(&shot, &chrome, &scene).expect("tree");
    let role = role_of(scene[0]).expect("mapped");
    let read: Vec<(A11yNodeKind, &str, Option<&str>)> = tree
        .preorder()
        .iter()
        .map(|node| (node.kind(), node.name(), node.state()))
        .collect();
    assert_eq!(
        read,
        vec![
            (A11yNodeKind::Root, "shell", None),
            (A11yNodeKind::Terminal, "shell", Some("cursor 1,12 visible")),
            (A11yNodeKind::TerminalRow, "ls", None),
            (A11yNodeKind::TerminalRow, "ok", None),
            (A11yNodeKind::Chrome(ChromeKind::TabStrip), "tabs", Some("one")),
            (A11yNodeKind::Scene(scene[0]), role.as_str(), None),
        ]
    );
    assert_eq!(tree.len(), 6);
    assert!(!tree.is_empty());
    let root = tree.get(tree.root()).expect("root");
    assert_eq!(root.role(), Some(A11yRole::Group));
    assert_eq!(root.children().len(), 3);
    let tabs = tree.get(root.children()[1]).expect("tabs");
    assert_eq!(tabs.role(), None);
}

#[test]
fn a_hidden_cursor_is_announced_hidden() {
    let mut shot = snapshot(2, &["a"]);
    shot.cursor = Cursor { position: CursorPosition { row: 0, col: 0 }, visible: false };
    let tree = build_a11y_tree(&shot, &[], &[]).expect("tree");
    assert_eq!(tree.preorder()[1].state(), Some("cursor 0,0 hidden"));
}

#[test]
fn an_unmapped_scene_or_long_title_is_refused() {
    let mut shot = snapshot(2, &["a"]);
    assert_eq!(
        build_a11y_tree(&shot, &[], &SceneKind::all()).err(),
        Some(A11yError::UnmappedSceneKind)
    );
    shot.title = "t".repeat(257);
    assert_eq!(
        build_a11y_tree(&shot, &[], &[]).err(),
        Some(A11yError::NameTooLong { len: 257, cap: 256 })
    );
}

#[test]
fn nested_nodes_are_met_once_in_preorder() {
    let mut builder = A11yTreeBuilder::new("root").expect("builder");
    let root = builder.root();
    let first = builder
        .push(root, A11yNodeKind::Scene(SceneKind::mapped()[0]), "first", None)
        .expect("first");
    let second = builder
        .push(root, A11yNodeKind::Interactive(A11yRole::Button), "second", None)
        .expect("second");
    let nested = builder.push_row_text(first, &"r".repeat(1000)).expect("row");
    assert_eq!(builder.len(), 4);
    assert_eq!(
        (root.as_u32(), first.as_usize(), second.as_u32(), nested.as_u32()),
        (0, 1, 2, 3)
    );
    let tree = builder.finish();
    let order: Vec<u32> = tree.preorder().iter().map(|node| node.id().as_u32()).collect();
    assert_eq!(order, vec![0, 1, 3, 2]);
}

#[test]
fn the_tree_refuses_faults_without_changing() {
    let mut big = A11yTreeBuilder::new("big").expect("builder");
    let root = big.root();
    let mut last = root;
    while big.len() < MAX_A11Y_TREE_NODES {
        last = big.push_row_text(root, "row").expect("row");
    }
    assert_eq!(
        big.push_row_text(root, "row"),
        Err(A11yError::TooManyNodes { count: 4097, cap: 4096 })
    );
    assert_eq!(big.len(), MAX_A11Y_TREE_NODES);

    let mut small = A11yTreeBuilder::new("small").expect("builder");
    assert_eq!(
        small.push(last, A11yNodeKind::Terminal, "t", None),
        Err(A11yError::UnknownParent)
    );
    assert_eq!(small.push_row_text(last, "t"), Err(A11yError::UnknownParent));
    let long = "n".repeat(257);
    assert_eq!(
        small.push(small.root(), A11yNodeKind::Terminal, &long, None),
        Err(A11yError::NameTooLong { len: 257, cap: 256 })
    );
    assert_eq!(
        small.push(small.root(), A11yNodeKind::Terminal, "t", Some(&long)),
        Err(A11yError::NameTooLong { len: 257, cap: 256 })
    );
    assert_eq!(small.len(), 1);
}

#[test]
fn a_handle_of_another_builder_never_attaches() {
    let mut a = A11yTreeBuilder::new("w").expect("builder");
    let mut b = A11yTreeBuilder::new("w").expect("builder");
    let h = a.push(a.root(), A11yNodeKind::Terminal, "t", None).expect("node");
    b.push(b.root(), A11yNodeKind::Terminal, "u", None).expect("node");
    assert_eq!(
        b.push(h, A11yNodeKind::TerminalRow, "x", None),
        Err(A11yError::UnknownParent)
    );
    assert_eq!(b.push_row_text(h, "x"), Err(A11yError::UnknownParent));
    assert_eq!(b.push_row_text(a.root(), "x"), Err(A11yError::UnknownParent));
    assert_eq!(b.len(), 2);
    let (one, other) = (a.finish(), b.finish());
    assert_eq!(one.get(h).map(|node| node.name()), Some("t"));
    assert!(other.get(h).is_none());
    assert!(other.get(one.root()).is_none());
    assert_eq!(other.get(other.root()).map(|node| node.id()), Some(other.root()));
}

#[test]
fn brands_decide_whose_handles_count() {
    let mut a = A11yTreeBuilder::with_brand(7, "w").expect("builder");
    let mut b = A11yTreeBuilder::with_brand(8, "w").expect("builder");
    let same = A11yTreeBuilder::with_brand(7, "w").expect("builder");
    assert_eq!(a.push_row_text(b.root(), "x"), Err(A11yError::UnknownParent));
    assert!(b.push_row_text(b.root(), "x").is_ok());
    assert!(a.push_row_text(same.root(), "x").is_ok());
    assert_ne!(a.root(), b.root());
    assert_eq!(a.root(), same.root());
}

#[test]
fn equal_windows_make_equal_trees() {
    let shot = snapshot(4, &["ls", "ok"]);
    let one = build_a11y_tree(&shot, &[], &[]).expect("tree");
    let two = build_a11y_tree(&shot, &[], &[]).expect("tree");
    assert_eq!(one, two);
    assert_eq!(one.clone(), one);
    let other = build_a11y_tree(&snapshot(4, &["ls", "no"]), &[], &[]).expect("tree");
    assert!(one != other);
    assert!(one != build_a11y_tree(&snapshot(4, &["ls"]), &[], &[]).expect("tree"));
}
