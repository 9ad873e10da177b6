use logger::decode::ParsedLine;
use logger::group::group_parsed_lines;
use logger::nav::Command;
use logger::nav::NavMode;
use logger::nav::Navigator;

fn chars(s: &str) -> Vec<char> {
    s.chars().collect()
}

fn text(v: &[char]) -> String {
    v.iter().collect()
}

fn record(id: i32, state: &str) -> ParsedLine {
    ParsedLine {
        id,
        parent_id: None,
        parent: None,
        class_name: chars("Foo"),
        function_name: chars("f"),
        state: vec![chars(state)],
        args: vec![],
    }
}

fn child_record(id: i32, parent_id: i32, state: &str) -> ParsedLine {
    ParsedLine {
        id,
        parent_id: Some(parent_id),
        parent: Some(chars("Par")),
        class_name: chars("Kid"),
        function_name: chars("g"),
        state: vec![chars(state)],
        args: vec![],
    }
}

#[test]
fn grouping_splits_on_state_change() {
    let recs = vec![record(1, "A"), record(2, "A"), record(3, "B")];
    let groups = group_parsed_lines(&recs);
    assert_eq!(groups, vec![vec![0, 1], vec![2]]);
}

#[test]
fn grouping_parent_overrides_state_difference() {
    let recs = vec![record(1, "A"), child_record(2, 1, "C"), record(3, "B")];
    let groups = group_parsed_lines(&recs);
    assert_eq!(groups, vec![vec![0, 1], vec![2]]);
}

#[test]
fn grouping_compares_immediate_predecessor() {
    // after the child, record 3 is compared with the child's state C, not A
    let recs = vec![record(1, "A"), child_record(2, 1, "C"), record(3, "C")];
    let groups = group_parsed_lines(&recs);
    assert_eq!(groups, vec![vec![0, 1, 2]]);
}

#[test]
fn grouping_empty_input_yields_no_groups() {
    let recs: Vec<ParsedLine> = vec![];
    let groups = group_parsed_lines(&recs);
    assert!(groups.is_empty());
}

#[test]
fn grouping_single_record() {
    let recs = vec![record(1, "A")];
    let groups = group_parsed_lines(&recs);
    assert_eq!(groups, vec![vec![0]]);
}

#[test]
fn navigator_reports_no_data_and_terminates() {
    let mut nav = Navigator::new(vec![]);
    assert_eq!(text(&nav.initial_frame()), "no data\n\r");
    assert!(nav.is_terminated());
    assert_eq!(nav.step(Command::Next), None);
}

#[test]
fn navigator_starts_on_first_group() {
    let recs = vec![record(1, "A"), record(2, "B")];
    let nav = Navigator::new(recs);
    assert_eq!(nav.mode, NavMode::Active(0));
    assert_eq!(text(&nav.initial_frame()), "A\n\r1 Foo f \n\r");
}

#[test]
fn navigator_cursor_stays_clamped() {
    let recs = vec![record(1, "A"), record(2, "B"), record(3, "C")];
    let mut nav = Navigator::new(recs);
    assert_eq!(nav.mode, NavMode::Active(0));
    nav.step(Command::Prev);
    assert_eq!(nav.mode, NavMode::Active(0));
    nav.step(Command::Next);
    assert_eq!(nav.mode, NavMode::Active(1));
    nav.step(Command::Next);
    assert_eq!(nav.mode, NavMode::Active(2));
    nav.step(Command::Next);
    assert_eq!(nav.mode, NavMode::Active(2));
    nav.step(Command::Prev);
    assert_eq!(nav.mode, NavMode::Active(1));
    nav.step(Command::Other);
    assert_eq!(nav.mode, NavMode::Active(1));
}

#[test]
fn navigator_quit_terminates() {
    let recs = vec![record(1, "A")];
    let mut nav = Navigator::new(recs);
    assert_eq!(nav.step(Command::Quit), None);
    assert!(nav.is_terminated());
    assert_eq!(nav.step(Command::Prev), None);
    assert!(nav.is_terminated());
}

#[test]
fn navigator_renders_each_frame() {
    let recs = vec![record(1, "A"), record(2, "B")];
    let mut nav = Navigator::new(recs);
    let frame = nav.step(Command::Next).unwrap();
    assert_eq!(text(&frame), "B\n\r2 Foo f \n\r");
    let frame = nav.step(Command::Prev).unwrap();
    assert_eq!(text(&frame), "A\n\r1 Foo f \n\r");
}

#[test]
fn renderer_indents_child_records() {
    let mut parent = record(7, "A");
    parent.args = vec![chars("x"), chars("y")];
    let child = child_record(8, 7, "C");
    let nav = Navigator::new(vec![parent, child]);
    assert_eq!(
        text(&nav.initial_frame()),
        "A\n\r7 Foo f x, y\n\r     8 Kid C g \n\r"
    );
}

#[test]
fn renderer_handles_negative_id() {
    let mut rec = record(1, "A");
    rec.id = -3;
    let nav = Navigator::new(vec![rec]);
    assert_eq!(text(&nav.initial_frame()), "A\n\r-3 Foo f \n\r");
}
