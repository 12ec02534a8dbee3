use std::path::PathBuf;

use rosin_core::css::parser::{parse_display, parse_position, parse_text_align, KeywordError};
use rosin_core::css::style::{Direction, Position, TextAlign};
use rosin_core::events::{CommandId, DispatchInfo, FileDialogResponse, On, PerfInfo};
use rosin_core::grc::{Grc, Registry};
use rosin_core::parser::{
    parse_align_content, parse_align_items, parse_align_self, parse_cursor, parse_flex_direction, parse_flex_flow, parse_flex_wrap,
    parse_justify_content, parse_position as parse_old_position, FlexFlowProperty, PropertyValue, ValueToken,
};
use rosin_core::scope::Scope;
use rosin_core::sheet::SheetId;
use rosin_core::style::{AlignContent, AlignItems, Cursor, FlexDirection, FlexWrap, JustifyContent, Position as OldPosition};
use rosin_core::stylesheet::{rule_filter, sheets_for_node, ArrayNode, Selector as OldSelector};

#[test]
fn on_is_pointer() {
    assert!(On::PointerDown.is_pointer());
    assert!(On::PointerWheel.is_pointer());
    assert!(!On::Keyboard.is_pointer());
    assert!(!On::Change.is_pointer());
}

#[test]
fn file_dialog_response_paths() {
    let opened = FileDialogResponse::Opened(vec![PathBuf::from("/a"), PathBuf::from("/b")]);
    assert_eq!(opened.path(), Some(&PathBuf::from("/a")));
    assert_eq!(opened.paths(), vec![PathBuf::from("/a"), PathBuf::from("/b")]);
    assert!(opened.is_opened() && !opened.is_saved() && !opened.is_cancelled());
    let saved = FileDialogResponse::Saved(PathBuf::from("/c"));
    assert_eq!(saved.path(), Some(&PathBuf::from("/c")));
    assert_eq!(saved.paths(), vec![PathBuf::from("/c")]);
    assert!(saved.is_saved());
    let cancelled = FileDialogResponse::Cancelled;
    assert_eq!(cancelled.path(), None);
    assert!(cancelled.paths().is_empty());
    assert!(cancelled.is_cancelled());
    let empty = FileDialogResponse::Opened(Vec::new());
    assert_eq!(empty.path(), None);
}

#[test]
fn command_id_from_u32() {
    assert_eq!(CommandId::from(7u32), CommandId(7));
}

#[test]
fn perf_info_times_add_up() {
    let info = PerfInfo {
        frame_number: 3,
        node_count: 10,
        build_time: 1_000,
        style_time: 2_000,
        layout_time: 3_000,
        layout_twice: false,
        scene_time: 4_000,
        paint_time: 5_000,
    };
    assert_eq!(info.cpu_time(), 10_000);
    assert_eq!(info.gpu_time(), 5_000);
    assert_eq!(info.total_time(), 15_000);
    let d = DispatchInfo::default();
    assert_eq!(d.callback_count, 0);
}

#[test]
fn grc_upgrade_fails_after_last_release() {
    let mut reg: Registry<String> = Registry::new();
    let a = Grc::new("a".to_string(), &mut reg);
    let weak = Grc::downgrade(&a);
    let a2 = a.clone_in(&mut reg);
    assert_eq!(a2.get(&reg), "a");
    a.release(&mut reg);
    let up = weak.upgrade(&mut reg).expect("still alive");
    assert_eq!(up.get(&reg), "a");
    up.release(&mut reg);
    a2.release(&mut reg);
    assert!(weak.upgrade(&mut reg).is_none());
    // The slot is reused for a new value, in a new generation.
    let b = Grc::new("b".to_string(), &mut reg);
    assert!(weak.upgrade(&mut reg).is_none());
    assert_eq!(b.get(&reg), "b");
    let wb = Grc::downgrade(&b);
    assert!(wb.upgrade(&mut reg).is_some());
}

#[test]
fn registry_reuses_last_freed_slot() {
    let mut reg: Registry<u32> = Registry::new();
    assert_eq!(reg.register(1), (0, 0));
    assert_eq!(reg.register(2), (1, 0));
    reg.release(0);
    assert_eq!(reg.register(3), (0, 1));
    assert_eq!(*reg.value(0), 3);
    reg.retain(1);
    reg.release(1);
    assert_eq!(*reg.value(1), 2);
}

#[test]
fn scope_borrows() {
    let mut s = Scope::new(5);
    assert_eq!(*s.borrow(), 5);
    *s.borrow_mut() = 6;
    assert_eq!(*s.borrow(), 6);
}

#[test]
fn sheet_ids_count_from_one() {
    let id = SheetId::from_position(0);
    assert_eq!(id.position(), 0);
    assert_eq!(SheetId::from_position(4).position(), 4);
}

#[test]
fn direction_axes() {
    assert!(Direction::Row.is_row());
    assert!(!Direction::ColumnReverse.is_row());
    assert!(Direction::ColumnReverse.is_reverse());
    assert_eq!(Direction::RowReverse.other_axis(), Direction::ColumnReverse);
    assert_eq!(Direction::Column.other_axis(), Direction::Row);
    assert!(FlexDirection::RowReverse.is_row() && FlexDirection::RowReverse.is_reverse());
    assert!(!FlexDirection::Column.is_row() && !FlexDirection::Column.is_reverse());
}

#[test]
fn css_names() {
    assert_eq!(TextAlign::Justify.css_name(), "justify");
    assert_eq!(Direction::ColumnReverse.css_name(), "column-reverse");
    assert_eq!(Position::SelfDirected.css_name(), "self-directed");
    assert_eq!(TextAlign::default(), TextAlign::Start);
    assert_eq!(Position::default(), Position::ParentDirected);
}

fn id(s: &str) -> ValueToken {
    ValueToken::Ident(s.to_string())
}

#[test]
fn css_keywords_parse() {
    assert_eq!(parse_text_align(&id("Center")), Ok(TextAlign::Center));
    assert_eq!(parse_text_align(&id("middle")), Err(KeywordError::UnexpectedToken));
    assert_eq!(parse_text_align(&ValueToken::Function("VAR".to_string())), Err(KeywordError::VarFunction));
    assert_eq!(parse_text_align(&ValueToken::Function("calc".to_string())), Err(KeywordError::UnexpectedToken));
    assert_eq!(parse_text_align(&ValueToken::Other), Err(KeywordError::UnexpectedToken));
    assert_eq!(parse_position(&id("fixed")), Ok(Position::Fixed));
    assert_eq!(parse_display(&id("none")), Ok(None));
    assert_eq!(parse_display(&id("row-reverse")), Ok(Some(Direction::RowReverse)));
}

#[test]
fn law_css_names_parse_back() {
    for v in [TextAlign::Start, TextAlign::End, TextAlign::Left, TextAlign::Right, TextAlign::Center, TextAlign::Justify] {
        assert_eq!(parse_text_align(&id(v.css_name())), Ok(v));
    }
    for p in [Position::ParentDirected, Position::SelfDirected, Position::Fixed] {
        assert_eq!(parse_position(&id(p.css_name())), Ok(p));
    }
    for d in [Direction::Row, Direction::RowReverse, Direction::Column, Direction::ColumnReverse] {
        assert_eq!(parse_display(&id(d.css_name())), Ok(Some(d)));
    }
}

#[test]
fn old_keywords_parse() {
    assert_eq!(parse_align_content("SPACE-AROUND"), Some(PropertyValue::Exact(AlignContent::SpaceAround)));
    assert_eq!(parse_align_content("auto"), Some(PropertyValue::Auto));
    assert_eq!(parse_align_items("inherit"), Some(PropertyValue::Inherit));
    assert_eq!(parse_align_self("flex-end"), Some(PropertyValue::Exact(AlignItems::FlexEnd)));
    assert_eq!(parse_cursor("none"), Some(PropertyValue::Exact(Cursor::NoCursor)));
    assert_eq!(parse_cursor("nwse-resize"), Some(PropertyValue::Exact(Cursor::NWSE_Resize)));
    assert_eq!(parse_cursor("hand"), None);
    assert_eq!(parse_flex_direction("column-reverse"), Some(PropertyValue::Exact(FlexDirection::ColumnReverse)));
    assert_eq!(parse_flex_wrap("initial"), Some(PropertyValue::Initial));
    assert_eq!(parse_justify_content("space-evenly"), Some(PropertyValue::Exact(JustifyContent::SpaceEvenly)));
    assert_eq!(parse_old_position("relative"), Some(PropertyValue::Exact(OldPosition::Relative)));
    assert_eq!(parse_old_position("sticky"), None);
}

#[test]
fn flex_flow_sets_both_properties() {
    let props = parse_flex_flow(&[id("column"), id("wrap")]).unwrap();
    assert_eq!(
        props,
        vec![FlexFlowProperty::FlexDirection(PropertyValue::Exact(FlexDirection::Column)), FlexFlowProperty::FlexWrap(PropertyValue::Exact(FlexWrap::Wrap))]
    );
    let props = parse_flex_flow(&[id("inherit")]).unwrap();
    assert_eq!(props, vec![FlexFlowProperty::FlexDirection(PropertyValue::Inherit), FlexFlowProperty::FlexWrap(PropertyValue::Inherit)]);
    assert!(parse_flex_flow(&[id("row"), id("auto")]).is_none());
    assert!(parse_flex_flow(&[ValueToken::Other]).is_none());
    assert_eq!(parse_flex_flow(&[]).unwrap(), vec![]);
}

fn anode(classes: &[&str], parent: usize, sheet: Option<usize>) -> ArrayNode {
    ArrayNode { classes: classes.iter().map(|c| c.to_string()).collect(), parent, style_sheet: sheet }
}

#[test]
fn legacy_rule_filter() {
    // 0 .app { 1 .panel { 2 .title } }
    let tree = vec![anode(&["app"], 0, Some(0)), anode(&["panel"], 0, None), anode(&["title"], 1, Some(1))];
    let class = |s: &str| OldSelector::Class(s.to_string());
    assert!(rule_filter(&[class("title")], &tree, 2));
    assert!(rule_filter(&[class("app"), OldSelector::Children, class("title")], &tree, 2));
    assert!(!rule_filter(&[class("app"), OldSelector::DirectChildren, class("title")], &tree, 2));
    assert!(rule_filter(&[class("panel"), OldSelector::DirectChildren, class("title")], &tree, 2));
    assert!(!rule_filter(&[class("title"), OldSelector::Hover], &tree, 2));
    assert!(rule_filter(&[OldSelector::Wildcard], &tree, 0));
    assert!(!rule_filter(&[class("app"), OldSelector::Children, class("app")], &tree, 0));
    assert!(OldSelector::Id("panel".to_string()).check(&["panel".to_string()]));
}

#[test]
fn legacy_sheets_nearest_first() {
    let tree = vec![anode(&["app"], 0, Some(0)), anode(&["panel"], 0, None), anode(&["title"], 1, Some(1))];
    assert_eq!(sheets_for_node(&tree, 2), vec![1, 0]);
    assert_eq!(sheets_for_node(&tree, 1), vec![0]);
}
