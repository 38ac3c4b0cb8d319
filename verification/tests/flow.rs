use spider_tui::dataset::{DatasetData, DatasetStore};
use spider_tui::element::{Element, ElementKind};
use spider_tui::messages::{
    message_to_update, InputEvent, KeyCode, KeyEventKind, ModelUpdate, UiInput, UiMessage,
};
use spider_tui::navigate::SelectDirection;
use spider_tui::page::Page;
use spider_tui::page_state::PageState;
use spider_tui::processor::{ModelProcessor, RenderTarget};

fn leaf(kind: ElementKind, id: Option<&str>, text: &str) -> Element {
    Element {
        kind,
        id: id.map(|s| s.to_string()),
        dataset_path: None,
        children: Vec::new(),
        text: text.to_string(),
    }
}

fn rows(children: Vec<Element>) -> Element {
    Element {
        kind: ElementKind::Rows,
        id: None,
        dataset_path: None,
        children,
        text: String::new(),
    }
}

fn row(fields: Vec<(&str, &str)>) -> DatasetData {
    DatasetData::new(
        fields
            .into_iter()
            .map(|(k, v)| (k.to_string(), v.to_string()))
            .collect(),
    )
}

fn press(code: KeyCode) -> ModelUpdate {
    ModelUpdate::Event(InputEvent::Key(code, KeyEventKind::Press))
}

#[test]
fn buttons_descend_then_down_then_boundary() {
    // Rows[Button "a", Button "b"]; no initial focus.
    let page = Page::new(
        "p".to_string(),
        "p".to_string(),
        rows(vec![
            leaf(ElementKind::Button, Some("a"), "A"),
            leaf(ElementKind::Button, Some("b"), "B"),
        ]),
    )
    .unwrap();
    let store = DatasetStore::new();
    let mut st = PageState::default();
    st.select_next(&page, &store, SelectDirection::Down).unwrap();
    assert_eq!(st.get_selected_id().map(|s| s.as_str()), Some("a"));
    st.select_next(&page, &store, SelectDirection::Down).unwrap();
    assert_eq!(st.get_selected_id().map(|s| s.as_str()), Some("b"));
    st.select_next(&page, &store, SelectDirection::Down).unwrap();
    assert_eq!(st.get_selected_id().map(|s| s.as_str()), Some("b"));
}

#[test]
fn boundary_up_is_idempotent() {
    let page = Page::new(
        "p".to_string(),
        "p".to_string(),
        rows(vec![
            leaf(ElementKind::Button, Some("a"), "A"),
            leaf(ElementKind::Button, Some("b"), "B"),
        ]),
    )
    .unwrap();
    let store = DatasetStore::new();
    let mut st = PageState::default();
    st.select_next(&page, &store, SelectDirection::Down).unwrap();
    assert_eq!(st.get_selected_id().map(|s| s.as_str()), Some("a"));
    // "a" is the topmost selectable leaf under a Rows root: Up stays put
    st.select_next(&page, &store, SelectDirection::Up).unwrap();
    assert_eq!(st.get_selected_id().map(|s| s.as_str()), Some("a"));
    assert_eq!(st.get_selected_datasets().len(), 0);
}

#[test]
fn dataset_columns_right_selects_next_row_instance() {
    // Columns bound to a 3-row dataset, wrapping a single TextEntry child.
    let root = Element {
        kind: ElementKind::Columns,
        id: None,
        dataset_path: Some("/d".to_string()),
        children: vec![leaf(ElementKind::TextEntry, Some("t"), "")],
        text: String::new(),
    };
    let page = Page::new("p".to_string(), "p".to_string(), root).unwrap();
    let mut store = DatasetStore::new();
    store.insert(
        "/d".to_string(),
        vec![
            row(vec![("f", "0")]),
            row(vec![("f", "1")]),
            row(vec![("f", "2")]),
        ],
    );
    let mut st = PageState::default();
    // forward descent always selects row 0's instance first
    st.select_next(&page, &store, SelectDirection::Right).unwrap();
    assert_eq!(st.get_selected_id().map(|s| s.as_str()), Some("t"));
    assert_eq!(st.get_selected_datasets().as_slice(), &[0]);
    // one Right selects row 1's instance, recording dataset-row path [1]
    st.select_next(&page, &store, SelectDirection::Right).unwrap();
    assert_eq!(st.get_selected_id().map(|s| s.as_str()), Some("t"));
    assert_eq!(st.get_selected_datasets().as_slice(), &[1]);
    let datum = st.get_selected_datum().as_ref().unwrap();
    assert_eq!(datum.get(&"f".to_string()).unwrap().as_str(), "1");
}

#[test]
fn navigation_fails_loudly_on_grid() {
    let root = rows(vec![Element {
        kind: ElementKind::Grid(2, 2),
        id: None,
        dataset_path: None,
        children: vec![leaf(ElementKind::Button, Some("g"), "G")],
        text: String::new(),
    }]);
    let page = Page::new("p".to_string(), "p".to_string(), root).unwrap();
    let store = DatasetStore::new();
    let mut st = PageState::default();
    assert!(st.select_next(&page, &store, SelectDirection::Down).is_err());
    assert!(st.get_selected_id().is_none());
}

#[test]
fn stale_focus_rederives_from_scratch() {
    let page1 = Page::new(
        "p".to_string(),
        "p".to_string(),
        rows(vec![leaf(ElementKind::Button, Some("gone"), "G")]),
    )
    .unwrap();
    let store = DatasetStore::new();
    let mut st = PageState::default();
    st.select_next(&page1, &store, SelectDirection::Down).unwrap();
    assert_eq!(st.get_selected_id().map(|s| s.as_str()), Some("gone"));
    // the page is replaced and the focused id no longer exists
    let page2 = Page::new(
        "p".to_string(),
        "p".to_string(),
        rows(vec![leaf(ElementKind::Button, Some("fresh"), "F")]),
    )
    .unwrap();
    st.select_next(&page2, &store, SelectDirection::Down).unwrap();
    assert_eq!(st.get_selected_id().map(|s| s.as_str()), Some("fresh"));
}

#[test]
fn unselectable_leaf_sets_no_focus() {
    let page = Page::new(
        "p".to_string(),
        "p".to_string(),
        rows(vec![leaf(ElementKind::Text, Some("txt"), "hello")]),
    )
    .unwrap();
    let store = DatasetStore::new();
    let mut st = PageState::default();
    st.select_next(&page, &store, SelectDirection::Down).unwrap();
    assert!(st.get_selected_id().is_none());
}

#[test]
fn message_routing() {
    let page = Page::new("p".to_string(), "p".to_string(), rows(vec![])).unwrap();
    assert!(matches!(
        message_to_update(UiMessage::Pages(vec![page])),
        Some(ModelUpdate::SetPages(_))
    ));
    assert!(message_to_update(UiMessage::Subscribe).is_none());
    assert!(message_to_update(UiMessage::GetPage("p".to_string())).is_none());
    assert!(message_to_update(UiMessage::ClearPage).is_none());
    assert!(matches!(
        message_to_update(UiMessage::Dataset("/d".to_string(), vec![])),
        Some(ModelUpdate::UpdateDataset(_, _))
    ));
}

#[test]
fn textentry_commit_scenario() {
    // a page with one focused TextEntry; type, backspace, type, Enter
    let page = Page::new(
        "p".to_string(),
        "p".to_string(),
        rows(vec![leaf(ElementKind::TextEntry, Some("e1"), "")]),
    )
    .unwrap();
    let mut proc = ModelProcessor::new();
    proc.update(ModelUpdate::SetPages(vec![page])).unwrap();
    proc.update(press(KeyCode::Enter)).unwrap(); // list -> page view
    proc.update(press(KeyCode::Down)).unwrap(); // focus the entry
    proc.update(press(KeyCode::Char('a'))).unwrap();
    proc.update(press(KeyCode::Char('b'))).unwrap();
    {
        let st = proc.get_page_state(&"p".to_string()).unwrap();
        assert_eq!(
            st.get_uncommited_input(&"e1".to_string(), &vec![]).map(|s| s.as_str()),
            Some("ab")
        );
    }
    proc.update(press(KeyCode::Backspace)).unwrap();
    proc.update(press(KeyCode::Char('c'))).unwrap();
    {
        let st = proc.get_page_state(&"p".to_string()).unwrap();
        assert_eq!(
            st.get_uncommited_input(&"e1".to_string(), &vec![]).map(|s| s.as_str()),
            Some("ac")
        );
    }
    let msgs = proc.update(press(KeyCode::Enter)).unwrap();
    assert_eq!(msgs.len(), 1);
    match &msgs[0] {
        UiMessage::InputFor(pid, eid, dsi, UiInput::Text(t)) => {
            assert_eq!(pid.as_str(), "p");
            assert_eq!(eid.as_str(), "e1");
            assert!(dsi.is_empty());
            assert_eq!(t.as_str(), "ac");
        }
        _ => panic!("expected a text submission"),
    }
    let st = proc.get_page_state(&"p".to_string()).unwrap();
    assert!(st.get_uncommited_input(&"e1".to_string(), &vec![]).is_none());
}

#[test]
fn button_click_emits_submission() {
    let page = Page::new(
        "p".to_string(),
        "p".to_string(),
        rows(vec![leaf(ElementKind::Button, Some("b1"), "ok")]),
    )
    .unwrap();
    let mut proc = ModelProcessor::new();
    proc.update(ModelUpdate::SetPages(vec![page])).unwrap();
    proc.update(press(KeyCode::Enter)).unwrap();
    proc.update(press(KeyCode::Down)).unwrap();
    let msgs = proc.update(press(KeyCode::Enter)).unwrap();
    assert_eq!(msgs.len(), 1);
    assert!(matches!(
        &msgs[0],
        UiMessage::InputFor(_, _, _, UiInput::Click)
    ));
}

#[test]
fn q_exits_from_list_view_only() {
    let page = Page::new(
        "p".to_string(),
        "p".to_string(),
        rows(vec![leaf(ElementKind::TextEntry, Some("e1"), "")]),
    )
    .unwrap();
    let mut proc = ModelProcessor::new();
    proc.update(ModelUpdate::SetPages(vec![page])).unwrap();
    proc.update(press(KeyCode::Enter)).unwrap();
    proc.update(press(KeyCode::Down)).unwrap();
    proc.update(press(KeyCode::Char('q'))).unwrap();
    assert!(!proc.should_exit()); // in page view q is just a character
    proc.update(press(KeyCode::Esc)).unwrap();
    proc.update(press(KeyCode::Char('q'))).unwrap();
    assert!(proc.should_exit());
}

#[test]
fn release_events_are_ignored() {
    let page = Page::new(
        "p".to_string(),
        "p".to_string(),
        rows(vec![leaf(ElementKind::TextEntry, Some("e1"), "")]),
    )
    .unwrap();
    let mut proc = ModelProcessor::new();
    proc.update(ModelUpdate::SetPages(vec![page])).unwrap();
    proc.update(ModelUpdate::Event(InputEvent::Key(
        KeyCode::Char('q'),
        KeyEventKind::Release,
    )))
    .unwrap();
    assert!(!proc.should_exit());
}

#[test]
fn paste_appends_to_focused_buffer() {
    let page = Page::new(
        "p".to_string(),
        "p".to_string(),
        rows(vec![leaf(ElementKind::TextEntry, Some("e1"), "")]),
    )
    .unwrap();
    let mut proc = ModelProcessor::new();
    proc.update(ModelUpdate::SetPages(vec![page])).unwrap();
    proc.update(press(KeyCode::Enter)).unwrap();
    proc.update(press(KeyCode::Down)).unwrap();
    proc.update(press(KeyCode::Char('x'))).unwrap();
    proc.update(ModelUpdate::Event(InputEvent::Paste("yz".to_string())))
        .unwrap();
    let st = proc.get_page_state(&"p".to_string()).unwrap();
    assert_eq!(
        st.get_uncommited_input(&"e1".to_string(), &vec![]).map(|s| s.as_str()),
        Some("xyz")
    );
}

#[test]
fn page_list_cursor_via_processor() {
    let mut proc = ModelProcessor::new();
    let mut pages = Vec::new();
    for name in ["a", "b", "c"] {
        pages.push(Page::new(name.to_string(), name.to_string(), rows(vec![])).unwrap());
    }
    proc.update(ModelUpdate::SetPages(pages)).unwrap();
    for _ in 0..8 {
        proc.update(press(KeyCode::Down)).unwrap();
    }
    assert_eq!(proc.page_set().selected_index(), 2);
    for _ in 0..8 {
        proc.update(press(KeyCode::Up)).unwrap();
    }
    assert_eq!(proc.page_set().selected_index(), 0);
}

#[test]
fn render_falls_back_to_list_without_pages() {
    let mut proc = ModelProcessor::new();
    assert!(matches!(proc.render_view(), RenderTarget::PageList));
    let page = Page::new("p".to_string(), "p".to_string(), rows(vec![])).unwrap();
    proc.update(ModelUpdate::SetPage(page)).unwrap();
    proc.update(press(KeyCode::Enter)).unwrap();
    assert!(matches!(proc.render_view(), RenderTarget::Page));
    proc.update(ModelUpdate::SetPages(vec![])).unwrap();
    assert!(matches!(proc.render_view(), RenderTarget::PageList));
}

#[test]
fn cross_axis_search_climbs_to_matching_ancestor() {
    // Rows[Columns[a, b], Columns[c, d]]: Down from "a" finds nothing on
    // the horizontal ancestor and moves to the next row's first button.
    fn columns(children: Vec<Element>) -> Element {
        Element {
            kind: ElementKind::Columns,
            id: None,
            dataset_path: None,
            children,
            text: String::new(),
        }
    }
    let page = Page::new(
        "p".to_string(),
        "p".to_string(),
        rows(vec![
            columns(vec![
                leaf(ElementKind::Button, Some("a"), "A"),
                leaf(ElementKind::Button, Some("b"), "B"),
            ]),
            columns(vec![
                leaf(ElementKind::Button, Some("c"), "C"),
                leaf(ElementKind::Button, Some("d"), "D"),
            ]),
        ]),
    )
    .unwrap();
    let store = DatasetStore::new();
    let mut st = PageState::default();
    st.select_next(&page, &store, SelectDirection::Down).unwrap();
    assert_eq!(st.get_selected_id().map(|s| s.as_str()), Some("a"));
    st.select_next(&page, &store, SelectDirection::Right).unwrap();
    assert_eq!(st.get_selected_id().map(|s| s.as_str()), Some("b"));
    st.select_next(&page, &store, SelectDirection::Down).unwrap();
    assert_eq!(st.get_selected_id().map(|s| s.as_str()), Some("c"));
    st.select_next(&page, &store, SelectDirection::Up).unwrap();
    assert_eq!(st.get_selected_id().map(|s| s.as_str()), Some("a"));
}

#[test]
fn nested_datasets_record_one_index_per_bound_ancestor() {
    // a bound Rows wrapping a bound Columns wrapping a Button: the focus
    // dataset-row path holds one index per bound ancestor above it
    let inner = Element {
        kind: ElementKind::Columns,
        id: None,
        dataset_path: Some("/inner".to_string()),
        children: vec![leaf(ElementKind::Button, Some("x"), "X")],
        text: String::new(),
    };
    let root = Element {
        kind: ElementKind::Rows,
        id: None,
        dataset_path: Some("/outer".to_string()),
        children: vec![inner],
        text: String::new(),
    };
    let page = Page::new("p".to_string(), "p".to_string(), root).unwrap();
    let mut store = DatasetStore::new();
    store.insert(
        "/outer".to_string(),
        vec![row(vec![("o", "0")]), row(vec![("o", "1")])],
    );
    store.insert(
        "/inner".to_string(),
        vec![row(vec![("i", "0")]), row(vec![("i", "1")])],
    );
    let mut st = PageState::default();
    st.select_next(&page, &store, SelectDirection::Down).unwrap();
    assert_eq!(st.get_selected_id().map(|s| s.as_str()), Some("x"));
    assert_eq!(st.get_selected_datasets().as_slice(), &[0, 0]);
    // moving right within the inner dataset advances the inner index only
    st.select_next(&page, &store, SelectDirection::Right).unwrap();
    assert_eq!(st.get_selected_datasets().as_slice(), &[0, 1]);
    // moving down advances the outer dataset, re-entering at inner row 0
    st.select_next(&page, &store, SelectDirection::Down).unwrap();
    assert_eq!(st.get_selected_datasets().as_slice(), &[1, 0]);
}
