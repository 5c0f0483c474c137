use dither_panels::document_session::{
    active_after_close, neighbor_after_close, sort_tabs_by_id, tab_title, OpenDocumentTabDto,
};

#[test]
fn neighbor_after_close_prefers_right_then_left() {
    assert_eq!(neighbor_after_close(&[1, 2, 3], 2), Some(3), "middle → right");
    assert_eq!(neighbor_after_close(&[1, 2, 3], 3), Some(2), "last → left");
    assert_eq!(neighbor_after_close(&[1, 2, 3], 1), Some(2), "first → right");
    assert_eq!(neighbor_after_close(&[7], 7), None);
}

#[test]
fn neighbor_of_unknown_tab_is_last_tab() {
    assert_eq!(neighbor_after_close(&[4, 9], 5), Some(9));
    assert_eq!(neighbor_after_close(&[], 5), None);
}

#[test]
fn closing_inactive_tab_keeps_active() {
    assert_eq!(active_after_close(Some(1), &[1, 2, 3], 3), Some(1));
    assert_eq!(active_after_close(Some(3), &[1, 2, 3], 3), Some(2));
    assert_eq!(active_after_close(None, &[1, 2], 1), None);
}

#[test]
fn tab_titles() {
    assert_eq!(tab_title(Some("poster.dyproj"), 4), "poster.dyproj");
    assert_eq!(tab_title(None, 12), "Untitled 12");
}

fn tab(id: u32, title: &str) -> OpenDocumentTabDto {
    OpenDocumentTabDto { id, title: title.into(), dirty: false, path: None }
}

#[test]
fn tabs_sorted_by_id_stably() {
    let sorted = sort_tabs_by_id(vec![tab(5, "a"), tab(2, "b"), tab(5, "c"), tab(1, "d")]);
    let titles: Vec<&str> = sorted.iter().map(|t| t.title.as_str()).collect();
    assert_eq!(titles, vec!["d", "b", "a", "c"]);
}
