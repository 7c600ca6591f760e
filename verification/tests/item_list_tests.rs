use tokito_native::item_lists::{
    flush_sheet_items, marked_indices, marks_for_indices, marks_for_keys, marks_on_sheet, remove_at_if_valid,
    remove_marked, sheets_or_root,
};

fn strings(v: &[&str]) -> Vec<String> {
    v.iter().map(|s| s.to_string()).collect()
}

#[test]
fn deleting_selected_segments_keeps_the_rest_in_order() {
    let mut segs = vec!["s0", "s1", "s2", "s3", "s4"];
    let marks = marks_for_indices(segs.len(), &[3, 1, 9]);
    assert_eq!(marks, vec![false, true, false, true, false]);
    remove_marked(&mut segs, &marks);
    assert_eq!(segs, vec!["s0", "s2", "s4"]);
}

#[test]
fn deleting_selected_symbols_by_designator() {
    let mut refs = strings(&["R1", "C1", "R2", "R1"]);
    let keys = refs.clone();
    let marks = marks_for_keys(&keys, &strings(&["R1", "U9"]));
    assert_eq!(marks, vec![true, false, false, true]);
    remove_marked(&mut refs, &marks);
    assert_eq!(refs, strings(&["C1", "R2"]));
}

#[test]
fn removing_one_item_ignores_a_stale_index() {
    let mut v = vec![10, 20, 30];
    remove_at_if_valid(&mut v, 1);
    assert_eq!(v, vec![10, 30]);
    remove_at_if_valid(&mut v, 2);
    assert_eq!(v, vec![10, 30]);
}

#[test]
fn flush_then_hydrate_gives_back_the_sheet() {
    // Document items tagged by sheet id.
    let mut items = vec![("root", 1), ("a", 2), ("root", 3), ("b", 4)];
    let ids: Vec<String> = items.iter().map(|(s, _)| s.to_string()).collect();
    let on = marks_on_sheet(&ids, "root");
    assert_eq!(on, vec![true, false, true, false]);
    flush_sheet_items(&mut items, &on, vec![("root", 7), ("root", 8)]);
    assert_eq!(items, vec![("a", 2), ("b", 4), ("root", 7), ("root", 8)]);
    let ids2: Vec<String> = items.iter().map(|(s, _)| s.to_string()).collect();
    let shown = marked_indices(&marks_on_sheet(&ids2, "root"));
    assert_eq!(shown, vec![2, 3]);
    let back: Vec<i32> = shown.iter().map(|&i| items[i].1).collect();
    assert_eq!(back, vec![7, 8]);
    assert_eq!(marked_indices(&[]), Vec::<usize>::new());
}

#[test]
fn a_document_without_sheets_shows_a_root_sheet() {
    let r = sheets_or_root(vec![], "s0");
    assert_eq!(r, vec![("s0".to_string(), "Root".to_string())]);
    let two = vec![("a".to_string(), "Main".to_string()), ("b".to_string(), "Power".to_string())];
    assert_eq!(sheets_or_root(two.clone(), "s0"), two);
}
