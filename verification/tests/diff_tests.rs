use filewatch::diff::{classify_pair, compute_diff};
use filewatch::{DiffEntry, Engine};

#[test]
fn modification_without_size_change() {
    let r = compute_diff(&vec![0x41, 0x42], &vec![0x41, 0x43]);
    assert_eq!(r.size_change, None);
    assert_eq!(
        r.entries,
        vec![DiffEntry::Modification { index: 1, old_value: 0x42, new_value: 0x43 }]
    );
}

#[test]
fn addition_with_size_change() {
    let r = compute_diff(&vec![0x01], &vec![0x01, 0x02]);
    assert_eq!(r.size_change, Some((1, 2)));
    assert_eq!(r.entries, vec![DiffEntry::Addition { index: 1, new_value: 0x02 }]);
}

#[test]
fn deletion_with_size_change() {
    let r = compute_diff(&vec![0x01, 0x02], &vec![0x01]);
    assert_eq!(r.size_change, Some((2, 1)));
    assert_eq!(r.entries, vec![DiffEntry::Deletion { index: 1 }]);
}

#[test]
fn empty_against_empty() {
    let r = compute_diff(&Vec::new(), &Vec::new());
    assert_eq!(r.size_change, None);
    assert_eq!(r.entries, Vec::new());
}

#[test]
fn identical_content_yields_nothing() {
    let content = vec![0xde, 0xad, 0xbe, 0xef];
    let r = compute_diff(&content, &content.clone());
    assert_eq!(r.size_change, None);
    assert_eq!(r.entries, Vec::new());
}

#[test]
fn every_differing_index_is_reported_once() {
    let old = vec![0x00, 0x11, 0x22, 0x33];
    let new = vec![0x00, 0xff, 0x22];
    let r = compute_diff(&old, &new);
    assert_eq!(r.size_change, Some((4, 3)));
    assert_eq!(
        r.entries,
        vec![
            DiffEntry::Modification { index: 1, old_value: 0x11, new_value: 0xff },
            DiffEntry::Deletion { index: 3 },
        ]
    );
}

#[test]
fn all_positions_added_from_empty() {
    let r = compute_diff(&Vec::new(), &vec![0x0a, 0x0b]);
    assert_eq!(r.size_change, Some((0, 2)));
    assert_eq!(
        r.entries,
        vec![
            DiffEntry::Addition { index: 0, new_value: 0x0a },
            DiffEntry::Addition { index: 1, new_value: 0x0b },
        ]
    );
}

#[test]
fn classify_pair_cases() {
    assert_eq!(
        classify_pair(3, None, Some(0x7f)),
        Some(DiffEntry::Addition { index: 3, new_value: 0x7f })
    );
    assert_eq!(classify_pair(4, Some(0x10), None), Some(DiffEntry::Deletion { index: 4 }));
    assert_eq!(
        classify_pair(5, Some(0x01), Some(0x02)),
        Some(DiffEntry::Modification { index: 5, old_value: 0x01, new_value: 0x02 })
    );
    assert_eq!(classify_pair(6, Some(0x09), Some(0x09)), None);
    assert_eq!(classify_pair(7, None, None), None);
}

#[test]
fn engine_replaces_snapshot_each_cycle() {
    let mut engine = Engine::new(vec![0x01]);
    assert_eq!(engine.snapshot(), &vec![0x01]);

    let first = engine.process_notification(vec![0x01, 0x02]);
    assert_eq!(first.size_change, Some((1, 2)));
    assert_eq!(first.entries, vec![DiffEntry::Addition { index: 1, new_value: 0x02 }]);
    assert_eq!(engine.snapshot(), &vec![0x01, 0x02]);

    let second = engine.process_notification(vec![0x03, 0x02]);
    assert_eq!(second.size_change, None);
    assert_eq!(
        second.entries,
        vec![DiffEntry::Modification { index: 0, old_value: 0x01, new_value: 0x03 }]
    );
    assert_eq!(engine.snapshot(), &vec![0x03, 0x02]);
}

#[test]
fn engine_unchanged_content_reports_nothing() {
    let mut engine = Engine::new(vec![0x42, 0x43]);
    let r = engine.process_notification(vec![0x42, 0x43]);
    assert_eq!(r.size_change, None);
    assert_eq!(r.entries, Vec::new());
    assert_eq!(engine.snapshot(), &vec![0x42, 0x43]);
}
