use paper_pet::store::DeletedRows;
use paper_pet::undo::{label_for_notes, UndoState};

fn rows_with_notes(n: usize) -> DeletedRows {
    DeletedRows {
        delete_chunk_ids: (0..n as i64).collect(),
        ..Default::default()
    }
}

#[test]
fn empty_snapshot_clears_the_slot() {
    let mut u = UndoState::new();
    u.record("已删除这篇文章", rows_with_notes(1));
    u.record("重新收录", DeletedRows::default());
    assert!(u.take().is_none(), "空快照必须把槽清掉");
}

#[test]
fn newer_action_replaces_older() {
    let mut u = UndoState::new();
    u.record("第一次", rows_with_notes(1));
    u.record("第二次", rows_with_notes(1));
    assert_eq!(u.take().map(|p| p.label).as_deref(), Some("第二次"));
}

#[test]
fn take_empties_the_slot() {
    let mut u = UndoState::new();
    u.record("一次", rows_with_notes(1));
    assert!(u.take().is_some());
    assert!(u.take().is_none());
}

#[test]
fn labels_read_naturally() {
    assert_eq!(label_for_notes(1), "已恢复这条摘录");
    assert_eq!(label_for_notes(3), "已恢复 3 条摘录");
}
