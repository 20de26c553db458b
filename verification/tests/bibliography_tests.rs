use paper_pet::bibliography::{inspect, next_label, require_markers};

#[test]
fn inspect_finds_circled_and_bracket() {
    let r = inspect("① 张三\n[2] 李四");
    assert_eq!(r.markers, vec![1, 2]);
    assert!(!r.detached);
}

#[test]
fn labels_follow_scope_not_kind() {
    let mut labels: Vec<String> = Vec::new();
    assert_eq!(next_label(&labels, "all"), "文末文献表");
    labels.push("文末文献表".to_string());
    assert_eq!(next_label(&labels, "all"), "文末文献表 2");
    assert_eq!(next_label(&labels, "current"), "当页脚注 1");
    labels.push("当页脚注 1".to_string());
    assert_eq!(next_label(&labels, "current"), "当页脚注 2");
}

#[test]
fn require_markers_rejects_plain_text() {
    assert!(require_markers("").is_err());
    assert!(require_markers("没有任何编号").is_err());
    assert!(require_markers("① 张三：《题》").is_ok());
}
