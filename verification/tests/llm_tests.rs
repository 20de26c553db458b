use paper_pet::json::{extract_json, JsonField};

fn number_of(fields: &[(String, JsonField)], key: &str) -> Option<i64> {
    fields.iter().find(|(k, _)| k == key).and_then(|(_, v)| match v {
        JsonField::Number { whole, .. } => *whole,
        _ => None,
    })
}

#[test]
fn extracts_plain_json() {
    let v = extract_json(r#"{"a": 1}"#).unwrap();
    assert_eq!(number_of(&v, "a"), Some(1));
}

#[test]
fn extracts_fenced_json() {
    let v = extract_json("好的，结果如下：\n```json\n{\"a\": 2}\n```\n希望有帮助").unwrap();
    assert_eq!(number_of(&v, "a"), Some(2));
}

#[test]
fn extracts_embedded_json() {
    let v = extract_json(r#"结果是 {"a": 3} 这样"#).unwrap();
    assert_eq!(number_of(&v, "a"), Some(3));
}

#[test]
fn returns_none_on_garbage() {
    assert!(extract_json("模型今天不想干活").is_none());
}
