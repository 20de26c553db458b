use paper_pet::llm::LlmError;
use paper_pet::references::{references_step, RefStep};
use paper_pet::store::{BibChunk, Citation, CitationKind, Note, ReferenceItem};

fn note(id: i64, content: &str, key: &str, chunk: Option<i64>) -> Note {
    Note {
        id,
        content: content.to_string(),
        source_title: Some("必要的消失：论劳动者的离线权".to_string()),
        source_type: Some("literature".to_string()),
        citation: None,
        citation_kind: CitationKind::NoCitation,
        created_at: "2024-01-01T00:00:00+08:00".to_string(),
        has_marker: true,
        paper_key: key.to_string(),
        bib_chunk_id: chunk,
    }
}

fn chunk(id: i64, key: &str, raw: &str, label: &str) -> BibChunk {
    BibChunk {
        id,
        paper_key: key.to_string(),
        raw_text: raw.to_string(),
        label: label.to_string(),
        created_at: "2024-01-01T00:00:00+08:00".to_string(),
        updated_at: "2024-01-01T00:00:00+08:00".to_string(),
    }
}

/// Works out references as the application does when no model is
/// configured.
fn references_offline(
    n: &Note,
    chunks: &Vec<BibChunk>,
    overrides: &Vec<((i64, i64), Citation)>,
) -> Vec<ReferenceItem> {
    let mut replies: Vec<Result<String, LlmError>> = Vec::new();
    loop {
        match references_step(n, chunks, overrides, &replies) {
            RefStep::Ask(_) => replies.push(Err(LlmError::NotConfigured("未配置".to_string()))),
            RefStep::Done(items) => return items,
        }
    }
}

#[test]
fn bound_chunk_does_not_steal_another_pages_one() {
    let key = "必要的消失：论劳动者的离线权";
    let a = note(1, "第3页说①", key, Some(10));
    let b = note(2, "第7页也说①", key, Some(11));
    let chunks = vec![
        chunk(10, key, "① 张伟栋：《欧盟工作时间规制》，载《法学研究》2021年第2期。", "当页脚注 1"),
        chunk(
            11,
            key,
            "① 刘黄丽娟：《数位科技对工作世界的挑战》，载《中外法学》2020年第1期。",
            "当页脚注 2",
        ),
    ];
    let overrides: Vec<((i64, i64), Citation)> = Vec::new();

    let ra = references_offline(&a, &chunks, &overrides);
    let rb = references_offline(&b, &chunks, &overrides);
    assert_eq!(ra.len(), 1);
    assert_eq!(rb.len(), 1);
    assert_eq!(ra[0].kind, CitationKind::CitedPaper);
    assert_eq!(rb[0].kind, CitationKind::CitedPaper);
    let ta = ra[0].citation.as_ref().unwrap().title.clone();
    let tb = rb[0].citation.as_ref().unwrap().title.clone();
    assert!(ta.contains("欧盟") || ta.contains("工作时间"), "{ta}");
    assert!(tb.contains("数位") || tb.contains("挑战"), "{tb}");
    assert_ne!(ta, tb);
}
