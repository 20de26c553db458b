use paper_pet::bibliography::{capture_plan, key_of, normalize_scope};
use paper_pet::citation::{format_citation, scan_markers, scan_markers_from, DocType, Extracted};
use paper_pet::commands::{check_chunk_owner, citation_text, override_target};
use paper_pet::copypairs::{build, reference_line, unresolved_line, PairBlock};
use paper_pet::export::{check_exportable, render_markdown};
use paper_pet::json::parse_citation_json;
use paper_pet::library::{group_into_papers, group_notes, PaperData};
use paper_pet::json::{authors_column, authors_of_column};
use paper_pet::llm::{config_from_json, not_configured, reply_from_content, reply_of, LlmConfig, LlmError};
use paper_pet::monitor::{poll, Watch, WatchAction};
use paper_pet::records::{dedup_keys, is_current_rule, next_note_id, rekey_plan};
use paper_pet::references::{references_step, RefStep};
use paper_pet::source::{classify_lowered, normalize_for_match, strip_title_suffix, strip_whitespace};
use paper_pet::store::{
    unknown_key, BibChunk, Citation, CitationKind, DeletedRows, Note, ReferenceItem,
};
use paper_pet::undo::{label_for_paper, UndoState};

fn cit(title: &str) -> Citation {
    Citation {
        authors: vec!["王健".to_string()],
        title: title.to_string(),
        venue: Some("软件学报".to_string()),
        year: Some(2024),
        volume: None,
        page: None,
        doi: None,
    }
}

fn note(id: i64, content: &str, key: &str, created_at: &str) -> Note {
    Note {
        id,
        content: content.to_string(),
        source_title: Some(key.to_string()),
        source_type: None,
        citation: None,
        citation_kind: CitationKind::NoCitation,
        created_at: created_at.to_string(),
        has_marker: false,
        paper_key: key.to_string(),
        bib_chunk_id: None,
    }
}

#[test]
fn unmatched_marker_ignores_the_paper_being_read() {
    let b = PairBlock {
        content: "曲线②".to_string(),
        references: vec![ReferenceItem {
            marker: "②".to_string(),
            kind: CitationKind::Unresolved,
            citation: None,
        }],
        has_marker: true,
        found_in: Some(cit("正在读的这篇")),
        display_title: "标题".to_string(),
    };
    assert_eq!(reference_line(&b, Some(2), "GBT7714"), unresolved_line());
    assert_eq!(reference_line(&b, None, "GBT7714"), unresolved_line());
}

#[test]
fn markers_without_bibliography_stay_unmatched() {
    let mut n = note(1, "见①和②，又见①", "k", "2024");
    n.has_marker = true;
    let overrides = vec![((0i64, 2i64), cit("手填的那篇"))];
    match references_step(&n, &Vec::new(), &overrides, &Vec::new()) {
        RefStep::Done(items) => {
            assert_eq!(items.len(), 2);
            assert_eq!(items[0].marker, "①");
            assert_eq!(items[0].kind, CitationKind::Unresolved);
            assert!(items[0].citation.is_none());
            assert_eq!(items[1].kind, CitationKind::Manual);
            assert_eq!(items[1].citation.as_ref().unwrap().title, "手填的那篇");
        }
        RefStep::Ask(_) => panic!("no bibliography, nothing to ask"),
    }
}

#[test]
fn references_ask_the_model_for_bound_entries() {
    let mut n = note(1, "见①", "k", "2024");
    n.bib_chunk_id = Some(7);
    let chunks = vec![BibChunk {
        id: 7,
        paper_key: "k".to_string(),
        raw_text: "① 张三：《甲》，2020年。".to_string(),
        label: "文末文献表".to_string(),
        created_at: String::new(),
        updated_at: String::new(),
    }];
    match references_step(&n, &chunks, &Vec::new(), &Vec::new()) {
        RefStep::Ask(q) => assert_eq!(q.user, "张三：《甲》，2020年。"),
        RefStep::Done(_) => panic!("the entry must be asked about first"),
    }
    let replies = vec![Ok(r#"{"title": "甲", "authors": ["张三"], "year": 2020}"#.to_string())];
    match references_step(&n, &chunks, &Vec::new(), &replies) {
        RefStep::Done(items) => {
            assert_eq!(items.len(), 1);
            assert_eq!(items[0].kind, CitationKind::CitedPaper);
            let c = items[0].citation.as_ref().unwrap();
            assert_eq!(c.title, "甲");
            assert_eq!(c.year, Some(2020));
        }
        RefStep::Ask(_) => panic!("one reply is enough"),
    }
}

#[test]
fn apa_does_not_use_the_sequence_number() {
    let c = cit("必要的消失");
    assert_eq!(
        format_citation(&c, "APA", DocType::Journal, Some(3)),
        format_citation(&c, "APA", DocType::Journal, None)
    );
    assert_eq!(
        format_citation(&c, "APA", DocType::Thesis, None).unwrap(),
        "王健 (2024). 必要的消失. [Doctoral dissertation] 软件学报."
    );
}

#[test]
fn blank_title_and_unknown_format_are_refused() {
    let c = cit("   ");
    assert_eq!(
        format_citation(&c, "APA", DocType::Journal, None).unwrap_err(),
        "该条笔记未生成引用"
    );
    assert_eq!(
        format_citation(&cit("题"), "MLA", DocType::Journal, None).unwrap_err(),
        "不支持的引用格式: MLA"
    );
}

#[test]
fn gbt_with_doi_and_issue_only_volume() {
    let mut c = cit("题目.");
    c.volume = Some("(2)".to_string());
    c.page = Some("1-9".to_string());
    c.doi = Some("10.1000/x".to_string());
    assert_eq!(
        format_citation(&c, "GBT7714", DocType::Journal, Some(12)).unwrap(),
        "[12] 王健. 题目[J]. 软件学报, 2024(2): 1-9. DOI: 10.1000/x."
    );
    assert_eq!(
        format_citation(&c, "GBT7714", DocType::Book, None).unwrap(),
        "王健. 题目[M]. 软件学报, 2024. DOI: 10.1000/x."
    );
}

#[test]
fn papers_are_newest_first_and_grouped_by_key() {
    let notes = vec![
        note(3, "甲的第二条", "甲", "2024-03-01"),
        note(2, "乙", "乙", "2024-05-01"),
        note(1, "甲的第一条", "甲", "2024-01-01"),
    ];
    let groups = group_notes(&notes);
    assert_eq!(groups.len(), 2);
    assert_eq!(groups[0].key, "甲");
    assert_eq!(groups[0].members, vec![0, 2]);
    assert_eq!(groups[1].members, vec![1]);

    let data = vec![PaperData {
        key: "甲".to_string(),
        found_in: Some(cit("甲的正式标题")),
        found_in_manual: true,
        chunks: Vec::new(),
    }];
    let papers = group_into_papers(&notes, &Vec::new(), &data);
    assert_eq!(papers.len(), 2);
    assert_eq!(papers[0].key, "乙");
    assert_eq!(papers[0].last_at, "2024-05-01");
    assert_eq!(papers[1].key, "甲");
    assert_eq!(papers[1].last_at, "2024-03-01");
    assert_eq!(papers[1].display_title, "甲的正式标题");
    assert!(papers[1].found_in_manual);
    assert_eq!(papers[1].excerpts.len(), 2);
    assert_eq!(papers[1].excerpts[0].id, 3);
    assert!(papers[1].bib_ready);
}

#[test]
fn notes_without_title_never_merge() {
    assert_ne!(unknown_key(1), unknown_key(2));
    assert!(unknown_key(5).starts_with('\u{0}'));
}

#[test]
fn undo_failure_keeps_the_action() {
    let mut u = UndoState::new();
    assert_eq!(u.begin_undo().unwrap_err(), "没有可撤销的操作");
    let rows = DeletedRows {
        delete_chunk_ids: vec![4],
        ..Default::default()
    };
    u.record(&label_for_paper(3), rows);
    let p = u.begin_undo().unwrap();
    assert_eq!(p.label, "已恢复这篇文章（3 条摘录）");
    assert_eq!(u.finish_undo(p, Err("磁盘满".to_string())).unwrap_err(), "磁盘满");
    let p = u.begin_undo().unwrap();
    assert_eq!(u.finish_undo(p, Ok(())).unwrap(), "已恢复这篇文章（3 条摘录）");
    assert!(u.take().is_none());
    assert_eq!(label_for_paper(1), "已恢复这篇文章");
}

#[test]
fn copying_refuses_empty_or_missing_excerpts() {
    assert_eq!(build(&Vec::new(), "GBT7714").unwrap_err(), "没有可复制的摘录");
    assert_eq!(build(&vec![None], "GBT7714").unwrap_err(), "包含已删除的摘录");
    let b = PairBlock {
        content: "一句话".to_string(),
        references: Vec::new(),
        has_marker: false,
        found_in: None,
        display_title: "标题".to_string(),
    };
    let c = PairBlock {
        content: "二句话".to_string(),
        references: Vec::new(),
        has_marker: false,
        found_in: None,
        display_title: "标题".to_string(),
    };
    assert_eq!(
        build(&vec![Some(b), Some(c)], "GBT7714").unwrap(),
        "摘录：一句话\n参考：未识别当前文献\n\n摘录：二句话\n参考：未识别当前文献"
    );
}

#[test]
fn capture_checks_title_text_and_owner() {
    assert_eq!(key_of("  ").unwrap_err(), "无法确定所属文章");
    assert_eq!(
        capture_plan("某篇", "没有编号", "all", Some("某篇".to_string())).unwrap_err(),
        "还没认出任何标记"
    );
    assert_eq!(capture_plan("某篇", "① 甲", "all", None).unwrap_err(), "摘录不存在");
    assert_eq!(
        capture_plan("某篇", "① 甲", "all", Some("别篇".to_string())).unwrap_err(),
        "摘录不属于这篇文章"
    );
    let key = normalize_for_match("某篇");
    let plan = capture_plan("某篇", "  ① 甲  ", "whatever", Some(key.clone())).unwrap();
    assert_eq!(plan.key, key);
    assert_eq!(plan.text, "① 甲");
    assert_eq!(plan.scope, "current");
    assert_eq!(normalize_scope("all"), "all");
}

#[test]
fn corrections_need_a_title_and_their_own_chunk() {
    assert_eq!(
        override_target(Some(3), Some("②"), &cit("  ")).unwrap_err(),
        "标题不能为空"
    );
    let t = override_target(Some(3), Some("②"), &cit("题")).unwrap();
    assert_eq!((t.bib_chunk_id, t.ref_num), (3, 2));
    let t = override_target(Some(3), None, &cit("题")).unwrap();
    assert_eq!((t.bib_chunk_id, t.ref_num), (0, 0));
    let chunk = BibChunk {
        id: 3,
        paper_key: "甲".to_string(),
        raw_text: String::new(),
        label: String::new(),
        created_at: String::new(),
        updated_at: String::new(),
    };
    assert!(check_chunk_owner("甲", &Some(chunk.clone())).is_ok());
    assert_eq!(check_chunk_owner("乙", &Some(chunk)).unwrap_err(), "文献表不存在");
    assert_eq!(check_chunk_owner("乙", &None).unwrap_err(), "文献表不存在");
}

#[test]
fn citation_text_numbers_cited_papers_and_explains_failures() {
    let x = Extracted {
        citation: None,
        kind: CitationKind::NoCitation,
        reason: Some("无法识别来源".to_string()),
        doc_type_hint: None,
    };
    assert_eq!(
        citation_text(&x, "正文", "GBT7714").unwrap_err(),
        "该条笔记未生成引用：无法识别来源"
    );
    let x = Extracted {
        citation: Some(cit("某某研究")),
        kind: CitationKind::CitedPaper,
        reason: None,
        doc_type_hint: Some("[2] 王健. 某某研究[J]. 软件学报, 2024.".to_string()),
    };
    assert_eq!(
        citation_text(&x, "如前所述[2]", "GBT7714").unwrap(),
        "[2] 王健. 某某研究[J]. 软件学报, 2024."
    );
}

#[test]
fn model_replies_are_read_or_refused() {
    assert_eq!(
        reply_of(true, "200 OK", r#"{"choices":[{"message":{"content":"你好"}}]}"#).unwrap(),
        "你好"
    );
    match reply_of(false, "404 Not Found", "没有这个模型") {
        Err(LlmError::Failed(m)) => assert_eq!(m, "HTTP 404 Not Found: 没有这个模型"),
        _ => panic!("an HTTP error is a failure"),
    }
    match reply_of(true, "200 OK", r#"{"choices":[]}"#) {
        Err(LlmError::Failed(m)) => assert_eq!(m, "响应里没有 choices[0].message.content"),
        _ => panic!("a reply without content is a failure"),
    }
    match reply_of(true, "200 OK", "不是 JSON") {
        Err(LlmError::Failed(m)) => assert!(m.starts_with("响应不是合法 JSON: "), "{m}"),
        _ => panic!("a reply that is not JSON is a failure"),
    }
    match reply_from_content(Err("expected value".to_string())) {
        Err(LlmError::Failed(m)) => assert_eq!(m, "响应不是合法 JSON: expected value"),
        _ => panic!("a parse error is a failure"),
    }
    assert_eq!(reply_from_content(Ok(Some("内容".to_string()))).unwrap(), "内容");
    match not_configured() {
        LlmError::NotConfigured(m) => assert!(m.contains("PAPER_PET_API_KEY")),
        _ => panic!(),
    }
    assert_eq!(not_configured().to_string(), format!("LLM 未配置: {}", match not_configured() {
        LlmError::NotConfigured(m) => m,
        _ => String::new(),
    }));
}

#[test]
fn config_needs_a_key_and_fills_defaults() {
    assert!(LlmConfig::from_values(Some("  ".to_string()), None, None).is_none());
    let c = LlmConfig::from_values(Some(" k ".to_string()), Some(" ".to_string()), None).unwrap();
    assert_eq!(c.api_key, "k");
    assert_eq!(c.base_url, "https://api.openai.com/v1");
    assert_eq!(c.model, "gpt-4o-mini");
    assert_eq!(c.timeout_secs, 20);
    assert_eq!(
        paper_pet::llm::completion_url("https://x.example/v1//"),
        "https://x.example/v1/chat/completions"
    );
}

#[test]
fn json_citation_fields_are_cleaned() {
    let c = parse_citation_json(
        r#"```json
{"title": " 标题 ", "authors": [" 甲 ", "", 3], "venue": "null", "year": 2021, "volume": 12, "doi": " "}
```"#,
    )
    .unwrap();
    assert_eq!(c.title, "标题");
    assert_eq!(c.authors, vec!["甲"]);
    assert_eq!(c.venue, None);
    assert_eq!(c.year, Some(2021));
    assert_eq!(c.volume.as_deref(), Some("12"));
    assert_eq!(c.doi, None);
    assert!(parse_citation_json(r#"{"title": null}"#).is_none());
}

#[test]
fn the_watch_skips_repeats_and_own_writes() {
    let mut w = Watch::new(Some("旧的".to_string()));
    let mut own: Option<String> = Some("我们写的".to_string());
    let a = poll(&mut w, Some("某篇论文".to_string()), Some("旧的".to_string()), &mut own, false);
    assert!(matches!(a, WatchAction::Skip));
    let a = poll(&mut w, None, Some("我们写的".to_string()), &mut own, false);
    assert!(matches!(a, WatchAction::Skip));
    assert!(own.is_none());
    let a = poll(&mut w, None, Some("新摘录".to_string()), &mut own, false);
    match a {
        WatchAction::Save { content, source_title } => {
            assert_eq!(content, "新摘录");
            assert_eq!(source_title.as_deref(), Some("某篇论文"));
        }
        _ => panic!("a new copy is saved"),
    }
    let a = poll(&mut w, None, Some("贴进来的文献表".to_string()), &mut own, true);
    assert!(matches!(a, WatchAction::BibPaste(t) if t == "贴进来的文献表"));
    let a = poll(&mut w, None, Some(String::new()), &mut own, false);
    assert!(matches!(a, WatchAction::Skip));
}

#[test]
fn stored_rows_and_ids() {
    assert_eq!(next_note_id(100, Some(150)), 151);
    assert_eq!(next_note_id(200, Some(150)), 200);
    assert_eq!(next_note_id(200, None), 200);
    assert!(is_current_rule(Some("6")));
    assert!(is_current_rule(Some("+06")));
    assert!(!is_current_rule(Some("5")));
    assert!(!is_current_rule(Some("66")));
    assert!(!is_current_rule(None));
    let keys = vec!["b".to_string(), "a".to_string(), "b".to_string()];
    assert_eq!(dedup_keys(&keys), vec!["b", "a"]);
    let rows = vec![
        (1, Some("(3) 某某研究".to_string()), Some("旧键".to_string())),
        (2, None, None),
        (3, Some("某某研究".to_string()), Some("某某研究".to_string())),
    ];
    let (updates, moves) = rekey_plan(&rows);
    assert_eq!(updates.len(), 2);
    assert_eq!(updates[0], (1, "某某研究".to_string()));
    assert_eq!(updates[1], (2, unknown_key(2)));
    assert_eq!(moves, vec![("旧键".to_string(), "某某研究".to_string())]);
}

#[test]
fn markdown_groups_pairs_under_papers() {
    let notes = vec![note(1, "一句话", "甲", "2024")];
    let papers = group_into_papers(&notes, &Vec::new(), &Vec::new());
    let md = render_markdown(&papers, &vec!["摘录：一句话\n参考：未识别当前文献  ".to_string()]);
    assert_eq!(md, "# 论文笔记库\n\n## 甲\n\n摘录：一句话\n参考：未识别当前文献\n\n");
    assert!(check_exportable(0).is_err());
    assert!(check_exportable(2).is_ok());
}

#[test]
fn titles_lose_their_application_suffix() {
    assert_eq!(strip_title_suffix("论文.PDF - WPS Office"), "论文");
    assert_eq!(normalize_for_match("Deep Learning - Firefox"), "deeplearning");
}

#[test]
fn lowered_titles_are_classified_and_keys_lose_spaces() {
    assert_eq!(classify_lowered("ieee transactions on x - edge"), "webpage");
    assert_eq!(classify_lowered("ieee transactions on x"), "literature");
    assert_eq!(classify_lowered("IEEE"), "unknown");
    assert_eq!(strip_whitespace(" a b\tc\n"), "abc");
}

#[test]
fn markers_are_read_from_given_matches_and_types_from_upper_text() {
    let text = "见[3]与¹²";
    let found = scan_markers(text);
    let nums: Vec<u32> = found.iter().map(|m| m.num).collect();
    assert_eq!(nums, vec![3, 12]);
    assert_eq!((found[0].start, found[0].end), (3, 6));
    let without_brackets = scan_markers_from(text, &vec![]);
    let nums: Vec<u32> = without_brackets.iter().map(|m| m.num).collect();
    assert_eq!(nums, vec![12]);
    let given = scan_markers_from(text, &vec![(3, 6, Some((4, 5)))]);
    assert_eq!(given.len(), 2);
    assert_eq!(DocType::from_upper_text("SOME [D] THESIS"), DocType::Thesis);
    assert_eq!(DocType::from_upper_text("参见 HTTP://X.COM"), DocType::Web);
    assert_eq!(DocType::from_marker_text("参见 http://x.com"), DocType::Web);
    assert_eq!(DocType::from_marker_text("Oxford University Press, 2019"), DocType::Book);
    assert_eq!(DocType::from_marker_text("Proceedings of X"), DocType::Conference);
    assert_eq!(DocType::from_marker_text("PhD dissertation"), DocType::Thesis);
    assert_eq!(DocType::from_marker_text("see [EB/OL] page"), DocType::Web);
}

#[test]
fn other_bibliographies_are_never_read() {
    let chunk = |id: i64, raw: &str| BibChunk {
        id,
        paper_key: "k".to_string(),
        raw_text: raw.to_string(),
        label: format!("第{id}份"),
        created_at: String::new(),
        updated_at: String::new(),
    };
    let mut n = note(1, "见①", "k", "2024");
    n.bib_chunk_id = Some(8);
    let only_other = vec![chunk(7, "① 张三：《甲》，2020年。"), chunk(8, "没有编号的文字")];
    match references_step(&n, &only_other, &Vec::new(), &Vec::new()) {
        RefStep::Done(items) => assert_eq!(items[0].kind, CitationKind::Unresolved),
        RefStep::Ask(_) => panic!("the bound chunk has no entry ①"),
    }
    let both = vec![chunk(7, "① 张三：《甲》，2020年。"), chunk(8, "① 李四：《乙》，2021年。")];
    let bound_only = vec![chunk(8, "① 李四：《乙》，2021年。")];
    for cs in [&both, &bound_only] {
        match references_step(&n, cs, &Vec::new(), &Vec::new()) {
            RefStep::Ask(q) => assert_eq!(q.user, "李四：《乙》，2021年。"),
            RefStep::Done(_) => panic!("the bound entry is asked about"),
        }
    }
}

#[test]
fn untitled_notes_get_distinct_keys() {
    assert_ne!(unknown_key(1), unknown_key(-1));
    assert_ne!(unknown_key(12), unknown_key(1));
    assert_eq!(unknown_key(12), "\0unknown:12");
}

#[test]
fn config_file_text_is_read_into_settings() {
    let c = config_from_json(r#"{"api_key": " sk-1 ", "model": "m2", "base_url": ""}"#).unwrap();
    assert_eq!(c.api_key, "sk-1");
    assert_eq!(c.model, "m2");
    assert_eq!(c.base_url, "https://api.openai.com/v1");
    assert_eq!(c.timeout_secs, 20);
    assert!(config_from_json(r#"{"api_key": "  "}"#).is_none());
    assert!(config_from_json(r#"{"api_key": 5}"#).is_none());
    assert!(config_from_json(r#"{"model": "m"}"#).is_none());
    assert!(config_from_json("not json").is_none());
}

#[test]
fn authors_column_round_trips() {
    let v = vec!["王健".to_string(), "Li, M.".to_string()];
    let col = authors_column(&v);
    assert_eq!(col, r#"["王健","Li, M."]"#);
    assert_eq!(authors_of_column(Some(col)), v);
    assert!(authors_of_column(None).is_empty());
    assert!(authors_of_column(Some("oops".to_string())).is_empty());
    assert!(authors_of_column(Some("[1]".to_string())).is_empty());
}

#[test]
fn marker_lists_entries_and_titles_keep_their_shape() {
    let nums = paper_pet::citation::markers("见[2]和①，又见[2]");
    assert_eq!(nums, vec![2, 1]);
    assert!(paper_pet::citation::markers("没有角标").is_empty());
    let block = "[1] 张三. 甲[J]. 软件学报, 2020.\n[2]   李四. 乙[M]. 北京: 科学出版社, 2019.  ";
    let e = paper_pet::citation::extract_bibliography_entry(block, 2).unwrap();
    assert_eq!(e, e.trim());
    assert!(!e.is_empty());
    assert!(paper_pet::citation::extract_bibliography_entry(block, 3).is_none());
    let err: Result<String, LlmError> = Err(LlmError::Failed("x".to_string()));
    let a = paper_pet::citation::extract_citation_from_entry(&e, &err).unwrap();
    let b = paper_pet::citation::from_reference_entry(&e).unwrap();
    assert_eq!(a.title, b.title);
    assert_eq!(a.title, a.title.trim());
    assert_eq!(
        paper_pet::store::paper_key_of(Some("◑ 项目实现方案评估")),
        paper_pet::store::paper_key_of(Some("◐ 项目实现方案评估"))
    );
    assert!(paper_pet::store::paper_key_of(Some("   ")).is_none());
    assert!(!paper_pet::store::paper_key_of(Some(" x ")).unwrap().is_empty());
}

#[test]
fn scanned_numerals_read_back_and_detached_blocks_are_marker_pairs() {
    let text = "见[12]、①和x²以及²³【3】";
    for m in scan_markers(text) {
        let t = &text[m.start..m.end];
        assert_eq!(paper_pet::citation::marker_number(t), Some(m.num));
    }
    assert!(paper_pet::citation::markers_detached_from_text("①\n\n②\n张三. 甲.\n李四. 乙."));
    assert!(!paper_pet::citation::markers_detached_from_text("①\n张三. 甲.\n②\n李四. 乙."));
}

#[test]
fn authors_column_escapes_like_json() {
    let v = vec!["a\"b\\c\n\u{1}é".to_string(), String::new()];
    assert_eq!(authors_column(&v), "[\"a\\\"b\\\\c\\n\\u0001é\",\"\"]");
    assert_eq!(authors_column(&Vec::new()), "[]");
    assert_eq!(authors_of_column(Some(authors_column(&v))), v);
}
