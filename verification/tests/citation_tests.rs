use paper_pet::citation::{
    extract, extract_bibliography_entry, format_citation, from_reference_entry, from_title_content,
    markers, markers_detached_from_text, reattach_detached_markers, DocType, Extracted,
};
use paper_pet::extraction::ExtractStep;
use paper_pet::llm::LlmError;
use paper_pet::store::{Citation, CitationKind};
use paper_pet::styles::apa_single_author;

fn cit(authors: &[&str], title: &str, venue: Option<&str>, year: Option<i64>) -> Citation {
    Citation {
        authors: authors.iter().map(|s| s.to_string()).collect(),
        title: title.to_string(),
        venue: venue.map(String::from),
        year,
        volume: None,
        page: None,
        doi: None,
    }
}

/// Runs extraction as the application does when no model is configured.
fn extract_offline(content: &str, title: Option<&str>, bib: Option<&str>) -> Extracted {
    let mut replies: Vec<Result<String, LlmError>> = Vec::new();
    loop {
        match extract(content, title, bib, &replies) {
            ExtractStep::Ask(_) => replies.push(Err(LlmError::NotConfigured("未配置".to_string()))),
            ExtractStep::Done(x) => return x,
        }
    }
}

#[test]
fn detects_halfwidth_marker() {
    assert!(!markers("已有研究表明[1]，该方法可行").is_empty());
    assert_eq!(markers("见[1]和[2]，还有[1]"), vec![1, 2]);
}

#[test]
fn detects_fullwidth_marker() {
    assert!(!markers("如【3】所述").is_empty());
    assert_eq!(markers("如【3】所述"), vec![3]);
}

#[test]
fn detects_circled_digits() {
    assert_eq!(markers("我国大量劳动者开启居家远程工作模式⑤，"), vec![5]);
    assert_eq!(markers("８４．７％的人在下班后，仍会关注工作相关信息。①"), vec![1]);
}

#[test]
fn detects_circled_digit_ranges() {
    assert_eq!(markers("①⑩⑳"), vec![1, 10, 20]);
    assert_eq!(markers("❶➀➊"), vec![1]);
    assert_eq!(markers("㉑"), vec![21]);
    assert_eq!(markers("㊱"), vec![36]);
    assert_eq!(markers("⑴⑵"), vec![1, 2]);
}

#[test]
fn detects_superscript_markers() {
    assert_eq!(markers("论者有云¹"), vec![1]);
    assert_eq!(markers("论者有云¹²"), vec![12]);
}

#[test]
fn superscript_after_latin_is_not_a_marker() {
    assert!(markers("面积为 x² 平方米").is_empty());
    assert!(markers("体积 cm³").is_empty());
}

#[test]
fn ignores_non_marker_brackets() {
    assert!(markers("这是[注]和[abc]").is_empty());
    assert!(markers("这是[1234]").is_empty());
}

#[test]
fn extracts_bib_entry_by_number() {
    let block = "[1] 张三. 甲[J]. 学报, 2020.\n[2] 李四. 乙[J]. 期刊, 2021.";
    assert_eq!(
        extract_bibliography_entry(block, 2).unwrap(),
        "李四. 乙[J]. 期刊, 2021."
    );
}

#[test]
fn extracts_circled_bib_entry() {
    let block = "① 王健：《必要的消失》，载《法学研究》2023年第2期。\n\
                 ② 李明：《论离线权》，载《中外法学》2022年第4期。\n\
                 ③ 张伟：《数字劳动》，法律出版社2021年版。";
    assert_eq!(
        extract_bibliography_entry(block, 2).unwrap(),
        "李明：《论离线权》，载《中外法学》2022年第4期。"
    );
    assert_eq!(
        extract_bibliography_entry(block, 3).unwrap(),
        "张伟：《数字劳动》，法律出版社2021年版。"
    );
}

#[test]
fn extracts_bib_entry_from_single_line_block() {
    let block = "① 王健：《甲》。② 李明：《乙》。③ 张伟：《丙》。";
    assert_eq!(extract_bibliography_entry(block, 2).unwrap(), "李明：《乙》。");
}

#[test]
fn extracts_last_bib_entry() {
    let block = "[1] 张三. 甲[J]. 学报, 2020.\n[2] 李四. 乙[J]. 期刊, 2021.";
    assert!(extract_bibliography_entry(block, 2).is_some());
    assert!(extract_bibliography_entry(block, 9).is_none());
}

#[test]
fn gbt_journal_format() {
    let c = Citation {
        authors: vec!["张三".into(), "李四".into()],
        title: "标题".into(),
        venue: Some("期刊".into()),
        year: Some(2024),
        volume: Some("3(2)".into()),
        page: Some("15-25".into()),
        doi: None,
    };
    assert_eq!(
        format_citation(&c, "GBT7714", DocType::Journal, Some(1)).unwrap(),
        "[1] 张三, 李四. 标题[J]. 期刊, 2024, 3(2): 15-25."
    );
}

#[test]
fn gbt_omits_missing_fields() {
    let c = cit(&["张三"], "标题", Some("期刊"), Some(2024));
    assert_eq!(
        format_citation(&c, "GBT7714", DocType::Journal, None).unwrap(),
        "张三. 标题[J]. 期刊, 2024."
    );
}

#[test]
fn apa_english_authors() {
    let c = Citation {
        authors: vec!["San Zhang".into(), "Li Li".into()],
        title: "Title".into(),
        venue: Some("Journal".into()),
        year: Some(2024),
        volume: Some("3(2)".into()),
        page: Some("15-25".into()),
        doi: None,
    };
    assert_eq!(
        format_citation(&c, "APA", DocType::Journal, None).unwrap(),
        "Zhang, S., & Li, L. (2024). Title. Journal, 3(2), 15-25."
    );
}

#[test]
fn apa_keeps_chinese_names() {
    assert_eq!(apa_single_author("张三"), "张三");
}

#[test]
fn apa_uses_nd_without_year() {
    let c = cit(&["张三"], "标题", None, None);
    assert!(format_citation(&c, "APA", DocType::Journal, None)
        .unwrap()
        .contains("(n.d.)"));
}

#[test]
fn rejects_empty_title() {
    let c = cit(&[], "", Some("期刊"), Some(2024));
    assert!(format_citation(&c, "GBT7714", DocType::Journal, None).is_err());
}

#[test]
fn detached_markers_are_refused_instead_of_mispaired() {
    let block = "①
②
③
④
⑤
                     A. Valcelaru, The Right to Disconnect, vol. 67, no. 2 (2021), pp. 231-250.
                     石美遐：《非正规就业劳动关系研究》，北京：中国劳动社会保障出版社，2007年，第25页。
                     田野：《劳动法遭遇人工智能》，《苏州大学学报》2018年第6期，第57—64页。
                     参见（2020）沪0118民初437号。
                     参见（2019）京02民终5125号。";

    assert!(markers_detached_from_text(block), "应当认出标记和正文分了家");

    let one = extract_bibliography_entry(block, 1).expect("① 应接到第一条正文");
    assert!(one.contains("Valcelaru"), "{one}");
    let two = extract_bibliography_entry(block, 2).expect("② 应接到石美遐");
    assert!(two.contains("石美遐"), "{two}");
    let five = extract_bibliography_entry(block, 5).expect("⑤ 应接到最后一条");
    assert!(five.contains("京02") || five.contains("5125"), "{five}");
    assert!(!one.contains("石美遐"), "① 不该吞到后面几条：{one}");
}

#[test]
fn wrapped_english_footnote_reattaches_in_order() {
    let block = "①
②
③
④
ＰａｕｌＭ．Ｓｅｃｕｎｄａ，“ＴｈｅＥｍｐｌｏｙｅｅＲｉｇｈｔｔｏＤｉｓｃｏｎｎｅｃｔ，”ＮｏｔｒｅＤａｍｅＪｏｕｒｎａｌｏｆＩｎｔｅｒｎａｔｉｏｎａｌ＆ Ｃｏｍｐａｒａｔｉｖｅ
Ｌａｗ，ｖｏｌ．９，ｎｏ．１（Ｆｅｂｒｕａｒｙ２０１９），ｐｐ．１－３９．
贺丹：《人工智能对劳动就业的影响》，《上海交通 大 学 学 报（哲学社会科学版）》２０２０年 第２８卷 第４期，第２３—
２６页。
李炳安：《我国劳动工时和休息休假制度的价值选择与制度完善》，《社 会 科 学 研 究》２０１７年 第５期，第１０３—
１０９页。
周湖勇、钱伟：《互联网时代劳动者离线权保障探究》，《温州大学学报（社会科学版）》２０１８年第３１卷第５期，第
３—１０页。";

    let one = extract_bibliography_entry(block, 1).unwrap();
    let two = extract_bibliography_entry(block, 2).unwrap();
    let three = extract_bibliography_entry(block, 3).unwrap();
    let four = extract_bibliography_entry(block, 4).unwrap();
    assert!(one.contains("Ｓｅｃｕｎｄａ") || one.contains("Secunda"), "{one}");
    assert!(two.contains("贺丹"), "{two}");
    assert!(three.contains("李炳安"), "{three}");
    assert!(four.contains("周湖勇"), "{four}");
    assert!(!one.contains("贺丹"), "① 不该接到贺丹：{one}");
}

#[test]
fn unsplittable_detached_block_still_refused() {
    let block = "①
②
③
这是分不开的一整段文字里面混着好几条文献。";
    assert!(reattach_detached_markers(block).is_none());
    assert_eq!(extract_bibliography_entry(block, 1), None);
    assert_eq!(extract_bibliography_entry(block, 3), None);
}

#[test]
fn normal_block_is_not_mistaken_for_detached() {
    let block = "①张三：《甲》，2020年。
②李四：《乙》，2021年。
③王五：《丙》，2022年。";
    assert!(!markers_detached_from_text(block));
    assert!(extract_bibliography_entry(block, 2).unwrap().contains("李四"));
}

#[test]
fn single_marker_on_its_own_line_is_tolerated() {
    let block = "①
张三：《甲》，2020年。
②李四：《乙》，2021年。";
    assert!(!markers_detached_from_text(block));
    assert!(extract_bibliography_entry(block, 1).unwrap().contains("张三"));
}

#[test]
fn heuristic_parses_reference_entry() {
    let c = from_reference_entry("张三, 李四. 深度学习方法综述[J]. 计算机学报, 2021, 44(3): 15-25.").unwrap();
    assert_eq!(c.authors, vec!["张三", "李四"]);
    assert_eq!(c.title, "深度学习方法综述");
    assert_eq!(c.venue.as_deref(), Some("计算机学报"));
    assert_eq!(c.year, Some(2021));
    assert_eq!(c.page.as_deref(), Some("15-25"));
}

#[test]
fn parses_chinese_journal_note() {
    let c = from_reference_entry(
        "张伟、陈静：《居家办公模式下劳动者权益保护研究》，载《法学研究》2023 年第 2 期，第 55-72 页。",
    )
    .unwrap();
    assert_eq!(c.authors, vec!["张伟", "陈静"]);
    assert_eq!(c.title, "居家办公模式下劳动者权益保护研究");
    assert_eq!(c.venue.as_deref(), Some("法学研究"));
    assert_eq!(c.year, Some(2023));
    assert_eq!(c.volume.as_deref(), Some("(2)"));
    assert_eq!(c.page.as_deref(), Some("55-72"));
}

#[test]
fn parses_chinese_book_note() {
    let c = from_reference_entry("王健：《数字劳动论》，法律出版社 2021 年版，第 10 页。").unwrap();
    assert_eq!(c.authors, vec!["王健"]);
    assert_eq!(c.title, "数字劳动论");
    assert_eq!(c.venue.as_deref(), Some("法律出版社"));
    assert_eq!(c.year, Some(2021));
    assert_eq!(c.page.as_deref(), Some("10"));
}

#[test]
fn strips_citation_prefix_words() {
    let c = from_reference_entry(
        "参见李明：《数字通信设备与工作边界的消解》，载《中外法学》2022 年第 4 期，第 30-45 页。",
    )
    .unwrap();
    assert_eq!(c.authors, vec!["李明"], "「参见」不该被当成作者");
    assert_eq!(c.title, "数字通信设备与工作边界的消解");
}

#[test]
fn chinese_note_formats_to_gbt7714() {
    let c = from_reference_entry(
        "张伟、陈静：《居家办公模式下劳动者权益保护研究》，载《法学研究》2023 年第 2 期，第 55-72 页。",
    )
    .unwrap();
    assert_eq!(
        format_citation(&c, "GBT7714", DocType::detect("载《法学研究》2023年第2期"), Some(5)).unwrap(),
        "[5] 张伟, 陈静. 居家办公模式下劳动者权益保护研究[J]. 法学研究, 2023(2): 55-72."
    );
}

#[test]
fn detects_book_by_publisher() {
    assert_eq!(
        DocType::detect("王健：《数字劳动论》，法律出版社 2021 年版，第 10 页。"),
        DocType::Book
    );
    assert_eq!(
        DocType::detect("李明：《论离线权》，载《中外法学》2022 年第 4 期。"),
        DocType::Journal
    );
}

#[test]
fn doc_type_not_polluted_by_note_body() {
    let entry = "李明：《论离线权》，载《中外法学》2022 年第 4 期，第 30-45 页。";
    let note_body = "如文献[1]所述，参见某专著[M]，另有网页 http://x.com 可查。";
    assert_eq!(DocType::detect(entry), DocType::Journal);
    assert_eq!(DocType::detect(note_body), DocType::Book, "这条本身确实是专著型正文");
    assert_eq!(DocType::detect(entry), DocType::Journal, "文献类型不受正文影响");
}

#[test]
fn heuristic_falls_back_for_title_only() {
    let c = from_title_content("某某研究", "正文提到 2023 年的工作").unwrap();
    assert_eq!(c.title, "某某研究");
    assert_eq!(c.year, Some(2023));
}

#[test]
fn extract_returns_none_without_title() {
    let r = extract_offline("一段没有标记的正文", None, None);
    assert_eq!(r.kind, CitationKind::NoCitation);
    assert!(r.citation.is_none());
}

#[test]
fn extract_uses_cited_paper_when_bib_present() {
    let block = "[1] 王五. 某某研究[J]. 某学报, 2019, 1(1): 1-9.";
    let r = extract_offline("如前所述[1]，该结论成立", Some("当前文章"), Some(block));
    assert_eq!(r.kind, CitationKind::CitedPaper);
    assert_eq!(r.citation.unwrap().title, "某某研究");
}

#[test]
fn extract_falls_back_to_current_paper_without_bib() {
    let r = extract_offline("如前所述[1]，该结论成立", Some("某某会议论文"), None);
    assert_eq!(r.kind, CitationKind::CurrentPaper);
    assert_eq!(r.citation.unwrap().title, "某某会议论文");
}
