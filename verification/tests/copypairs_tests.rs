use paper_pet::copypairs::{render_block, PairBlock};
use paper_pet::store::{Citation, CitationKind, ReferenceItem};

fn cit(authors: &[&str], title: &str, year: Option<i64>) -> Citation {
    Citation {
        authors: authors.iter().map(|s| s.to_string()).collect(),
        title: title.to_string(),
        venue: Some("软件学报".to_string()),
        year,
        volume: Some("32(3)".to_string()),
        page: Some("15-25".to_string()),
        doi: None,
    }
}

fn block(content: &str, refs: Vec<ReferenceItem>, has_marker: bool) -> PairBlock {
    PairBlock {
        content: content.to_string(),
        references: refs,
        has_marker,
        found_in: None,
        display_title: "某篇长标题".to_string(),
    }
}

fn cited(marker: &str, authors: &[&str], title: &str, year: i64) -> ReferenceItem {
    ReferenceItem {
        marker: marker.to_string(),
        kind: CitationKind::CitedPaper,
        citation: Some(cit(authors, title, Some(year))),
    }
}

#[test]
fn unresolved_never_borrows_current_paper_citation() {
    let b = block(
        "走出一条教科书无法书写的传播曲线②",
        vec![ReferenceItem {
            marker: "②".to_string(),
            kind: CitationKind::Unresolved,
            citation: None,
        }],
        true,
    );
    let out = render_block(&b, "GBT7714");
    assert!(out.starts_with("摘录："), "{out}");
    assert!(out.contains("参考：还没对上"), "{out}");
    assert!(!out.contains("参考：②"), "角标已经在摘录里，参考行不再重复：{out}");
    assert!(!out.contains("软件学报"), "不该出现任何看起来完整的引用串");
}

#[test]
fn unresolved_mentions_bib_when_missing() {
    let b = block(
        "走出一条教科书无法书写的传播曲线②",
        vec![ReferenceItem {
            marker: "②".to_string(),
            kind: CitationKind::Unresolved,
            citation: None,
        }],
        true,
    );
    let out = render_block(&b, "GBT7714");
    assert!(out.contains("请把这条摘录绑定的文献表贴进来"), "{out}");
}

#[test]
fn cited_paper_omits_marker_on_reference_line() {
    let b = block(
        "走出一条教科书无法书写的传播曲线②",
        vec![cited("②", &["李四", "王五"], "深度学习综述", 2021)],
        true,
    );
    let out = render_block(&b, "GBT7714");
    assert!(out.contains("摘录：走出一条教科书无法书写的传播曲线②"), "{out}");
    assert!(out.contains("参考：李四, 王五."), "{out}");
    assert!(!out.contains("参考：②"), "{out}");
    assert!(!out.contains("参考：[2]"), "{out}");
    assert!(out.contains("读自：某篇长标题"), "{out}");
    assert!(!out.contains("关系："), "{out}");
}

#[test]
fn no_marker_omits_read_from() {
    let mut b = block("所谓离线权，并不是拒绝工作。", vec![], false);
    b.found_in = Some(cit(&["王健"], "必要的消失", Some(2024)));
    let out = render_block(&b, "GBT7714");
    assert!(!out.contains("读自"), "无标记不该出读自：{out}");
    assert!(out.contains("摘录：所谓离线权，并不是拒绝工作。"), "{out}");
    let ref_line = out
        .lines()
        .find(|l| l.starts_with("参考："))
        .expect("应该有参考行");
    assert_eq!(ref_line, "参考：王健. 必要的消失[J]. 软件学报, 2024, 32(3): 15-25.");
}

#[test]
fn splits_one_excerpt_at_each_marker() {
    let b = block(
        "离线权是派生性权利。③我国《劳动法》作了原则性规定。④",
        vec![
            cited("③", &["谢增毅"], "离线权的法律属性与规则建构", 2022),
            cited("④", &["沈建峰"], "劳动法上休假的法学构造与谱系", 2021),
        ],
        true,
    );
    let out = render_block(&b, "GBT7714");
    let parts: Vec<&str> = out.split("\n\n").collect();
    assert_eq!(parts.len(), 2, "{out}");

    assert!(parts[0].contains("摘录：离线权是派生性权利。③"), "{out}");
    assert!(parts[0].contains("参考：谢增毅."), "{out}");
    assert!(!parts[0].contains("读自"), "读自只出现在最后一对：{out}");

    assert!(parts[1].contains("摘录：我国《劳动法》作了原则性规定。④"), "{out}");
    assert!(parts[1].contains("参考：沈建峰."), "{out}");
    assert!(parts[1].contains("读自：某篇长标题"), "{out}");
    assert!(!out.contains("关系："), "{out}");
}

#[test]
fn multiple_distinct_markers_all_listed() {
    let b = block(
        "曲线②热搜③尚未④",
        vec![
            cited("②", &["李四"], "深度学习综述", 2021),
            cited("③", &["张三"], "情绪动员与票房逆转", 2025),
            ReferenceItem {
                marker: "④".to_string(),
                kind: CitationKind::Unresolved,
                citation: None,
            },
        ],
        true,
    );

    let out = render_block(&b, "GBT7714");
    let refs: Vec<&str> = out.lines().filter(|l| l.starts_with("参考：")).collect();
    assert_eq!(refs.len(), 3, "三个不同标记要出三对：\n{out}");
    assert!(refs[0].contains("李四"), "{out}");
    assert!(refs[1].contains("张三"), "{out}");
    assert!(refs[2].contains("还没对上"), "{out}");
    assert!(!refs[2].contains("张三"), "{out}");
    assert!(
        out.find("摘录：曲线②").unwrap() < out.find("摘录：热搜③").unwrap(),
        "{out}"
    );
}

#[test]
fn no_marker_uses_found_in_not_empty_references() {
    let mut b = block("所谓离线权，并不是拒绝工作。", vec![], false);
    b.found_in = Some(cit(&["王健"], "必要的消失", Some(2024)));

    let out = render_block(&b, "GBT7714");
    assert!(out.contains("参考：王健. 必要的消失"), "{out}");
    assert!(!out.contains("未识别当前文献"), "{out}");
}

#[test]
fn manual_reference_is_labelled_as_hand_written() {
    let b = block(
        "走出一条教科书无法书写的传播曲线②",
        vec![ReferenceItem {
            marker: "②".to_string(),
            kind: CitationKind::Manual,
            citation: Some(cit(&["李四"], "深度学习综述", Some(2021))),
        }],
        true,
    );

    let out = render_block(&b, "GBT7714");
    assert!(out.contains("参考：李四. 深度学习综述"), "{out}");
    assert!(out.contains("（手填）"), "{out}");
    assert!(!out.contains("所贴文献表第"), "{out}");
    assert!(!out.contains("关系："), "{out}");
}
