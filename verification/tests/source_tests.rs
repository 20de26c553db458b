use paper_pet::source::{classify, normalize_for_match, strip_title_suffix};

#[test]
fn classifies_unknown_without_title() {
    assert_eq!(classify(None), "unknown");
    assert_eq!(classify(Some("   ")), "unknown");
}

#[test]
fn classifies_journal_as_literature() {
    assert_eq!(classify(Some("计算机学报 2024年第3期")), "literature");
}

#[test]
fn classifies_browser_as_webpage() {
    assert_eq!(classify(Some("某篇论文 - Google Chrome")), "webpage");
}

#[test]
fn strips_browser_suffix() {
    assert_eq!(strip_title_suffix("论某某问题 - Google Chrome"), "论某某问题");
    assert_eq!(strip_title_suffix("paper.pdf - Adobe Acrobat Reader"), "paper");
}

#[test]
fn keeps_title_without_suffix() {
    assert_eq!(strip_title_suffix("计算机学报"), "计算机学报");
}

#[test]
fn strips_unread_count_badge() {
    assert_eq!(strip_title_suffix("(3) 某某研究"), "某某研究");
    assert_eq!(strip_title_suffix("【12】某某研究"), "某某研究");
}

#[test]
fn strips_spinner_and_status_marks() {
    for spinner in ["◐", "◓", "◑", "◒"] {
        assert_eq!(
            strip_title_suffix(&format!("{spinner} 项目实现方案评估")),
            "项目实现方案评估"
        );
    }
    assert_eq!(strip_title_suffix("● main.rs"), "main.rs");
}

#[test]
fn strips_stacked_decorations() {
    assert_eq!(strip_title_suffix("(3) ● 某某研究"), "某某研究");
}

#[test]
fn keeps_quotes_and_book_marks() {
    assert_eq!(strip_title_suffix("《论语》研究"), "《论语》研究");
    assert_eq!(strip_title_suffix("「某某」考"), "「某某」考");
}

#[test]
fn keeps_parenthetical_that_is_not_a_badge() {
    assert_eq!(strip_title_suffix("(修订版) 某某研究"), "(修订版) 某某研究");
}

#[test]
fn decoration_only_title_is_kept() {
    assert_eq!(strip_title_suffix("●●●"), "●●●");
}

#[test]
fn spinner_variants_normalize_to_same_key() {
    assert_eq!(
        normalize_for_match("◑ 项目实现方案评估"),
        normalize_for_match("◐ 项目实现方案评估")
    );
}

#[test]
fn strips_edge_tab_count_and_profile() {
    assert_eq!(
        strip_title_suffix("论文笔记库 · 交互演示 和另外 2 个页面 - 用户配置 1"),
        "论文笔记库 · 交互演示"
    );
    assert_eq!(
        strip_title_suffix("论文笔记库 · 交互演示 - 用户配置 1"),
        "论文笔记库 · 交互演示"
    );
}

#[test]
fn tab_count_variants_group_together() {
    let a = normalize_for_match("论文笔记库 · 交互演示 和另外 2 个页面 - 用户配置 1");
    let b = normalize_for_match("论文笔记库 · 交互演示 和另外 1 个页面 - 用户配置 1");
    let c = normalize_for_match("论文笔记库 · 交互演示 - 用户配置 1");
    assert_eq!(a, b);
    assert_eq!(b, c);
}

#[test]
fn strips_english_tab_count() {
    assert_eq!(
        strip_title_suffix("Some Paper and 3 more pages - Profile 2"),
        "Some Paper"
    );
}

#[test]
fn keeps_title_that_is_only_tail() {
    assert_eq!(strip_title_suffix("和另外 2 个页面"), "和另外 2 个页面");
}

#[test]
fn does_not_strip_legit_trailing_number() {
    assert_eq!(strip_title_suffix("计算机学报 第 2 期"), "计算机学报 第 2 期");
}

#[test]
fn normalize_ignores_case_and_space() {
    assert_eq!(
        normalize_for_match("A Study Of X - Google Chrome"),
        normalize_for_match("a studyofx")
    );
}
