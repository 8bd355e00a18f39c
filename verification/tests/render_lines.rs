use family_tree::errors::TreeError;
use family_tree::title::{Gender, Generation, Lineage, MemberType};
use family_tree::tree::FamilyMember;

fn member(name: &str, birth: u16, gen: Generation, gender: Gender) -> FamilyMember {
    FamilyMember {
        name: name.to_string(),
        birth_year: birth,
        hoser_power_add: 0,
        member_type: MemberType { generation: gen, gender, lineage: Lineage::Direct },
        position: None,
        children: Vec::new(),
        is_dead: false,
    }
}

#[test]
fn renders_wide_names_with_display_width_padding() {
    let mut head = member("张三", 1980, Generation::Head, Gender::Male);
    head.hoser_power_add = 5;
    head.children.push(member("李四", 2000, Generation::Child, Gender::Male));

    let lines = head.render(None).expect("whole tree renders");
    assert_eq!(lines.len(), 2);
    // "张三" spans four columns, so the 30-wide name column pads with 26
    let expected_head = format!(
        "张三{}1980{}家主{}{}-{}5{}1{}",
        " ".repeat(26),
        " ".repeat(4),
        " ".repeat(8),
        " ".repeat(8),
        " ".repeat(17),
        " ".repeat(7),
        " ".repeat(7),
    );
    assert_eq!(lines[0], expected_head);
    // the child is prefixed by the root's blank marker and a corner glyph
    let expected_child = format!(
        "   └─ 李四{}2000{}儿{}{}-{}0{}0{}",
        " ".repeat(20),
        " ".repeat(4),
        " ".repeat(10),
        " ".repeat(8),
        " ".repeat(17),
        " ".repeat(7),
        " ".repeat(7),
    );
    assert_eq!(lines[1], expected_child);
}

#[test]
fn renders_status_and_position_and_counts_living_children_only() {
    let mut head = member("Head", 1950, Generation::Head, Gender::Male);
    head.position = Some("king".to_string());
    head.children.push(member("A", 1975, Generation::Child, Gender::Male));
    head.children.push(member("B", 1977, Generation::Child, Gender::Female));
    head.mark_dead("B").unwrap();
    head.mark_dead("Head").unwrap();

    let lines = head.render(None).expect("whole tree renders");
    assert_eq!(lines.len(), 3);
    let expected_head = format!(
        "Head{}1950{}家主{}已故{}king{}0{}1{}",
        " ".repeat(26),
        " ".repeat(4),
        " ".repeat(8),
        " ".repeat(4),
        " ".repeat(14),
        " ".repeat(7),
        " ".repeat(7),
    );
    assert_eq!(lines[0], expected_head);
    // "A" is not the last sibling: it gets the tee glyph
    assert!(lines[1].starts_with("   ├─ A"));
    assert!(lines[2].starts_with("   └─ B"));
    // B's line shows the dead status
    assert!(lines[2].contains("已故"));
}

#[test]
fn renders_named_subtree_as_its_own_root() {
    let mut head = member("Head", 1950, Generation::Head, Gender::Male);
    let mut son = member("Son", 1975, Generation::Child, Gender::Male);
    son.children.push(member("Grandson", 2000, Generation::Grandchild, Gender::Male));
    head.children.push(son);

    let lines = head.render(Some("Son")).expect("subtree renders");
    assert_eq!(lines.len(), 2);
    // rendered as a root: no branch glyph before the name
    assert!(lines[0].starts_with("Son "));
    assert!(lines[1].starts_with("   └─ Grandson"));
}

#[test]
fn render_reports_missing_target() {
    let head = member("Head", 1950, Generation::Head, Gender::Male);
    let r = head.render(Some("Nobody"));
    assert!(matches!(r, Err(TreeError::NotFound(n)) if n == "Nobody"));
}

#[test]
fn table_header_lines() {
    let header = family_tree::render::table_header();
    assert_eq!(header.len(), 3);
    assert_eq!(header[0], "━".repeat(80));
    assert_eq!(header[2], "━".repeat(80));
    let expected = format!(
        "姓名{}出生{}类别{}状态{}职位{}威望+{}子嗣{}",
        " ".repeat(26),
        " ".repeat(4),
        " ".repeat(8),
        " ".repeat(4),
        " ".repeat(14),
        " ".repeat(3),
        " ".repeat(4),
    );
    assert_eq!(header[1], expected);
}
