use family_tree::errors::TreeError;
use family_tree::title::{Gender, Generation, Lineage, MemberType};
use family_tree::tree::FamilyMember;

fn member(name: &str, birth: u16, gen: Generation, gender: Gender, lineage: Lineage) -> FamilyMember {
    FamilyMember {
        name: name.to_string(),
        birth_year: birth,
        hoser_power_add: 0,
        member_type: MemberType { generation: gen, gender, lineage },
        position: None,
        children: Vec::new(),
        is_dead: false,
    }
}

fn head_with_son() -> FamilyMember {
    let mut head = member("Head", 1950, Generation::Head, Gender::Male, Lineage::Direct);
    let son = member("Son", 1975, Generation::Child, Gender::Male, Lineage::Direct);
    head.children.push(son);
    head
}

#[test]
fn insert_path_and_size() {
    let mut tree = head_with_son();
    let batch = vec![member(
        "Grandson",
        2000,
        Generation::Grandchild,
        Gender::Male,
        Lineage::Direct,
    )];
    assert!(tree.insert_children("Son", &batch).is_ok());
    let path = tree.path("Grandson").expect("path must exist");
    assert_eq!(path, vec!["Head".to_string(), "Son".to_string(), "Grandson".to_string()]);
    assert_eq!(tree.size(), 3);
    assert!(tree.has_member("Grandson"));
}

#[test]
fn insert_grows_size_by_batch_length() {
    let mut tree = head_with_son();
    let before = tree.size();
    let batch = vec![
        member("A", 2001, Generation::Grandchild, Gender::Male, Lineage::Direct),
        member("B", 2003, Generation::Grandchild, Gender::Female, Lineage::Direct),
    ];
    assert!(tree.insert_children("Son", &batch).is_ok());
    assert_eq!(tree.size(), before + 2);
    assert!(tree.has_member("A"));
    assert!(tree.has_member("B"));
}

#[test]
fn insert_is_atomic_on_duplicate() {
    let mut tree = head_with_son();
    let batch = vec![
        member("A", 2001, Generation::Grandchild, Gender::Male, Lineage::Direct),
        member("Son", 2003, Generation::Grandchild, Gender::Male, Lineage::Direct),
    ];
    let r = tree.insert_children("Son", &batch);
    assert!(matches!(r, Err(TreeError::DuplicateName(_))));
    assert!(!tree.has_member("A"));
    assert_eq!(tree.size(), 2);
}

#[test]
fn insert_rejects_duplicate_within_batch() {
    let mut tree = head_with_son();
    let batch = vec![
        member("Twin", 2001, Generation::Grandchild, Gender::Male, Lineage::Direct),
        member("Twin", 2001, Generation::Grandchild, Gender::Female, Lineage::Direct),
    ];
    let r = tree.insert_children("Son", &batch);
    assert!(matches!(r, Err(TreeError::DuplicateName(n)) if n == "Twin"));
    assert!(!tree.has_member("Twin"));
}

#[test]
fn insert_rejects_nested_duplicate() {
    let mut tree = head_with_son();
    let mut a = member("A", 2001, Generation::Grandchild, Gender::Male, Lineage::Direct);
    a.children.push(member(
        "Son",
        2020,
        Generation::GreatGrandchild,
        Gender::Male,
        Lineage::Direct,
    ));
    let batch = vec![a];
    let r = tree.insert_children("Son", &batch);
    assert!(matches!(r, Err(TreeError::DuplicateName(n)) if n == "Son"));
    assert!(!tree.has_member("A"));
}

#[test]
fn insert_reports_missing_parent() {
    let mut tree = head_with_son();
    let batch = vec![member("A", 2001, Generation::Grandchild, Gender::Male, Lineage::Direct)];
    let r = tree.insert_children("Nobody", &batch);
    assert!(matches!(r, Err(TreeError::NotFound(n)) if n == "Nobody"));
    assert!(!tree.has_member("A"));
}

#[test]
fn rename_vacates_old_name() {
    let mut tree = head_with_son();
    assert!(tree.rename("Son", "Heir").is_ok());
    assert!(tree.has_member("Heir"));
    assert!(!tree.has_member("Son"));
}

#[test]
fn rename_rejects_existing_name() {
    let mut tree = head_with_son();
    let r = tree.rename("Son", "Head");
    assert!(matches!(r, Err(TreeError::DuplicateName(n)) if n == "Head"));
    assert!(tree.has_member("Son"));
}

#[test]
fn rename_to_same_name_is_duplicate() {
    let mut tree = head_with_son();
    let r = tree.rename("Son", "Son");
    assert!(matches!(r, Err(TreeError::DuplicateName(n)) if n == "Son"));
}

#[test]
fn rename_reports_missing_member() {
    let mut tree = head_with_son();
    let r = tree.rename("Nobody", "Somebody");
    assert!(matches!(r, Err(TreeError::NotFound(n)) if n == "Nobody"));
}

#[test]
fn mark_dead_then_already_dead() {
    let mut tree = head_with_son();
    let batch = vec![member(
        "Grandson",
        2000,
        Generation::Grandchild,
        Gender::Male,
        Lineage::Direct,
    )];
    tree.insert_children("Son", &batch).unwrap();
    assert_eq!(tree.size(), 3);
    assert!(tree.mark_dead("Son").is_ok());
    // the dead member's living child still counts
    assert_eq!(tree.size(), 2);
    let again = tree.mark_dead("Son");
    assert!(matches!(again, Err(TreeError::AlreadyDead(n)) if n == "Son"));
    assert_eq!(tree.size(), 2);
}

#[test]
fn mark_dead_reports_missing_member() {
    let mut tree = head_with_son();
    let r = tree.mark_dead("Nobody");
    assert!(matches!(r, Err(TreeError::NotFound(n)) if n == "Nobody"));
}

#[test]
fn add_position_sets_and_reports_missing() {
    let mut tree = head_with_son();
    assert!(tree.add_position("Son", "scribe").is_ok());
    let son = tree.find_member_by_name("Son").unwrap();
    assert_eq!(son.position.as_deref(), Some("scribe"));
    let r = tree.add_position("Nobody", "scribe");
    assert!(matches!(r, Err(TreeError::NotFound(n)) if n == "Nobody"));
}

#[test]
fn prune_removes_future_births_at_all_levels() {
    let mut tree = head_with_son();
    let mut late = member("Late", 2030, Generation::Grandchild, Gender::Male, Lineage::Direct);
    late.children.push(member(
        "Later",
        2055,
        Generation::GreatGrandchild,
        Gender::Male,
        Lineage::Direct,
    ));
    let batch = vec![
        late,
        member("Early", 2000, Generation::Grandchild, Gender::Male, Lineage::Direct),
    ];
    tree.insert_children("Son", &batch).unwrap();
    assert_eq!(tree.size(), 5);
    tree.prune_future_births(2020);
    assert!(!tree.has_member("Late"));
    assert!(!tree.has_member("Later"));
    assert!(tree.has_member("Early"));
    assert_eq!(tree.size(), 3);
    // pruning again with the same year changes nothing
    tree.prune_future_births(2020);
    assert_eq!(tree.size(), 3);
    assert!(tree.has_member("Early"));
}

#[test]
fn inherit_grandchild_succeeds_great_grandchild_fails() {
    let mut tree = head_with_son();
    let batch = vec![member(
        "Grandson",
        2000,
        Generation::Grandchild,
        Gender::Male,
        Lineage::Direct,
    )];
    tree.insert_children("Son", &batch).unwrap();
    let deeper = vec![member(
        "GreatGrandson",
        2020,
        Generation::GreatGrandchild,
        Gender::Male,
        Lineage::Direct,
    )];
    tree.insert_children("Grandson", &deeper).unwrap();

    assert!(tree.inherit("Grandson").is_ok());
    let r = tree.inherit("GreatGrandson");
    assert!(matches!(
        r,
        Err(TreeError::IneligibleSuccessor(n, Generation::GreatGrandchild)) if n == "GreatGrandson"
    ));
}

#[test]
fn inherit_reports_missing_member() {
    let tree = head_with_son();
    let r = tree.inherit("Nobody");
    assert!(matches!(r, Err(TreeError::NotFound(n)) if n == "Nobody"));
}

#[test]
fn inherit_promotes_generations() {
    let mut tree = head_with_son();
    let batch = vec![member(
        "Grandson",
        2000,
        Generation::Grandchild,
        Gender::Male,
        Lineage::Direct,
    )];
    tree.insert_children("Son", &batch).unwrap();

    let new_tree = tree.inherit("Son").expect("son may inherit");
    assert_eq!(new_tree.name, "Son");
    assert_eq!(new_tree.member_type.generation, Generation::Head);
    assert_eq!(new_tree.children.len(), 1);
    assert_eq!(new_tree.children[0].name, "Grandson");
    assert_eq!(new_tree.children[0].member_type.generation, Generation::Child);
    // the old tree is untouched
    assert_eq!(tree.size(), 3);
    assert_eq!(tree.find_member_by_name("Son").unwrap().member_type.generation, Generation::Child);
}

#[test]
fn inherit_promotion_floors_at_head() {
    let mut tree = head_with_son();
    let batch = vec![member(
        "Grandson",
        2000,
        Generation::Grandchild,
        Gender::Male,
        Lineage::Direct,
    )];
    tree.insert_children("Son", &batch).unwrap();
    // successor at ordinal 2: its child at ordinal 3 drops to 1; nothing
    // goes below the head
    let deeper = vec![member(
        "GGS",
        2020,
        Generation::GreatGrandchild,
        Gender::Male,
        Lineage::Direct,
    )];
    tree.insert_children("Grandson", &deeper).unwrap();
    let new_tree = tree.inherit("Grandson").unwrap();
    assert_eq!(new_tree.member_type.generation, Generation::Head);
    assert_eq!(new_tree.children[0].member_type.generation, Generation::Child);
}

#[test]
fn female_head_redirects_lineage() {
    let mut head = member("Head", 1950, Generation::Head, Gender::Male, Lineage::Direct);
    let daughter = member("Daughter", 1975, Generation::Child, Gender::Female, Lineage::Direct);
    head.children.push(daughter);
    let batch = vec![
        member("GSon", 2000, Generation::Grandchild, Gender::Male, Lineage::Foreign),
        member("GDaughter", 2002, Generation::Grandchild, Gender::Female, Lineage::Foreign),
    ];
    head.insert_children("Daughter", &batch).unwrap();
    let deeper = vec![member(
        "GGSon",
        2020,
        Generation::GreatGrandchild,
        Gender::Male,
        Lineage::Foreign,
    )];
    head.insert_children("GSon", &deeper).unwrap();

    let new_tree = head.inherit("Daughter").unwrap();
    // every child of the female head takes the direct line
    assert_eq!(new_tree.children[0].member_type.lineage, Lineage::Direct);
    assert_eq!(new_tree.children[1].member_type.lineage, Lineage::Direct);
    // a male child passes it through his whole subtree
    assert_eq!(new_tree.children[0].children[0].member_type.lineage, Lineage::Direct);
}

#[test]
fn male_head_keeps_lineage() {
    let mut tree = head_with_son();
    let batch = vec![member(
        "GSon",
        2000,
        Generation::Grandchild,
        Gender::Male,
        Lineage::Foreign,
    )];
    tree.insert_children("Son", &batch).unwrap();
    let new_tree = tree.inherit("Son").unwrap();
    // no lineage rewrite for a male successor
    assert_eq!(new_tree.children[0].member_type.lineage, Lineage::Foreign);
}

#[test]
fn unique_names_checker() {
    let tree = head_with_son();
    assert!(tree.check_unique_names());
    let mut bad = head_with_son();
    bad.children.push(member("Son", 1980, Generation::Child, Gender::Male, Lineage::Direct));
    assert!(!bad.check_unique_names());
}

#[test]
fn path_reports_missing_member() {
    let tree = head_with_son();
    assert!(tree.path("Nobody").is_none());
}

#[test]
fn clone_is_deep() {
    let mut tree = head_with_son();
    let copy = tree.clone();
    tree.rename("Son", "Heir").unwrap();
    assert!(copy.has_member("Son"));
    assert!(!copy.has_member("Heir"));
}

#[test]
fn insert_empty_batch_is_allowed() {
    let mut tree = head_with_son();
    let batch: Vec<FamilyMember> = Vec::new();
    assert!(tree.insert_children("Son", &batch).is_ok());
    assert_eq!(tree.size(), 2);
}

#[test]
fn prune_keeps_members_born_in_cutoff_year() {
    let mut tree = head_with_son();
    let batch = vec![
        member("Edge", 2020, Generation::Grandchild, Gender::Male, Lineage::Direct),
        member("Over", 2021, Generation::Grandchild, Gender::Male, Lineage::Direct),
    ];
    tree.insert_children("Son", &batch).unwrap();
    tree.prune_future_births(2020);
    assert!(tree.has_member("Edge"));
    assert!(!tree.has_member("Over"));
}
