use family_tree::title::{Gender, Generation, Lineage, MemberType};

fn mt(g: Generation, s: Gender, l: Lineage) -> MemberType {
    MemberType { generation: g, gender: s, lineage: l }
}

const GENERATIONS: [Generation; 9] = [
    Generation::Child,
    Generation::Grandchild,
    Generation::GreatGrandchild,
    Generation::FourthGen,
    Generation::FifthGen,
    Generation::SixthGen,
    Generation::SeventhGen,
    Generation::EighthGen,
    Generation::NinthGen,
];

#[test]
fn encode_fixed_forms() {
    assert_eq!(mt(Generation::Head, Gender::Male, Lineage::Direct).title(), "家主");
    assert_eq!(mt(Generation::Head, Gender::Female, Lineage::Foreign).title(), "家主");
    assert_eq!(mt(Generation::Unknown, Gender::Male, Lineage::Direct).title(), "未知");
    assert_eq!(mt(Generation::Child, Gender::Male, Lineage::Direct).title(), "儿");
    assert_eq!(mt(Generation::Child, Gender::Female, Lineage::Direct).title(), "女儿");
    // the child generation has no foreign-marked form
    assert_eq!(mt(Generation::Child, Gender::Male, Lineage::Foreign).title(), "儿");
}

#[test]
fn encode_composed_forms() {
    assert_eq!(mt(Generation::Grandchild, Gender::Male, Lineage::Direct).title(), "孙");
    assert_eq!(mt(Generation::Grandchild, Gender::Female, Lineage::Direct).title(), "孙女");
    assert_eq!(mt(Generation::Grandchild, Gender::Male, Lineage::Foreign).title(), "外孙");
    assert_eq!(mt(Generation::Grandchild, Gender::Female, Lineage::Foreign).title(), "外孙女");
    assert_eq!(mt(Generation::GreatGrandchild, Gender::Male, Lineage::Foreign).title(), "外曾孙");
    assert_eq!(mt(Generation::FourthGen, Gender::Female, Lineage::Direct).title(), "玄孙女");
    assert_eq!(mt(Generation::NinthGen, Gender::Female, Lineage::Foreign).title(), "外耳孙女");
}

#[test]
fn decode_exact_forms() {
    assert_eq!(
        MemberType::parse_title("家主"),
        mt(Generation::Head, Gender::Male, Lineage::Direct)
    );
    assert_eq!(
        MemberType::parse_title("外曾孙女"),
        mt(Generation::GreatGrandchild, Gender::Female, Lineage::Foreign)
    );
    assert_eq!(
        MemberType::parse_title("女儿"),
        mt(Generation::Child, Gender::Female, Lineage::Direct)
    );
    assert_eq!(
        MemberType::parse_title("孙女"),
        mt(Generation::Grandchild, Gender::Female, Lineage::Direct)
    );
}

#[test]
fn decode_priority_order() {
    // the longer terms win over the generic grandchild term
    assert_eq!(MemberType::parse_title("来孙").generation, Generation::FifthGen);
    assert_eq!(MemberType::parse_title("耳孙").generation, Generation::NinthGen);
    assert_eq!(MemberType::parse_title("孙").generation, Generation::Grandchild);
}

#[test]
fn decode_malformed_degrades_to_unknown() {
    let r = MemberType::parse_title("abc");
    assert_eq!(r.generation, Generation::Unknown);
    assert_eq!(r.gender, Gender::Male);
    assert_eq!(r.lineage, Lineage::Direct);
}

#[test]
fn round_trip_all_ladder_types() {
    for &g in GENERATIONS.iter() {
        for &s in [Gender::Male, Gender::Female].iter() {
            for &l in [Lineage::Direct, Lineage::Foreign].iter() {
                let original = mt(g, s, l);
                let back = MemberType::parse_title(original.title().as_str());
                assert_eq!(back.generation, g);
                assert_eq!(back.gender, s);
                if g.ordinal() >= 2 {
                    assert_eq!(back.lineage, l);
                }
            }
        }
    }
}

#[test]
fn promote_saturates_at_head() {
    assert_eq!(Generation::Grandchild.promote(1), Generation::Child);
    assert_eq!(Generation::Grandchild.promote(2), Generation::Head);
    assert_eq!(Generation::Grandchild.promote(9), Generation::Head);
    assert_eq!(Generation::NinthGen.promote(0), Generation::NinthGen);
    // the unknown sentinel sits just past the ladder
    assert_eq!(Generation::Unknown.promote(1), Generation::NinthGen);
}

#[test]
fn ordinals_follow_the_ladder() {
    assert_eq!(Generation::Head.ordinal(), 0);
    assert_eq!(Generation::Child.ordinal(), 1);
    assert_eq!(Generation::Grandchild.ordinal(), 2);
    assert_eq!(Generation::NinthGen.ordinal(), 9);
    assert_eq!(Generation::Unknown.ordinal(), 10);
    assert_eq!(Generation::from_ordinal(3), Generation::GreatGrandchild);
    assert_eq!(Generation::from_ordinal(42), Generation::Unknown);
}
