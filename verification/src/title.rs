//! Title codec: the (generation, gender, lineage) triple of a member,
//! its encoding as a display title, and the best-effort inverse parse
//! used when importing legacy textual titles.

use vstd::prelude::*;

use vstd::string::StringExecFns;

use crate::strutil::has_sub;

verus! {

/// Generational distance from the family head: ordinal 0 (the head)
/// through 9 (ninth-generation descendant), plus an `Unknown` sentinel
/// for titles that match no generation term.
#[derive(Debug, Clone, Copy, PartialEq, Eq, Structural)]
pub enum Generation {
    Head,
    Child,
    Grandchild,
    GreatGrandchild,
    FourthGen,
    FifthGen,
    SixthGen,
    SeventhGen,
    EighthGen,
    NinthGen,
    Unknown,
}

/// Binary gender of a member.
#[derive(Debug, Clone, Copy, PartialEq, Eq, Structural)]
pub enum Gender {
    Male,
    Female,
}

/// Blood-line classification: `Direct` is the line through sons,
/// `Foreign` the line admitted through a daughter.
#[derive(Debug, Clone, Copy, PartialEq, Eq, Structural)]
pub enum Lineage {
    Direct,
    Foreign,
}

/// Composite member type: the three independent axes that determine a
/// member's display title.
#[derive(Debug, Clone, Copy, PartialEq, Eq, Structural)]
pub struct MemberType {
    pub generation: Generation,
    pub gender: Gender,
    pub lineage: Lineage,
}

impl Generation {
    /// Ordinal of a generation on the decode ladder: 0 for the head up
    /// to 9 for the ninth generation; the `Unknown` sentinel sits just
    /// past the ladder at 10.
    pub open spec fn ordinal_spec(self) -> nat {
        match self {
            Generation::Head => 0,
            Generation::Child => 1,
            Generation::Grandchild => 2,
            Generation::GreatGrandchild => 3,
            Generation::FourthGen => 4,
            Generation::FifthGen => 5,
            Generation::SixthGen => 6,
            Generation::SeventhGen => 7,
            Generation::EighthGen => 8,
            Generation::NinthGen => 9,
            Generation::Unknown => 10,
        }
    }

    /// Inverse of `ordinal_spec`: ordinals past the ladder map to `Unknown`.
    pub open spec fn from_ordinal_spec(n: nat) -> Generation {
        if n == 0 {
            Generation::Head
        } else if n == 1 {
            Generation::Child
        } else if n == 2 {
            Generation::Grandchild
        } else if n == 3 {
            Generation::GreatGrandchild
        } else if n == 4 {
            Generation::FourthGen
        } else if n == 5 {
            Generation::FifthGen
        } else if n == 6 {
            Generation::SixthGen
        } else if n == 7 {
            Generation::SeventhGen
        } else if n == 8 {
            Generation::EighthGen
        } else if n == 9 {
            Generation::NinthGen
        } else {
            Generation::Unknown
        }
    }

    /// What `promote` returns: the ordinal is lowered by `levels`,
    /// saturating at 0 (the head), and mapped back through the ladder.
    pub open spec fn promote_spec(self, levels: u8) -> Generation {
        Generation::from_ordinal_spec(
            if self.ordinal_spec() <= levels as nat {
                0
            } else {
                (self.ordinal_spec() - levels as nat) as nat
            },
        )
    }

    /// Ordinal of this generation on the decode ladder.
    pub fn ordinal(self) -> (n: u8)
        ensures
            n as nat == self.ordinal_spec(),
    {
        match self {
            Generation::Head => 0,
            Generation::Child => 1,
            Generation::Grandchild => 2,
            Generation::GreatGrandchild => 3,
            Generation::FourthGen => 4,
            Generation::FifthGen => 5,
            Generation::SixthGen => 6,
            Generation::SeventhGen => 7,
            Generation::EighthGen => 8,
            Generation::NinthGen => 9,
            Generation::Unknown => 10,
        }
    }

    /// Generation at a given ordinal; anything past the ladder is `Unknown`.
    pub fn from_ordinal(n: u8) -> (g: Generation)
        ensures
            g == Generation::from_ordinal_spec(n as nat),
    {
        match n {
            0 => Generation::Head,
            1 => Generation::Child,
            2 => Generation::Grandchild,
            3 => Generation::GreatGrandchild,
            4 => Generation::FourthGen,
            5 => Generation::FifthGen,
            6 => Generation::SixthGen,
            7 => Generation::SeventhGen,
            8 => Generation::EighthGen,
            9 => Generation::NinthGen,
            _ => Generation::Unknown,
        }
    }

    /// Move this generation `levels` steps towards the head, never past it.
    pub fn promote(self, levels: u8) -> (g: Generation)
        ensures
            g == self.promote_spec(levels),
    {
        let current = self.ordinal();
        let lowered = if current <= levels {
            0
        } else {
            current - levels
        };
        Generation::from_ordinal(lowered)
    }

    /// The generation's term as a string slice.
    pub fn word_str(g: Generation) -> (r: &'static str)
        ensures
            r@ == g.word(),
    {
        proof {
            reveal_strlit("家主");
            reveal_strlit("儿");
            reveal_strlit("孙");
            reveal_strlit("曾孙");
            reveal_strlit("玄孙");
            reveal_strlit("来孙");
            reveal_strlit("晜孙");
            reveal_strlit("仍孙");
            reveal_strlit("云孙");
            reveal_strlit("耳孙");
            reveal_strlit("未知");
        }
        match g {
            Generation::Head => {
                proof {
                    assert("家主"@ =~= seq!['家', '主']);
                }
                "家主"
            },
            Generation::Child => {
                proof {
                    assert("儿"@ =~= seq!['儿']);
                }
                "儿"
            },
            Generation::Grandchild => {
                proof {
                    assert("孙"@ =~= seq!['孙']);
                }
                "孙"
            },
            Generation::GreatGrandchild => {
                proof {
                    assert("曾孙"@ =~= seq!['曾', '孙']);
                }
                "曾孙"
            },
            Generation::FourthGen => {
                proof {
                    assert("玄孙"@ =~= seq!['玄', '孙']);
                }
                "玄孙"
            },
            Generation::FifthGen => {
                proof {
                    assert("来孙"@ =~= seq!['来', '孙']);
                }
                "来孙"
            },
            Generation::SixthGen => {
                proof {
                    assert("晜孙"@ =~= seq!['晜', '孙']);
                }
                "晜孙"
            },
            Generation::SeventhGen => {
                proof {
                    assert("仍孙"@ =~= seq!['仍', '孙']);
                }
                "仍孙"
            },
            Generation::EighthGen => {
                proof {
                    assert("云孙"@ =~= seq!['云', '孙']);
                }
                "云孙"
            },
            Generation::NinthGen => {
                proof {
                    assert("耳孙"@ =~= seq!['耳', '孙']);
                }
                "耳孙"
            },
            Generation::Unknown => {
                proof {
                    assert("未知"@ =~= seq!['未', '知']);
                }
                "未知"
            },
        }
    }

    /// The characters of this generation's term on the decode ladder.
    pub open spec fn word(self) -> Seq<char> {
        match self {
            Generation::Head => seq!['家', '主'],
            Generation::Child => seq!['儿'],
            Generation::Grandchild => seq!['孙'],
            Generation::GreatGrandchild => seq!['曾', '孙'],
            Generation::FourthGen => seq!['玄', '孙'],
            Generation::FifthGen => seq!['来', '孙'],
            Generation::SixthGen => seq!['晜', '孙'],
            Generation::SeventhGen => seq!['仍', '孙'],
            Generation::EighthGen => seq!['云', '孙'],
            Generation::NinthGen => seq!['耳', '孙'],
            Generation::Unknown => seq!['未', '知'],
        }
    }
}

/// The generation read from a legacy title: the exact head literal
/// first, then substring tests from the most specific term to the
/// generic grandchild term; anything else is unknown.
pub open spec fn parse_generation(s: Seq<char>) -> Generation {
    if s.len() == 2 && s[0] == '家' && s[1] == '主' {
        Generation::Head
    } else if has_sub(s, seq!['儿']) {
        Generation::Child
    } else if has_sub(s, seq!['来', '孙']) {
        Generation::FifthGen
    } else if has_sub(s, seq!['玄', '孙']) {
        Generation::FourthGen
    } else if has_sub(s, seq!['曾', '孙']) {
        Generation::GreatGrandchild
    } else if has_sub(s, seq!['晜', '孙']) {
        Generation::SixthGen
    } else if has_sub(s, seq!['仍', '孙']) {
        Generation::SeventhGen
    } else if has_sub(s, seq!['云', '孙']) {
        Generation::EighthGen
    } else if has_sub(s, seq!['耳', '孙']) {
        Generation::NinthGen
    } else if has_sub(s, seq!['孙']) {
        Generation::Grandchild
    } else {
        Generation::Unknown
    }
}

impl MemberType {
    /// The display title: the head and unknown cases have fixed words;
    /// the child generation has a female form and no foreign marker; a
    /// generation of the grandchild's or beyond takes the foreign
    /// prefix and the female suffix.
    pub open spec fn title_chars(self) -> Seq<char> {
        if self.generation == Generation::Head {
            seq!['家', '主']
        } else if self.generation == Generation::Unknown {
            seq!['未', '知']
        } else if self.generation == Generation::Child {
            if self.gender == Gender::Female {
                seq!['女', '儿']
            } else {
                seq!['儿']
            }
        } else {
            (if self.lineage == Lineage::Foreign {
                seq!['外']
            } else {
                Seq::empty()
            }) + self.generation.word() + (if self.gender == Gender::Female {
                seq!['女']
            } else {
                Seq::empty()
            })
        }
    }

    /// The display title of this member type.
    pub fn title(&self) -> (r: String)
        ensures
            r@ == self.title_chars(),
    {
        proof {
            reveal_strlit("家主");
            reveal_strlit("未知");
            reveal_strlit("女儿");
            reveal_strlit("儿");
            reveal_strlit("外");
            reveal_strlit("女");
        }
        match self.generation {
            Generation::Head => {
                let r = "家主".to_owned();
                proof {
                    assert(r@ =~= seq!['家', '主']);
                }
                r
            },
            Generation::Unknown => {
                let r = "未知".to_owned();
                proof {
                    assert(r@ =~= seq!['未', '知']);
                }
                r
            },
            Generation::Child => {
                if self.gender == Gender::Female {
                    let r = "女儿".to_owned();
                    proof {
                        assert(r@ =~= seq!['女', '儿']);
                    }
                    r
                } else {
                    let r = "儿".to_owned();
                    proof {
                        assert(r@ =~= seq!['儿']);
                    }
                    r
                }
            },
            _ => {
                let mut out = String::new();
                if self.lineage == Lineage::Foreign {
                    out.append("外");
                }
                proof {
                    assert(out@ =~= (if self.lineage == Lineage::Foreign {
                        seq!['外']
                    } else {
                        Seq::<char>::empty()
                    }));
                }
                let w = Generation::word_str(self.generation);
                out.append(w);
                if self.gender == Gender::Female {
                    out.append("女");
                }
                proof {
                    assert(out@ =~= self.title_chars());
                }
                out
            },
        }
    }

    /// Read a member type from a legacy title string, by the matching
    /// policy of `parse_title_spec`. Malformed input degrades to the
    /// unknown generation; this function never fails.
    pub fn parse_title(s: &str) -> (r: MemberType)
        ensures
            r == MemberType::parse_title_spec(s@),
    {
        proof {
            reveal_strlit("家主");
            reveal_strlit("儿");
            reveal_strlit("来孙");
            reveal_strlit("玄孙");
            reveal_strlit("曾孙");
            reveal_strlit("晜孙");
            reveal_strlit("仍孙");
            reveal_strlit("云孙");
            reveal_strlit("耳孙");
            reveal_strlit("孙");
            reveal_strlit("女");
            reveal_strlit("外");
            assert("来孙"@ =~= seq!['来', '孙']);
            assert("玄孙"@ =~= seq!['玄', '孙']);
            assert("曾孙"@ =~= seq!['曾', '孙']);
            assert("晜孙"@ =~= seq!['晜', '孙']);
            assert("仍孙"@ =~= seq!['仍', '孙']);
            assert("云孙"@ =~= seq!['云', '孙']);
            assert("耳孙"@ =~= seq!['耳', '孙']);
            assert("孙"@ =~= seq!['孙']);
            assert("儿"@ =~= seq!['儿']);
            assert("女"@ =~= seq!['女']);
            assert("外"@ =~= seq!['外']);
        }
        let generation: Generation = if crate::strutil::str_eq(s, "家主") {
            proof {
                assert(s@.len() == 2 && s@[0] == '家' && s@[1] == '主');
            }
            Generation::Head
        } else {
            proof {
                if s@.len() == 2 && s@[0] == '家' && s@[1] == '主' {
                    assert(s@ =~= "家主"@);
                }
            }
            if crate::strutil::contains_sub(s, "儿") {
                Generation::Child
            } else if crate::strutil::contains_sub(s, "来孙") {
                Generation::FifthGen
            } else if crate::strutil::contains_sub(s, "玄孙") {
                Generation::FourthGen
            } else if crate::strutil::contains_sub(s, "曾孙") {
                Generation::GreatGrandchild
            } else if crate::strutil::contains_sub(s, "晜孙") {
                Generation::SixthGen
            } else if crate::strutil::contains_sub(s, "仍孙") {
                Generation::SeventhGen
            } else if crate::strutil::contains_sub(s, "云孙") {
                Generation::EighthGen
            } else if crate::strutil::contains_sub(s, "耳孙") {
                Generation::NinthGen
            } else if crate::strutil::contains_sub(s, "孙") {
                Generation::Grandchild
            } else {
                Generation::Unknown
            }
        };
        let gender: Gender = if crate::strutil::contains_sub(s, "女") {
            Gender::Female
        } else {
            Gender::Male
        };
        let lineage: Lineage = if crate::strutil::contains_sub(s, "外") {
            Lineage::Foreign
        } else {
            Lineage::Direct
        };
        MemberType { generation, gender, lineage }
    }

    /// The member type read from a legacy title: the generation by the
    /// ladder of substring tests, the gender by the female marker, the
    /// lineage by the foreign marker.
    pub open spec fn parse_title_spec(s: Seq<char>) -> MemberType {
        MemberType {
            generation: parse_generation(s),
            gender: if has_sub(s, seq!['女']) {
                Gender::Female
            } else {
                Gender::Male
            },
            lineage: if has_sub(s, seq!['外']) {
                Lineage::Foreign
            } else {
                Lineage::Direct
            },
        }
    }
}

} // verus!
