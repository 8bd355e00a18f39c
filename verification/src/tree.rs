//! The tree node and its read-only operations: population count,
//! existence check, lookup by name and root-to-target paths.

use vstd::prelude::*;
use vstd::string::StringExecFns;

use crate::lemmas::{lemma_living_le_node, lemma_node_count_seq_split};
use crate::model::{
    lemma_living_count_seq_push, lemma_name_count_seq_push, lemma_node_count_seq_elem,
    living_count_seq, lookup_seq, name_count_seq, node_count_seq, path_names_seq, MemberModel,
};
use crate::strutil::str_eq;
use crate::title::MemberType;

verus! {

/// One member of the family tree, owning its children outright. The
/// order of `children` is the display order and is preserved by every
/// operation.
#[derive(Debug)]
pub struct FamilyMember {
    pub name: String,
    pub birth_year: u16,
    pub hoser_power_add: u8,
    pub member_type: MemberType,
    pub position: Option<String>,
    pub children: Vec<FamilyMember>,
    pub is_dead: bool,
}

/// The ghost model of a node: views of its fields, children modelled
/// recursively.
pub open spec fn model_of(m: FamilyMember) -> MemberModel
    decreases m,
{
    MemberModel {
        name: m.name@,
        birth_year: m.birth_year,
        hoser_power_add: m.hoser_power_add,
        member_type: m.member_type,
        position: match m.position {
            Some(p) => Some(p@),
            None => None,
        },
        children: models_of(m.children@),
        is_dead: m.is_dead,
    }
}

pub open spec fn models_of(s: Seq<FamilyMember>) -> Seq<MemberModel>
    decreases s,
{
    if s.len() == 0 {
        Seq::empty()
    } else {
        models_of(s.drop_last()).push(model_of(s.last()))
    }
}

impl View for FamilyMember {
    type V = MemberModel;

    open spec fn view(&self) -> MemberModel {
        model_of(*self)
    }
}

/// The model of a forest is the forest of the models.
pub proof fn lemma_models_of(s: Seq<FamilyMember>)
    ensures
        models_of(s).len() == s.len(),
        forall|i: int| 0 <= i < s.len() ==> #[trigger] models_of(s)[i] == model_of(s[i]),
    decreases s,
{
    if s.len() > 0 {
        lemma_models_of(s.drop_last());
        assert forall|i: int| 0 <= i < s.len() implies #[trigger] models_of(s)[i] == model_of(
            s[i],
        ) by {
            if i < s.len() - 1 {
                assert(s.drop_last()[i] == s[i]);
            } else {
                assert(s[i] == s.last());
            }
        }
    }
}

impl FamilyMember {
    /// Living members of this subtree. A dead member is skipped but its
    /// subtree is still walked, so living descendants of a dead member
    /// count.
    pub fn size(&self) -> (n: usize)
        requires
            self@.node_count() <= usize::MAX,
        ensures
            n as nat == self@.living_count(),
        decreases *self,
    {
        let mut total: usize = if self.is_dead {
            0
        } else {
            1
        };
        let k = self.children.len();
        let ghost cm = models_of(self.children@);
        proof {
            lemma_models_of(self.children@);
        }
        let mut i: usize = 0;
        while i < k
            invariant
                i <= k,
                k == self.children.len(),
                cm == models_of(self.children@),
                cm.len() == k,
                forall|j: int| 0 <= j < k ==> #[trigger] cm[j] == model_of(self.children@[j]),
                self@.node_count() <= usize::MAX,
                self@.node_count() == 1 + node_count_seq(cm),
                total as nat == (if self.is_dead {
                    0nat
                } else {
                    1nat
                }) + living_count_seq(cm.subrange(0, i as int)),
            decreases k - i,
        {
            proof {
                assert(decreases_to!(*self => self.children));
                assert(decreases_to!(self.children => self.children@));
                assert(decreases_to!(self.children@ => self.children@[i as int]));
                // the recursive call's precondition and the overflow bound
                lemma_node_count_seq_split(cm, i as int);
                lemma_node_count_seq_elem(cm.subrange(i as int, k as int), 0);
                assert(cm.subrange(i as int, k as int)[0] == cm[i as int]);
                crate::lemmas::lemma_living_le_node_seq(cm.subrange(0, i as int));
                lemma_node_count_seq_split(cm.subrange(0, i as int), i as int);
                lemma_living_le_node(cm[i as int]);
                assert(node_count_seq(cm.subrange(0, i as int)) + cm[i as int].node_count()
                    <= node_count_seq(cm));
            }
            let c = self.children[i].size();
            proof {
                lemma_living_count_seq_push(cm.subrange(0, i as int), cm[i as int]);
                assert(cm.subrange(0, i + 1) =~= cm.subrange(0, i as int).push(cm[i as int]));
            }
            total = total + c;
            i += 1;
        }
        proof {
            assert(cm.subrange(0, k as int) =~= cm);
        }
        total
    }

    /// Whether some member of this subtree is named `name`.
    pub fn has_member(&self, name: &str) -> (r: bool)
        ensures
            r == self@.contains_name(name@),
        decreases *self,
    {
        if str_eq(self.name.as_str(), name) {
            return true;
        }
        let k = self.children.len();
        let ghost cm = models_of(self.children@);
        proof {
            lemma_models_of(self.children@);
        }
        let mut i: usize = 0;
        while i < k
            invariant
                i <= k,
                k == self.children.len(),
                cm == models_of(self.children@),
                cm.len() == k,
                forall|j: int| 0 <= j < k ==> #[trigger] cm[j] == model_of(self.children@[j]),
                self@.name_count(name@) == name_count_seq(cm, name@),
                name_count_seq(cm.subrange(0, i as int), name@) == 0,
            decreases k - i,
        {
            proof {
                assert(decreases_to!(*self => self.children));
                assert(decreases_to!(self.children => self.children@));
                assert(decreases_to!(self.children@ => self.children@[i as int]));
            }
            if self.children[i].has_member(name) {
                proof {
                    crate::model::lemma_name_count_seq_elem(cm, i as int, name@);
                }
                return true;
            }
            proof {
                lemma_name_count_seq_push(cm.subrange(0, i as int), cm[i as int], name@);
                assert(cm.subrange(0, i + 1) =~= cm.subrange(0, i as int).push(cm[i as int]));
            }
            i += 1;
        }
        proof {
            assert(cm.subrange(0, k as int) =~= cm);
        }
        false
    }

    /// First member of this subtree named `name`, in a pre-order,
    /// depth-first walk; `None` when the name is absent.
    pub fn find_member_by_name(&self, name: &str) -> (r: Option<&FamilyMember>)
        ensures
            match r {
                Some(t) => self@.lookup(name@) == Some(t@),
                None => self@.lookup(name@) is None,
            },
        decreases *self,
    {
        if str_eq(self.name.as_str(), name) {
            return Some(self);
        }
        let k = self.children.len();
        let ghost cm = models_of(self.children@);
        proof {
            lemma_models_of(self.children@);
        }
        proof {
            assert(cm.subrange(0, k as int) =~= cm);
        }
        let mut i: usize = 0;
        while i < k
            invariant
                i <= k,
                k == self.children.len(),
                cm == models_of(self.children@),
                cm.len() == k,
                forall|j: int| 0 <= j < k ==> #[trigger] cm[j] == model_of(self.children@[j]),
                self@.name != name@,
                self@.lookup(name@) == lookup_seq(cm.subrange(i as int, k as int), name@),
            decreases k - i,
        {
            proof {
                assert(decreases_to!(*self => self.children));
                assert(decreases_to!(self.children => self.children@));
                assert(decreases_to!(self.children@ => self.children@[i as int]));
            }
            let found = self.children[i].find_member_by_name(name);
            proof {
                let suf = cm.subrange(i as int, k as int);
                assert(suf.first() == cm[i as int]);
                assert(suf.drop_first() =~= cm.subrange(i + 1, k as int));
            }
            match found {
                Some(t) => {
                    return Some(t);
                },
                None => {},
            }
            i += 1;
        }
        proof {
            assert(cm.subrange(k as int, k as int) =~= Seq::<MemberModel>::empty());
        }
        None
    }

    /// Names from this root to the first member named `name`, both ends
    /// included; `None` when the name is absent.
    pub fn path(&self, name: &str) -> (r: Option<Vec<String>>)
        ensures
            (r is Some) == self@.contains_name(name@),
            match r {
                Some(p) => self@.path_names(name@) == Some(p.deep_view()) && p@.len() >= 1
                    && p@.first()@ == self@.name && p@.last()@ == name@,
                None => self@.path_names(name@) is None,
            },
        decreases *self,
    {
        proof {
            crate::model::lemma_path_names_contains(self@, name@);
        }
        if str_eq(self.name.as_str(), name) {
            let mut v: Vec<String> = Vec::new();
            v.push(self.name.clone());
            proof {
                assert(v.deep_view() =~= seq![self.name@]);
            }
            return Some(v);
        }
        let k = self.children.len();
        let ghost cm = models_of(self.children@);
        proof {
            lemma_models_of(self.children@);
        }
        proof {
            assert(cm.subrange(0, k as int) =~= cm);
        }
        let mut i: usize = 0;
        while i < k
            invariant
                i <= k,
                k == self.children.len(),
                cm == models_of(self.children@),
                cm.len() == k,
                forall|j: int| 0 <= j < k ==> #[trigger] cm[j] == model_of(self.children@[j]),
                self@.name != name@,
                path_names_seq(cm, name@) == path_names_seq(
                    cm.subrange(i as int, k as int),
                    name@,
                ),
            decreases k - i,
        {
            proof {
                assert(decreases_to!(*self => self.children));
                assert(decreases_to!(self.children => self.children@));
                assert(decreases_to!(self.children@ => self.children@[i as int]));
            }
            let found = self.children[i].path(name);
            proof {
                let suf = cm.subrange(i as int, k as int);
                assert(suf.first() == cm[i as int]);
                assert(suf.drop_first() =~= cm.subrange(i + 1, k as int));
            }
            match found {
                Some(tail) => {
                    let ghost tailview = tail.deep_view();
                    let ghost tailvec = tail@;
                    let mut v: Vec<String> = Vec::new();
                    v.push(self.name.clone());
                    let mut tl = tail;
                    v.append(&mut tl);
                    proof {
                        crate::model::lemma_path_names_contains(self@, name@);
                        assert(self@.path_names(name@) == Some(seq![self@.name] + tailview));
                        assert(v.deep_view() =~= seq![self.name@] + tailview);
                        assert(v@.first() == self.name);
                        assert(v@.last() == tailvec.last());
                    }
                    return Some(v);
                },
                None => {},
            }
            i += 1;
        }
        proof {
            assert(cm.subrange(k as int, k as int) =~= Seq::<MemberModel>::empty());
        }
        None
    }
}

impl Clone for FamilyMember {
    /// Deep copy; the copy has the same model.
    fn clone(&self) -> (r: Self)
        ensures
            r@ == self@,
        decreases *self,
    {
        let k = self.children.len();
        let ghost cm = models_of(self.children@);
        proof {
            lemma_models_of(self.children@);
        }
        let mut kids: Vec<FamilyMember> = Vec::new();
        let mut i: usize = 0;
        while i < k
            invariant
                i <= k,
                k == self.children.len(),
                cm == models_of(self.children@),
                cm.len() == k,
                forall|j: int| 0 <= j < k ==> #[trigger] cm[j] == model_of(self.children@[j]),
                models_of(kids@) == cm.subrange(0, i as int),
            decreases k - i,
        {
            proof {
                assert(decreases_to!(*self => self.children));
                assert(decreases_to!(self.children => self.children@));
                assert(decreases_to!(self.children@ => self.children@[i as int]));
            }
            let c = self.children[i].clone();
            let ghost kv = kids@;
            kids.push(c);
            proof {
                assert(kids@.drop_last() =~= kv);
                assert(kids@.last() == c);
                assert(models_of(kids@) == models_of(kv).push(model_of(c)));
                assert(cm.subrange(0, i + 1) =~= cm.subrange(0, i as int).push(cm[i as int]));
            }
            i += 1;
        }
        let r = FamilyMember {
            name: self.name.clone(),
            birth_year: self.birth_year,
            hoser_power_add: self.hoser_power_add,
            member_type: self.member_type,
            position: match &self.position {
                Some(p) => Some(p.clone()),
                None => None,
            },
            children: kids,
            is_dead: self.is_dead,
        };
        proof {
            assert(cm.subrange(0, k as int) =~= cm);
            assert(r@ =~= self@);
        }
        r
    }
}

} // verus!
