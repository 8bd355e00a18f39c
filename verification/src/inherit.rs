//! The succession engine: re-roots the tree at an eligible descendant.
//! The successor becomes the head; every member of the new tree has its
//! generation promoted by the successor's former ordinal; a female
//! successor redirects her children's lineage to direct, and a male
//! child carries the direct line through his whole subtree. The old
//! tree is read, never changed: the caller decides what to do with it.

use vstd::prelude::*;

use crate::errors::TreeError;
use crate::lemmas::lemma_promoted_lineage_seq_index;
use crate::lemmas::lemma_succession_children_index;
use crate::model::{
    lemma_lookup_contains, promoted_lineage_seq, succession_children, MemberModel,
};
use crate::title::{Gender, Generation, Lineage, MemberType};
use crate::tree::{lemma_models_of, model_of, models_of, FamilyMember};

verus! {

impl FamilyMember {
    /// Promote this subtree's generations by `levels` (saturating at
    /// the head), in place; with `force` the whole subtree's lineage
    /// becomes direct, with `own_direct` this node's own does.
    fn promote_line(&mut self, levels: u8, force: bool, own_direct: bool)
        ensures
            final(self)@ == old(self)@.promoted_lineage(levels, force, own_direct),
        decreases *old(self),
    {
        let g = self.member_type.generation;
        self.member_type = MemberType {
            generation: g.promote(levels),
            gender: self.member_type.gender,
            lineage: if force || own_direct {
                Lineage::Direct
            } else {
                self.member_type.lineage
            },
        };
        let k = self.children.len();
        let ghost ocm = models_of(old(self).children@);
        proof {
            lemma_models_of(old(self).children@);
        }
        let mut i: usize = 0;
        while i < k
            invariant
                i <= k,
                k == self.children.len(),
                k == old(self).children.len(),
                ocm == models_of(old(self).children@),
                ocm.len() == k,
                forall|j: int| 0 <= j < k ==> #[trigger] ocm[j] == model_of(old(self).children@[j]),
                forall|j: int| i <= j < k ==> self.children@[j] == old(self).children@[j],
                forall|j: int|
                    0 <= j < i ==> model_of(#[trigger] self.children@[j])
                        == ocm[j].promoted_lineage(levels, force, false),
                self@.name == old(self)@.name,
                self@.birth_year == old(self)@.birth_year,
                self@.hoser_power_add == old(self)@.hoser_power_add,
                self@.member_type == (MemberType {
                    generation: old(self)@.member_type.generation.promote_spec(levels),
                    gender: old(self)@.member_type.gender,
                    lineage: if force || own_direct {
                        Lineage::Direct
                    } else {
                        old(self)@.member_type.lineage
                    },
                }),
                self@.position == old(self)@.position,
                self@.is_dead == old(self)@.is_dead,
            decreases k - i,
        {
            proof {
                assert(self.children@[i as int] == old(self).children@[i as int]);
                assert(decreases_to!(*old(self) => old(self).children));
                assert(decreases_to!(old(self).children => old(self).children@));
                assert(decreases_to!(old(self).children@ => old(self).children@[i as int]));
            }
            self.children[i].promote_line(levels, force, false);
            i += 1;
        }
        proof {
            lemma_models_of(self.children@);
            lemma_promoted_lineage_seq_index(ocm, levels, force);
            assert(models_of(self.children@) =~= promoted_lineage_seq(ocm, levels, force));
            assert(self@ =~= old(self)@.promoted_lineage(levels, force, own_direct));
        }
    }

    /// Derive the tree of the succession at the named member. Fails
    /// with `NotFound` when the name is absent, and with
    /// `IneligibleSuccessor` when the member's generation ordinal is
    /// above the grandchild's (two); only head, child and grandchild
    /// generations may inherit. This tree is only read; the new tree is
    /// returned to the caller.
    pub fn inherit(&self, name: &str) -> (r: Result<FamilyMember, TreeError>)
        requires
            self@.wf(),
        ensures
            match r {
                Ok(t) => (self@.lookup(name@) matches Some(s)
                    && s.member_type.generation.ordinal_spec() <= 2) && t@ == self@.inherit_model(
                    name@,
                ) && t@.wf(),
                Err(TreeError::NotFound(n)) => n@ == name@ && !self@.contains_name(name@),
                Err(TreeError::IneligibleSuccessor(n, g)) => n@ == name@ && (self@.lookup(name@)
                    matches Some(s) && s.member_type.generation == g && g.ordinal_spec() > 2),
                Err(_) => false,
            },
    {
        proof {
            lemma_lookup_contains(self@, name@);
        }
        let succ_ref = match self.find_member_by_name(name) {
            None => {
                return Err(TreeError::NotFound(name.to_owned()));
            },
            Some(s) => s,
        };
        let g = succ_ref.member_type.generation;
        if g.ordinal() > 2 {
            return Err(TreeError::IneligibleSuccessor(name.to_owned(), g));
        }
        let levels = g.ordinal();
        let mut new_head = succ_ref.clone();
        let ghost succ = self@.lookup(name@)->Some_0;
        proof {
            assert(new_head@ == succ);
            assert(levels as nat == succ.member_type.generation.ordinal_spec());
        }
        let female = new_head.member_type.gender == Gender::Female;
        new_head.member_type = MemberType {
            generation: Generation::Head,
            gender: new_head.member_type.gender,
            lineage: new_head.member_type.lineage,
        };
        let k = new_head.children.len();
        let ghost scm = succ.children;
        proof {
            lemma_models_of(new_head.children@);
        }
        let mut i: usize = 0;
        while i < k
            invariant
                i <= k,
                k == new_head.children.len(),
                scm.len() == k,
                forall|j: int| i <= j < k ==> model_of(#[trigger] new_head.children@[j]) == scm[j],
                forall|j: int|
                    0 <= j < i ==> model_of(#[trigger] new_head.children@[j])
                        == scm[j].promoted_lineage(
                        levels,
                        female && scm[j].member_type.gender == Gender::Male,
                        female,
                    ),
                new_head@.name == succ.name,
                new_head@.birth_year == succ.birth_year,
                new_head@.hoser_power_add == succ.hoser_power_add,
                new_head@.member_type == (MemberType {
                    generation: Generation::Head,
                    gender: succ.member_type.gender,
                    lineage: succ.member_type.lineage,
                }),
                new_head@.position == succ.position,
                new_head@.is_dead == succ.is_dead,
                female == (succ.member_type.gender == Gender::Female),
            decreases k - i,
        {
            let force = female && new_head.children[i].member_type.gender == Gender::Male;
            proof {
                assert(model_of(new_head.children@[i as int]) == scm[i as int]);
                assert((new_head.children@[i as int].member_type.gender == Gender::Male) == (
                scm[i as int].member_type.gender == Gender::Male));
            }
            new_head.children[i].promote_line(levels, force, female);
            i += 1;
        }
        proof {
            lemma_models_of(new_head.children@);
            lemma_succession_children_index(scm, levels, female);
            assert(models_of(new_head.children@) =~= succession_children(scm, levels, female));
            assert(new_head@ =~= self@.inherit_model(name@));
            crate::lemmas::lemma_lookup_wf(self@, name@);
            assert forall|x: Seq<char>| #![auto] new_head@.name_count(x) <= 1 by {
                crate::lemmas::lemma_succession_children_count(scm, levels, female, x);
                assert(new_head@.name_count(x) == succ.name_count(x));
            }
        }
        Ok(new_head)
    }
}

} // verus!
