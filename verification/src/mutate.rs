//! The mutation engine: transactional batch insert, rename, mark-dead,
//! set-position and prune-by-year. Every operation either reports an
//! error and leaves the tree exactly as it was, or performs the model
//! transformation its contract names; all of them preserve the
//! uniqueness of names.

use vstd::prelude::*;

use crate::errors::TreeError;
use crate::lemmas::{
    lemma_dead_seq_index, lemma_occ_all_names_seq, lemma_occ_distinct, lemma_occ_positive,
    lemma_occ_two, lemma_pos_seq_index, lemma_pruned_count, lemma_renamed_count,
    lemma_renamed_seq_index,
};
use crate::lemmas::lemma_inserted_count;
use crate::model::{
    all_names_seq, batch_fresh, dead_seq, lemma_name_count_seq_elem, name_count_seq, occ, pos_seq,
    pruned_seq, renamed_seq, MemberModel,
};
use crate::strutil::str_eq;
use crate::tree::{lemma_models_of, model_of, models_of, FamilyMember};

verus! {

impl FamilyMember {
    /// Append every name of this subtree to `out`, the node's own first.
    fn collect_names(&self, out: &mut Vec<String>)
        ensures
            final(out).deep_view() == old(out).deep_view() + self@.all_names(),
        decreases *self,
    {
        out.push(self.name.clone());
        proof {
            assert(out.deep_view() =~= old(out).deep_view() + seq![self@.name]);
        }
        let k = self.children.len();
        let ghost cm = models_of(self.children@);
        proof {
            lemma_models_of(self.children@);
        }
        let mut i: usize = 0;
        while i < k
            invariant
                i <= k,
                k == self.children.len(),
                cm == models_of(self.children@),
                cm.len() == k,
                forall|j: int| 0 <= j < k ==> #[trigger] cm[j] == model_of(self.children@[j]),
                out.deep_view() == old(out).deep_view() + seq![self@.name] + all_names_seq(
                    cm.subrange(0, i as int),
                ),
            decreases k - i,
        {
            proof {
                assert(decreases_to!(*self => self.children));
                assert(decreases_to!(self.children => self.children@));
                assert(decreases_to!(self.children@ => self.children@[i as int]));
            }
            self.children[i].collect_names(out);
            proof {
                assert(cm.subrange(0, i + 1).drop_last() =~= cm.subrange(0, i as int));
                assert(cm.subrange(0, i + 1).last() == cm[i as int]);
                assert(out.deep_view() =~= old(out).deep_view() + seq![self@.name]
                    + all_names_seq(cm.subrange(0, i + 1)));
            }
            i += 1;
        }
        proof {
            assert(cm.subrange(0, k as int) =~= cm);
            assert(old(out).deep_view() + seq![self@.name] + all_names_seq(cm) =~= old(
                out,
            ).deep_view() + (seq![self@.name] + all_names_seq(cm)));
        }
    }

    /// Scan a proposed batch for a name conflict: a name already in the
    /// tree, or one that occurs twice among the batch subtrees. Returns
    /// an offending name, or `None` when the batch may join the tree.
    fn find_batch_conflict(&self, batch: &Vec<FamilyMember>) -> (r: Option<String>)
        requires
            self@.wf(),
        ensures
            (r is None) <==> batch_fresh(self@, models_of(batch@)),
            r matches Some(d) ==> self@.contains_name(d@) || name_count_seq(
                models_of(batch@),
                d@,
            ) >= 2,
    {
        let ghost bm = models_of(batch@);
        proof {
            lemma_models_of(batch@);
        }
        let mut names: Vec<String> = Vec::new();
        let bk = batch.len();
        let mut i: usize = 0;
        while i < bk
            invariant
                i <= bk,
                bk == batch.len(),
                bm == models_of(batch@),
                bm.len() == bk,
                forall|j: int| 0 <= j < bk ==> #[trigger] bm[j] == model_of(batch@[j]),
                names.deep_view() == all_names_seq(bm.subrange(0, i as int)),
            decreases bk - i,
        {
            batch[i].collect_names(&mut names);
            proof {
                assert(bm.subrange(0, i + 1).drop_last() =~= bm.subrange(0, i as int));
                assert(bm.subrange(0, i + 1).last() == bm[i as int]);
            }
            i += 1;
        }
        proof {
            assert(bm.subrange(0, bk as int) =~= bm);
        }
        let ghost nv = names.deep_view();
        let nk = names.len();
        proof {
            assert(nv.len() == nk);
        }
        let mut t: usize = 0;
        while t < nk
            invariant
                t <= nk,
                nk == names.len(),
                self@.wf(),
                nv == names.deep_view(),
                nv == all_names_seq(bm),
                bm == models_of(batch@),
                nv.len() == nk,
                forall|a: int| 0 <= a < t ==> !self@.contains_name(#[trigger] nv[a]),
                forall|a: int, b: int| 0 <= a < b < t ==> nv[a] != nv[b],
            decreases nk - t,
        {
            if self.has_member(names[t].as_str()) {
                let d = names[t].clone();
                proof {
                    assert(d@ == nv[t as int]);
                    lemma_occ_positive(nv, d@);
                    assert(occ(nv, d@) > 0);
                    lemma_occ_all_names_seq(bm, d@);
                    assert(self@.name_count(d@) + name_count_seq(bm, d@) >= 2);
                }
                return Some(d);
            }
            let mut u: usize = 0;
            while u < t
                invariant
                    u <= t,
                    t < nk,
                    nk == names.len(),
                    nv == names.deep_view(),
                    nv == all_names_seq(bm),
                    bm == models_of(batch@),
                    nv.len() == nk,
                    self@.wf(),
                    forall|a: int| 0 <= a < t ==> !self@.contains_name(#[trigger] nv[a]),
                    forall|a: int, b: int| 0 <= a < b < t ==> nv[a] != nv[b],
                    forall|a: int| 0 <= a < u ==> nv[a] != nv[t as int],
                decreases t - u,
            {
                if str_eq(names[u].as_str(), names[t].as_str()) {
                    let d = names[t].clone();
                    proof {
                        assert(d@ == nv[t as int]);
                        assert(nv[u as int] == nv[t as int]);
                        lemma_occ_two(nv, u as int, t as int, d@);
                        lemma_occ_all_names_seq(bm, d@);
                        assert(name_count_seq(bm, d@) >= 2);
                    }
                    return Some(d);
                }
                u += 1;
            }
            t += 1;
        }
        proof {
            lemma_occ_distinct(nv);
            assert forall|x: Seq<char>| #![auto] self@.name_count(x) + name_count_seq(bm, x)
                <= 1 by {
                lemma_occ_all_names_seq(bm, x);
                if occ(nv, x) > 0 {
                    lemma_occ_positive(nv, x);
                    let a = choose|a: int| 0 <= a < nv.len() && nv[a] == x;
                    assert(!self@.contains_name(nv[a]));
                }
            }
        }
        None
    }

    /// Whether every name in this tree is unique: the invariant that
    /// the mutation operations demand and preserve. A caller that
    /// receives a tree from outside checks it with this before editing.
    pub fn check_unique_names(&self) -> (r: bool)
        ensures
            r == self@.wf(),
    {
        let mut names: Vec<String> = Vec::new();
        self.collect_names(&mut names);
        let ghost nv = names.deep_view();
        proof {
            assert(Seq::<Seq<char>>::empty() + self@.all_names() =~= self@.all_names());
        }
        let nk = names.len();
        proof {
            assert(nv.len() == nk);
        }
        let mut t: usize = 0;
        while t < nk
            invariant
                t <= nk,
                nk == names.len(),
                nv == names.deep_view(),
                nv == self@.all_names(),
                nv.len() == nk,
                forall|a: int, b: int| 0 <= a < b < t ==> nv[a] != nv[b],
            decreases nk - t,
        {
            let mut u: usize = 0;
            while u < t
                invariant
                    u <= t,
                    t < nk,
                    nk == names.len(),
                    nv == names.deep_view(),
                    nv == self@.all_names(),
                    nv.len() == nk,
                    forall|a: int, b: int| 0 <= a < b < t ==> nv[a] != nv[b],
                    forall|a: int| 0 <= a < u ==> nv[a] != nv[t as int],
                decreases t - u,
            {
                if str_eq(names[u].as_str(), names[t].as_str()) {
                    proof {
                        assert(nv[u as int] == nv[t as int]);
                        lemma_occ_two(nv, u as int, t as int, nv[t as int]);
                        crate::lemmas::lemma_occ_all_names(self@, nv[t as int]);
                        assert(self@.name_count(nv[t as int]) >= 2);
                    }
                    return false;
                }
                u += 1;
            }
            t += 1;
        }
        proof {
            lemma_occ_distinct(nv);
            assert forall|x: Seq<char>| self@.name_count(x) <= 1 by {
                crate::lemmas::lemma_occ_all_names(self@, x);
                assert(occ(nv, x) <= 1);
            }
        }
        true
    }

    /// Mark dead, in place, every node of this subtree named `name`.
    fn set_dead_all(&mut self, name: &str)
        ensures
            final(self)@ == old(self)@.with_dead(name@),
        decreases *old(self),
    {
        if str_eq(self.name.as_str(), name) {
            self.is_dead = true;
        }
        let k = self.children.len();
        let ghost ocm = models_of(old(self).children@);
        proof {
            lemma_models_of(old(self).children@);
        }
        let mut i: usize = 0;
        while i < k
            invariant
                i <= k,
                k == self.children.len(),
                k == old(self).children.len(),
                ocm == models_of(old(self).children@),
                ocm.len() == k,
                forall|j: int| 0 <= j < k ==> #[trigger] ocm[j] == model_of(old(self).children@[j]),
                forall|j: int| i <= j < k ==> self.children@[j] == old(self).children@[j],
                forall|j: int|
                    0 <= j < i ==> model_of(#[trigger] self.children@[j]) == ocm[j].with_dead(
                        name@,
                    ),
                self@.name == old(self)@.name,
                self@.birth_year == old(self)@.birth_year,
                self@.hoser_power_add == old(self)@.hoser_power_add,
                self@.member_type == old(self)@.member_type,
                self@.position == old(self)@.position,
                self@.is_dead == (old(self)@.is_dead || old(self)@.name == name@),
            decreases k - i,
        {
            proof {
                assert(self.children@[i as int] == old(self).children@[i as int]);
                assert(decreases_to!(*old(self) => old(self).children));
                assert(decreases_to!(old(self).children => old(self).children@));
                assert(decreases_to!(old(self).children@ => old(self).children@[i as int]));
            }
            self.children[i].set_dead_all(name);
            i += 1;
        }
        proof {
            lemma_models_of(self.children@);
            lemma_dead_seq_index(ocm, name@);
            assert(models_of(self.children@) =~= dead_seq(ocm, name@));
            assert(self@ =~= old(self)@.with_dead(name@));
        }
    }

    /// Rename, in place, every node of this subtree named `o` to `nw`.
    fn rename_all(&mut self, o: &str, nw: &str)
        ensures
            final(self)@ == old(self)@.with_renamed(o@, nw@),
        decreases *old(self),
    {
        if str_eq(self.name.as_str(), o) {
            self.name = nw.to_owned();
        }
        let k = self.children.len();
        let ghost ocm = models_of(old(self).children@);
        proof {
            lemma_models_of(old(self).children@);
        }
        let mut i: usize = 0;
        while i < k
            invariant
                i <= k,
                k == self.children.len(),
                k == old(self).children.len(),
                ocm == models_of(old(self).children@),
                ocm.len() == k,
                forall|j: int| 0 <= j < k ==> #[trigger] ocm[j] == model_of(old(self).children@[j]),
                forall|j: int| i <= j < k ==> self.children@[j] == old(self).children@[j],
                forall|j: int|
                    0 <= j < i ==> model_of(#[trigger] self.children@[j]) == ocm[j].with_renamed(
                        o@,
                        nw@,
                    ),
                self@.name == (if old(self)@.name == o@ {
                    nw@
                } else {
                    old(self)@.name
                }),
                self@.birth_year == old(self)@.birth_year,
                self@.hoser_power_add == old(self)@.hoser_power_add,
                self@.member_type == old(self)@.member_type,
                self@.position == old(self)@.position,
                self@.is_dead == old(self)@.is_dead,
            decreases k - i,
        {
            proof {
                assert(self.children@[i as int] == old(self).children@[i as int]);
                assert(decreases_to!(*old(self) => old(self).children));
                assert(decreases_to!(old(self).children => old(self).children@));
                assert(decreases_to!(old(self).children@ => old(self).children@[i as int]));
            }
            self.children[i].rename_all(o, nw);
            i += 1;
        }
        proof {
            lemma_models_of(self.children@);
            lemma_renamed_seq_index(ocm, o@, nw@);
            assert(models_of(self.children@) =~= renamed_seq(ocm, o@, nw@));
            assert(self@ =~= old(self)@.with_renamed(o@, nw@));
        }
    }

    /// Set the position, in place, of every node of this subtree named
    /// `name`.
    fn set_position_all(&mut self, name: &str, position: &str)
        ensures
            final(self)@ == old(self)@.with_position(name@, position@),
        decreases *old(self),
    {
        if str_eq(self.name.as_str(), name) {
            self.position = Some(position.to_owned());
        }
        let k = self.children.len();
        let ghost ocm = models_of(old(self).children@);
        proof {
            lemma_models_of(old(self).children@);
        }
        let mut i: usize = 0;
        while i < k
            invariant
                i <= k,
                k == self.children.len(),
                k == old(self).children.len(),
                ocm == models_of(old(self).children@),
                ocm.len() == k,
                forall|j: int| 0 <= j < k ==> #[trigger] ocm[j] == model_of(old(self).children@[j]),
                forall|j: int| i <= j < k ==> self.children@[j] == old(self).children@[j],
                forall|j: int|
                    0 <= j < i ==> model_of(#[trigger] self.children@[j]) == ocm[j].with_position(
                        name@,
                        position@,
                    ),
                self@.name == old(self)@.name,
                self@.birth_year == old(self)@.birth_year,
                self@.hoser_power_add == old(self)@.hoser_power_add,
                self@.member_type == old(self)@.member_type,
                self@.position == (if old(self)@.name == name@ {
                    Some(position@)
                } else {
                    old(self)@.position
                }),
                self@.is_dead == old(self)@.is_dead,
            decreases k - i,
        {
            proof {
                assert(self.children@[i as int] == old(self).children@[i as int]);
                assert(decreases_to!(*old(self) => old(self).children));
                assert(decreases_to!(old(self).children => old(self).children@));
                assert(decreases_to!(old(self).children@ => old(self).children@[i as int]));
            }
            self.children[i].set_position_all(name, position);
            i += 1;
        }
        proof {
            lemma_models_of(self.children@);
            lemma_pos_seq_index(ocm, name@, position@);
            assert(models_of(self.children@) =~= pos_seq(ocm, name@, position@));
            assert(self@ =~= old(self)@.with_position(name@, position@));
        }
    }

    /// Append a copy of the batch to the children of every outermost
    /// node of this subtree named `parent_name`.
    fn insert_at_all(&mut self, parent_name: &str, batch: &Vec<FamilyMember>)
        ensures
            final(self)@ == old(self)@.with_inserted(parent_name@, models_of(batch@)),
        decreases *old(self),
    {
        let ghost bm = models_of(batch@);
        proof {
            lemma_models_of(batch@);
        }
        if str_eq(self.name.as_str(), parent_name) {
            let ghost oldkids = models_of(self.children@);
            let bk = batch.len();
            let mut i: usize = 0;
            while i < bk
                invariant
                    i <= bk,
                    bk == batch.len(),
                    bm == models_of(batch@),
                    bm.len() == bk,
                    forall|j: int| 0 <= j < bk ==> #[trigger] bm[j] == model_of(batch@[j]),
                    models_of(self.children@) == oldkids + bm.subrange(0, i as int),
                    self@.name == old(self)@.name,
                    self@.birth_year == old(self)@.birth_year,
                    self@.hoser_power_add == old(self)@.hoser_power_add,
                    self@.member_type == old(self)@.member_type,
                    self@.position == old(self)@.position,
                    self@.is_dead == old(self)@.is_dead,
                decreases bk - i,
            {
                let c = batch[i].clone();
                let ghost kv = self.children@;
                self.children.push(c);
                proof {
                    assert(self.children@.drop_last() =~= kv);
                    assert(self.children@.last() == c);
                    assert(models_of(self.children@) == models_of(kv).push(model_of(c)));
                    assert(bm.subrange(0, i + 1).drop_last() =~= bm.subrange(0, i as int));
                    assert(bm.subrange(0, i + 1).last() == bm[i as int]);
                    assert(models_of(self.children@) =~= oldkids + bm.subrange(0, i + 1));
                }
                i += 1;
            }
            proof {
                assert(bm.subrange(0, bk as int) =~= bm);
                assert(oldkids == old(self)@.children);
                assert(self@ =~= old(self)@.with_inserted(parent_name@, bm));
            }
        } else {
            let k = self.children.len();
            let ghost ocm = models_of(old(self).children@);
            proof {
                lemma_models_of(old(self).children@);
            }
            let mut i: usize = 0;
            while i < k
                invariant
                    i <= k,
                    k == self.children.len(),
                    k == old(self).children.len(),
                    ocm == models_of(old(self).children@),
                    ocm.len() == k,
                    bm == models_of(batch@),
                    forall|j: int|
                        0 <= j < k ==> #[trigger] ocm[j] == model_of(old(self).children@[j]),
                    forall|j: int| i <= j < k ==> self.children@[j] == old(self).children@[j],
                    forall|j: int|
                        0 <= j < i ==> model_of(#[trigger] self.children@[j])
                            == ocm[j].with_inserted(parent_name@, bm),
                    self@.name == old(self)@.name,
                    self@.name != parent_name@,
                    self@.birth_year == old(self)@.birth_year,
                    self@.hoser_power_add == old(self)@.hoser_power_add,
                    self@.member_type == old(self)@.member_type,
                    self@.position == old(self)@.position,
                    self@.is_dead == old(self)@.is_dead,
                decreases k - i,
            {
                proof {
                    assert(self.children@[i as int] == old(self).children@[i as int]);
                    assert(decreases_to!(*old(self) => old(self).children));
                    assert(decreases_to!(old(self).children => old(self).children@));
                    assert(decreases_to!(old(self).children@ => old(self).children@[i as int]));
                }
                self.children[i].insert_at_all(parent_name, batch);
                i += 1;
            }
            proof {
                lemma_models_of(self.children@);
                crate::lemmas::lemma_inserted_seq_index(ocm, parent_name@, bm);
                assert(models_of(self.children@) =~= crate::model::inserted_seq(
                    ocm,
                    parent_name@,
                    bm,
                ));
                assert(self@ =~= old(self)@.with_inserted(parent_name@, bm));
            }
        }
    }

    /// Transactional batch insert: every name carried by the batch (the
    /// new members and all their descendants) is validated against the
    /// whole tree and against the rest of the batch before anything is
    /// inserted. On success all batch members are appended, in order,
    /// as children of the named parent; on any error the tree is left
    /// exactly as it was.
    pub fn insert_children(&mut self, parent_name: &str, batch: &Vec<FamilyMember>) -> (r: Result<
        (),
        TreeError,
    >)
        requires
            old(self)@.wf(),
        ensures
            match r {
                Ok(()) => batch_fresh(old(self)@, models_of(batch@)) && old(self)@.contains_name(
                    parent_name@,
                ) && final(self)@ == old(self)@.with_inserted(parent_name@, models_of(batch@))
                    && final(self)@.wf(),
                Err(TreeError::DuplicateName(d)) => !batch_fresh(old(self)@, models_of(batch@)) && (
                old(self)@.contains_name(d@) || name_count_seq(models_of(batch@), d@) >= 2)
                    && *final(self) == *old(self),
                Err(TreeError::NotFound(p)) => p@ == parent_name@ && batch_fresh(
                    old(self)@,
                    models_of(batch@),
                ) && !old(self)@.contains_name(parent_name@) && *final(self) == *old(self),
                Err(_) => false,
            },
    {
        match self.find_batch_conflict(batch) {
            Some(d) => {
                return Err(TreeError::DuplicateName(d));
            },
            None => {},
        }
        if !self.has_member(parent_name) {
            return Err(TreeError::NotFound(parent_name.to_owned()));
        }
        self.insert_at_all(parent_name, batch);
        proof {
            let t = old(self)@;
            let bm = models_of(batch@);
            assert forall|x: Seq<char>| #![auto] final(self)@.name_count(x) <= 1 by {
                lemma_inserted_count(t, parent_name@, bm, x);
            }
        }
        Ok(())
    }

    /// Rename the member `old_name` to `new_name`. Fails when the new
    /// name already exists anywhere in the tree (also when it equals
    /// `old_name`), or when `old_name` is not found; a failed rename
    /// changes nothing.
    pub fn rename(&mut self, old_name: &str, new_name: &str) -> (r: Result<(), TreeError>)
        requires
            old(self)@.wf(),
        ensures
            match r {
                Ok(()) => !old(self)@.contains_name(new_name@) && old(self)@.contains_name(
                    old_name@,
                ) && final(self)@ == old(self)@.with_renamed(old_name@, new_name@)
                    && final(self)@.wf(),
                Err(TreeError::DuplicateName(d)) => d@ == new_name@ && old(self)@.contains_name(
                    new_name@,
                ) && *final(self) == *old(self),
                Err(TreeError::NotFound(n)) => n@ == old_name@ && !old(self)@.contains_name(
                    new_name@,
                ) && !old(self)@.contains_name(old_name@) && *final(self) == *old(self),
                Err(_) => false,
            },
    {
        if self.has_member(new_name) {
            return Err(TreeError::DuplicateName(new_name.to_owned()));
        }
        if !self.has_member(old_name) {
            return Err(TreeError::NotFound(old_name.to_owned()));
        }
        proof {
            assert(old_name@ != new_name@);
        }
        self.rename_all(old_name, new_name);
        proof {
            let t = old(self)@;
            assert forall|x: Seq<char>| #![auto] final(self)@.name_count(x) <= 1 by {
                lemma_renamed_count(t, old_name@, new_name@, x);
            }
        }
        Ok(())
    }

    /// Mark the named member dead. Fails when the name is absent or the
    /// member is already dead (the two are distinct errors); a failed
    /// call changes nothing. Marking does not cascade: descendants stay
    /// alive.
    pub fn mark_dead(&mut self, name: &str) -> (r: Result<(), TreeError>)
        requires
            old(self)@.wf(),
        ensures
            match r {
                Ok(()) => (old(self)@.lookup(name@) matches Some(t) && !t.is_dead) && final(self)@
                    == old(self)@.with_dead(name@) && final(self)@.wf(),
                Err(TreeError::NotFound(n)) => n@ == name@ && !old(self)@.contains_name(name@)
                    && *final(self) == *old(self),
                Err(TreeError::AlreadyDead(n)) => n@ == name@ && (old(self)@.lookup(name@) matches
                Some(t) && t.is_dead) && *final(self) == *old(self),
                Err(_) => false,
            },
    {
        let dead_state: Option<bool> = match self.find_member_by_name(name) {
            None => None,
            Some(t) => Some(t.is_dead),
        };
        match dead_state {
            None => {
                proof {
                    crate::model::lemma_lookup_contains(old(self)@, name@);
                }
                Err(TreeError::NotFound(name.to_owned()))
            },
            Some(true) => Err(TreeError::AlreadyDead(name.to_owned())),
            Some(false) => {
                self.set_dead_all(name);
                proof {
                    let t = old(self)@;
                    assert forall|x: Seq<char>| #![auto] final(self)@.name_count(x) <= 1 by {
                        crate::lemmas::lemma_dead_count(t, name@, x);
                    }
                }
                Ok(())
            },
        }
    }

    /// Set (or overwrite) the optional position of the named member.
    /// Fails, changing nothing, when the name is absent.
    pub fn add_position(&mut self, name: &str, position: &str) -> (r: Result<(), TreeError>)
        requires
            old(self)@.wf(),
        ensures
            match r {
                Ok(()) => old(self)@.contains_name(name@) && final(self)@ == old(self)@.with_position(name@, position@)
                    && final(self)@.wf(),
                Err(TreeError::NotFound(n)) => n@ == name@ && !old(self)@.contains_name(name@)
                    && *final(self) == *old(self),
                Err(_) => false,
            },
    {
        if !self.has_member(name) {
            return Err(TreeError::NotFound(name.to_owned()));
        }
        self.set_position_all(name, position);
        proof {
            let t = old(self)@;
            assert forall|x: Seq<char>| #![auto] final(self)@.name_count(x) <= 1 by {
                crate::lemmas::lemma_pos_count(t, name@, position@, x);
            }
        }
        Ok(())
    }

    /// Remove, at every level, every child born strictly after `year`,
    /// with its whole subtree. The root itself always stays. Never
    /// fails; pruning twice with the same year changes nothing more.
    pub fn prune_future_births(&mut self, year: u16)
        ensures
            final(self)@ == old(self)@.pruned(year),
            old(self)@.wf() ==> final(self)@.wf(),
        decreases *old(self),
    {
        let mut source: Vec<FamilyMember> = Vec::new();
        core::mem::swap(&mut self.children, &mut source);
        let mut kept: Vec<FamilyMember> = Vec::new();
        let k = source.len();
        let ghost ocm = models_of(old(self).children@);
        proof {
            lemma_models_of(old(self).children@);
        }
        let mut i: usize = 0;
        while i < k
            invariant
                i <= k,
                k == old(self).children.len(),
                source@ == old(self).children@.subrange(i as int, k as int),
                ocm == models_of(old(self).children@),
                ocm.len() == k,
                forall|j: int| 0 <= j < k ==> #[trigger] ocm[j] == model_of(old(self).children@[j]),
                models_of(kept@) == pruned_seq(ocm.subrange(0, i as int), year),
                self.children@.len() == 0,
                self@.name == old(self)@.name,
                self@.birth_year == old(self)@.birth_year,
                self@.hoser_power_add == old(self)@.hoser_power_add,
                self@.member_type == old(self)@.member_type,
                self@.position == old(self)@.position,
                self@.is_dead == old(self)@.is_dead,
            decreases k - i,
        {
            let c = source.remove(0);
            proof {
                assert(c == old(self).children@[i as int]);
                assert(source@ =~= old(self).children@.subrange(i + 1, k as int));
                assert(ocm.subrange(0, i + 1).drop_last() =~= ocm.subrange(0, i as int));
                assert(ocm.subrange(0, i + 1).last() == ocm[i as int]);
            }
            if c.birth_year <= year {
                let mut c2 = c;
                proof {
                    assert(decreases_to!(*old(self) => old(self).children));
                    assert(decreases_to!(old(self).children => old(self).children@));
                    assert(decreases_to!(old(self).children@ => old(self).children@[i as int]));
                }
                c2.prune_future_births(year);
                let ghost kv = kept@;
                kept.push(c2);
                proof {
                    assert(kept@.drop_last() =~= kv);
                    assert(kept@.last() == c2);
                    assert(models_of(kept@) == models_of(kv).push(model_of(c2)));
                    assert(models_of(kept@) =~= pruned_seq(ocm.subrange(0, i + 1), year));
                }
            } else {
                proof {
                    assert(ocm[i as int].birth_year > year);
                    assert(models_of(kept@) =~= pruned_seq(ocm.subrange(0, i + 1), year));
                }
            }
            i += 1;
        }
        self.children = kept;
        proof {
            assert(ocm.subrange(0, k as int) =~= ocm);
            assert(self@ =~= old(self)@.pruned(year));
            if old(self)@.wf() {
                assert forall|x: Seq<char>| #![auto] final(self)@.name_count(x) <= 1 by {
                    lemma_pruned_count(old(self)@, year, x);
                }
            }
        }
    }
}

} // verus!
