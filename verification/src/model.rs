//! Mathematical model of the family tree.
//!
//! `MemberModel` is the ghost counterpart of the executable tree node:
//! names are character sequences and the children form a `Seq`. All
//! contracts of the library speak about this model. The spec functions
//! here define the queries (name counting, lookup, path, population
//! count) and the whole-tree transformations (rename, mark-dead, prune,
//! insert, promote) together with the lemmas that relate them.

use vstd::prelude::*;

use crate::title::{Gender, Generation, Lineage, MemberType};

verus! {

/// Ghost model of one member: the same fields as the executable node,
/// with views in place of `String` and `Vec`.
#[verifier::ext_equal]
pub struct MemberModel {
    pub name: Seq<char>,
    pub birth_year: u16,
    pub hoser_power_add: u8,
    pub member_type: MemberType,
    pub position: Option<Seq<char>>,
    pub children: Seq<MemberModel>,
    pub is_dead: bool,
}

impl MemberModel {
    /// Number of nodes (alive or dead) in this subtree.
    pub open spec fn node_count(self) -> nat
        decreases self,
    {
        1 + node_count_seq(self.children)
    }

    /// Number of living members in this subtree. A dead member is not
    /// counted, but its subtree is still walked: living descendants of
    /// a dead member do count.
    pub open spec fn living_count(self) -> nat
        decreases self,
    {
        (if self.is_dead {
            0nat
        } else {
            1nat
        }) + living_count_seq(self.children)
    }

    /// How many nodes of this subtree carry the name `n`.
    pub open spec fn name_count(self, n: Seq<char>) -> nat
        decreases self,
    {
        (if self.name == n {
            1nat
        } else {
            0nat
        }) + name_count_seq(self.children, n)
    }

    /// Whether some node of this subtree is named `n`.
    pub open spec fn contains_name(self, n: Seq<char>) -> bool {
        self.name_count(n) > 0
    }

    /// Name uniqueness: the tree invariant that every mutation preserves.
    pub open spec fn wf(self) -> bool {
        forall|n: Seq<char>| self.name_count(n) <= 1
    }

    /// The first node named `n` in a pre-order, depth-first walk.
    pub open spec fn lookup(self, n: Seq<char>) -> Option<MemberModel>
        decreases self,
    {
        if self.name == n {
            Some(self)
        } else {
            lookup_seq(self.children, n)
        }
    }

    /// Names along the root-to-target chain of the first node named `n`
    /// (inclusive of both ends), or `None` when `n` is absent.
    pub open spec fn path_names(self, n: Seq<char>) -> Option<Seq<Seq<char>>>
        decreases self,
    {
        if self.name == n {
            Some(seq![self.name])
        } else {
            match path_names_seq(self.children, n) {
                Some(p) => Some(seq![self.name] + p),
                None => None,
            }
        }
    }
}

/// Total node count of a forest.
pub open spec fn node_count_seq(s: Seq<MemberModel>) -> nat
    decreases s,
{
    if s.len() == 0 {
        0
    } else {
        node_count_seq(s.drop_last()) + s.last().node_count()
    }
}

/// Living-member count of a forest.
pub open spec fn living_count_seq(s: Seq<MemberModel>) -> nat
    decreases s,
{
    if s.len() == 0 {
        0
    } else {
        living_count_seq(s.drop_last()) + s.last().living_count()
    }
}

/// Occurrences of the name `n` in a forest.
pub open spec fn name_count_seq(s: Seq<MemberModel>, n: Seq<char>) -> nat
    decreases s,
{
    if s.len() == 0 {
        0
    } else {
        name_count_seq(s.drop_last(), n) + s.last().name_count(n)
    }
}

/// First pre-order match for `n` in a forest, scanning left to right.
pub open spec fn lookup_seq(s: Seq<MemberModel>, n: Seq<char>) -> Option<MemberModel>
    decreases s,
{
    if s.len() == 0 {
        None
    } else {
        match s.first().lookup(n) {
            Some(t) => Some(t),
            None => lookup_seq(s.drop_first(), n),
        }
    }
}

/// Path names for the first subtree of a forest that holds `n`.
pub open spec fn path_names_seq(s: Seq<MemberModel>, n: Seq<char>) -> Option<Seq<Seq<char>>>
    decreases s,
{
    if s.len() == 0 {
        None
    } else {
        match s.first().path_names(n) {
            Some(p) => Some(p),
            None => path_names_seq(s.drop_first(), n),
        }
    }
}

// ---------------------------------------------------------------------------
// Lemmas about the counting and lookup functions
// ---------------------------------------------------------------------------

/// Splitting a forest count at the last element of a prefix.
pub proof fn lemma_name_count_seq_push(s: Seq<MemberModel>, m: MemberModel, n: Seq<char>)
    ensures
        name_count_seq(s.push(m), n) == name_count_seq(s, n) + m.name_count(n),
{
    assert(s.push(m).drop_last() =~= s);
    assert(s.push(m).last() == m);
}

pub proof fn lemma_living_count_seq_push(s: Seq<MemberModel>, m: MemberModel)
    ensures
        living_count_seq(s.push(m)) == living_count_seq(s) + m.living_count(),
{
    assert(s.push(m).drop_last() =~= s);
    assert(s.push(m).last() == m);
}

/// A forest's name count bounds each element's count.
pub proof fn lemma_name_count_seq_elem(s: Seq<MemberModel>, i: int, n: Seq<char>)
    requires
        0 <= i < s.len(),
    ensures
        s[i].name_count(n) <= name_count_seq(s, n),
    decreases s,
{
    if s.len() > 0 {
        if i == s.len() - 1 {
            assert(s.last() == s[i]);
        } else {
            assert(s.drop_last()[i] == s[i]);
            lemma_name_count_seq_elem(s.drop_last(), i, n);
        }
    }
}

/// A forest's node count bounds each element's count.
pub proof fn lemma_node_count_seq_elem(s: Seq<MemberModel>, i: int)
    requires
        0 <= i < s.len(),
    ensures
        s[i].node_count() <= node_count_seq(s),
    decreases s,
{
    if s.len() > 0 {
        if i == s.len() - 1 {
            assert(s.last() == s[i]);
        } else {
            assert(s.drop_last()[i] == s[i]);
            lemma_node_count_seq_elem(s.drop_last(), i);
        }
    }
}

/// The name count of a forest is the sum over its elements; in
/// quantifier form: a name present in some element is present in the
/// forest, and a name absent from every element is absent.
pub proof fn lemma_name_count_seq_zero(s: Seq<MemberModel>, n: Seq<char>)
    ensures
        (name_count_seq(s, n) == 0) <==> (forall|i: int|
            0 <= i < s.len() ==> (#[trigger] s[i].name_count(n)) == 0),
    decreases s,
{
    if s.len() > 0 {
        lemma_name_count_seq_zero(s.drop_last(), n);
        assert forall|i: int| 0 <= i < s.len() - 1 implies s.drop_last()[i] == s[i] by {}
        if name_count_seq(s, n) == 0 {
            assert forall|i: int| 0 <= i < s.len() implies (#[trigger] s[i].name_count(n))
                == 0 by {
                if i < s.len() - 1 {
                    assert(s[i] == s.drop_last()[i]);
                } else {
                    assert(s[i] == s.last());
                }
            }
        } else {
            if s.last().name_count(n) == 0 {
                assert(name_count_seq(s.drop_last(), n) > 0);
                let i = choose|i: int|
                    0 <= i < s.len() - 1 && (#[trigger] s.drop_last()[i].name_count(n)) > 0;
                assert(s[i].name_count(n) > 0);
            } else {
                assert(s[s.len() - 1].name_count(n) > 0);
            }
        }
    }
}

/// `lookup` finds a node exactly when the name is present, and what it
/// finds is a node of that name.
pub proof fn lemma_lookup_contains(m: MemberModel, n: Seq<char>)
    ensures
        m.contains_name(n) <==> m.lookup(n) is Some,
        m.lookup(n) matches Some(t) ==> t.name == n,
    decreases m,
{
    if m.name == n {
    } else {
        lemma_lookup_seq_contains(m.children, n);
    }
}

pub proof fn lemma_lookup_seq_contains(s: Seq<MemberModel>, n: Seq<char>)
    ensures
        (name_count_seq(s, n) > 0) <==> (lookup_seq(s, n) is Some),
        lookup_seq(s, n) matches Some(t) ==> t.name == n,
    decreases s,
{
    lemma_name_count_seq_zero(s, n);
    if s.len() > 0 {
        lemma_lookup_contains(s.first(), n);
        lemma_lookup_seq_contains(s.drop_first(), n);
        lemma_name_count_seq_zero(s.drop_first(), n);
        if lookup_seq(s, n) is Some {
            if s.first().lookup(n) is Some {
                assert(s[0].name_count(n) > 0);
            } else {
                let i = choose|i: int|
                    0 <= i < s.drop_first().len() && (#[trigger] s.drop_first()[i].name_count(n))
                        > 0;
                assert(s[i + 1] == s.drop_first()[i]);
                assert(s[i + 1].name_count(n) > 0);
            }
        } else {
            assert forall|i: int| 0 <= i < s.len() implies (#[trigger] s[i].name_count(n))
                == 0 by {
                if i == 0 {
                    assert(s[0] == s.first());
                } else {
                    assert(s.drop_first()[i - 1] == s[i]);
                }
            }
        }
    }
}

/// The path exists exactly when the name is present; it starts at the
/// root's name and ends with `n`.
pub proof fn lemma_path_names_contains(m: MemberModel, n: Seq<char>)
    ensures
        m.contains_name(n) <==> m.path_names(n) is Some,
        m.path_names(n) matches Some(p) ==> p.len() >= 1 && p.first() == m.name && p.last() == n,
    decreases m,
{
    if m.name == n {
    } else {
        lemma_path_names_seq_contains(m.children, n);
    }
}

pub proof fn lemma_path_names_seq_contains(s: Seq<MemberModel>, n: Seq<char>)
    ensures
        (name_count_seq(s, n) > 0) <==> (path_names_seq(s, n) is Some),
        path_names_seq(s, n) matches Some(p) ==> p.len() >= 1 && p.last() == n,
    decreases s,
{
    lemma_name_count_seq_zero(s, n);
    if s.len() > 0 {
        lemma_path_names_contains(s.first(), n);
        lemma_path_names_seq_contains(s.drop_first(), n);
        lemma_name_count_seq_zero(s.drop_first(), n);
        if path_names_seq(s, n) is Some {
            if s.first().path_names(n) is Some {
                assert(s[0].name_count(n) > 0);
            } else {
                let i = choose|i: int|
                    0 <= i < s.drop_first().len() && (#[trigger] s.drop_first()[i].name_count(n))
                        > 0;
                assert(s[i + 1] == s.drop_first()[i]);
                assert(s[i + 1].name_count(n) > 0);
            }
        } else {
            assert forall|i: int| 0 <= i < s.len() implies (#[trigger] s[i].name_count(n))
                == 0 by {
                if i == 0 {
                    assert(s[0] == s.first());
                } else {
                    assert(s.drop_first()[i - 1] == s[i]);
                }
            }
        }
    }
}

// ---------------------------------------------------------------------------
// Whole-tree transformations
// ---------------------------------------------------------------------------

impl MemberModel {
    /// Every node named `o` takes the name `nw`; nothing else changes.
    pub open spec fn with_renamed(self, o: Seq<char>, nw: Seq<char>) -> MemberModel
        decreases self,
    {
        MemberModel {
            name: if self.name == o {
                nw
            } else {
                self.name
            },
            children: renamed_seq(self.children, o, nw),
            ..self
        }
    }

    /// Every node named `n` is marked dead; nothing else changes.
    pub open spec fn with_dead(self, n: Seq<char>) -> MemberModel
        decreases self,
    {
        MemberModel {
            is_dead: self.is_dead || self.name == n,
            children: dead_seq(self.children, n),
            ..self
        }
    }

    /// Every node named `n` takes the position `p`; nothing else changes.
    pub open spec fn with_position(self, n: Seq<char>, p: Seq<char>) -> MemberModel
        decreases self,
    {
        MemberModel {
            position: if self.name == n {
                Some(p)
            } else {
                self.position
            },
            children: pos_seq(self.children, n, p),
            ..self
        }
    }

    /// Every child born strictly after `y` is removed with its whole
    /// subtree, at every level; the node itself always stays.
    pub open spec fn pruned(self, y: u16) -> MemberModel
        decreases self,
    {
        MemberModel { children: pruned_seq(self.children, y), ..self }
    }

    /// The batch is appended, in order, to the children of every
    /// outermost node named `parent`; nothing else changes.
    pub open spec fn with_inserted(self, parent: Seq<char>, batch: Seq<MemberModel>) -> MemberModel
        decreases self,
    {
        if self.name == parent {
            MemberModel { children: self.children + batch, ..self }
        } else {
            MemberModel { children: inserted_seq(self.children, parent, batch), ..self }
        }
    }

    /// Promotion pass of the succession engine over one subtree: every
    /// generation moves `levels` steps towards the head (saturating);
    /// with `force` the whole subtree's lineage becomes direct, and with
    /// `own_direct` this node's own lineage does.
    pub open spec fn promoted_lineage(self, levels: u8, force: bool, own_direct: bool) -> MemberModel
        decreases self,
    {
        MemberModel {
            member_type: MemberType {
                generation: self.member_type.generation.promote_spec(levels),
                gender: self.member_type.gender,
                lineage: if force || own_direct {
                    Lineage::Direct
                } else {
                    self.member_type.lineage
                },
            },
            children: promoted_lineage_seq(self.children, levels, force),
            ..self
        }
    }

    /// How many nodes named `n` are alive in this subtree.
    pub open spec fn alive_count(self, n: Seq<char>) -> nat
        decreases self,
    {
        (if self.name == n && !self.is_dead {
            1nat
        } else {
            0nat
        }) + alive_count_seq(self.children, n)
    }

    /// Every strict descendant was born in or before `y`.
    pub open spec fn descendants_born_by(self, y: u16) -> bool {
        born_by_seq(self.children, y)
    }

    /// The tree produced by succession at the node named `n`: that
    /// node's subtree re-rooted, its own generation set to head, every
    /// descendant promoted by the successor's former ordinal, and — for
    /// a female successor — the lineage of each child redirected to
    /// direct, propagated through male children's whole subtrees.
    pub open spec fn inherit_model(self, n: Seq<char>) -> MemberModel {
        let succ = self.lookup(n)->Some_0;
        let levels = succ.member_type.generation.ordinal_spec() as u8;
        let female = succ.member_type.gender == Gender::Female;
        MemberModel {
            member_type: MemberType {
                generation: Generation::Head,
                gender: succ.member_type.gender,
                lineage: succ.member_type.lineage,
            },
            children: succession_children(succ.children, levels, female),
            ..succ
        }
    }
}

impl MemberModel {
    /// All names of the subtree, the node's own first.
    pub open spec fn all_names(self) -> Seq<Seq<char>>
        decreases self,
    {
        seq![self.name] + all_names_seq(self.children)
    }
}

/// All names of a forest, in order.
pub open spec fn all_names_seq(s: Seq<MemberModel>) -> Seq<Seq<char>>
    decreases s,
{
    if s.len() == 0 {
        Seq::empty()
    } else {
        all_names_seq(s.drop_last()) + s.last().all_names()
    }
}

/// Occurrences of the name `x` in a list of names.
pub open spec fn occ(names: Seq<Seq<char>>, x: Seq<char>) -> nat
    decreases names,
{
    if names.len() == 0 {
        0
    } else {
        occ(names.drop_last(), x) + (if names.last() == x {
            1nat
        } else {
            0nat
        })
    }
}

/// A batch may join the tree `t`: no batch name occurs in `t`, none
/// occurs twice in the batch, and `t` itself keeps every name unique.
pub open spec fn batch_fresh(t: MemberModel, b: Seq<MemberModel>) -> bool {
    forall|x: Seq<char>| #![auto] t.name_count(x) + name_count_seq(b, x) <= 1
}

pub open spec fn renamed_seq(s: Seq<MemberModel>, o: Seq<char>, nw: Seq<char>) -> Seq<MemberModel>
    decreases s,
{
    if s.len() == 0 {
        Seq::empty()
    } else {
        renamed_seq(s.drop_last(), o, nw).push(s.last().with_renamed(o, nw))
    }
}

pub open spec fn dead_seq(s: Seq<MemberModel>, n: Seq<char>) -> Seq<MemberModel>
    decreases s,
{
    if s.len() == 0 {
        Seq::empty()
    } else {
        dead_seq(s.drop_last(), n).push(s.last().with_dead(n))
    }
}

pub open spec fn pos_seq(s: Seq<MemberModel>, n: Seq<char>, p: Seq<char>) -> Seq<MemberModel>
    decreases s,
{
    if s.len() == 0 {
        Seq::empty()
    } else {
        pos_seq(s.drop_last(), n, p).push(s.last().with_position(n, p))
    }
}

pub open spec fn pruned_seq(s: Seq<MemberModel>, y: u16) -> Seq<MemberModel>
    decreases s,
{
    if s.len() == 0 {
        Seq::empty()
    } else if s.last().birth_year <= y {
        pruned_seq(s.drop_last(), y).push(s.last().pruned(y))
    } else {
        pruned_seq(s.drop_last(), y)
    }
}

pub open spec fn inserted_seq(
    s: Seq<MemberModel>,
    parent: Seq<char>,
    batch: Seq<MemberModel>,
) -> Seq<MemberModel>
    decreases s,
{
    if s.len() == 0 {
        Seq::empty()
    } else {
        inserted_seq(s.drop_last(), parent, batch).push(s.last().with_inserted(parent, batch))
    }
}

pub open spec fn promoted_lineage_seq(s: Seq<MemberModel>, levels: u8, force: bool) -> Seq<
    MemberModel,
>
    decreases s,
{
    if s.len() == 0 {
        Seq::empty()
    } else {
        promoted_lineage_seq(s.drop_last(), levels, force).push(
            s.last().promoted_lineage(levels, force, false),
        )
    }
}

pub open spec fn alive_count_seq(s: Seq<MemberModel>, n: Seq<char>) -> nat
    decreases s,
{
    if s.len() == 0 {
        0
    } else {
        alive_count_seq(s.drop_last(), n) + s.last().alive_count(n)
    }
}

pub open spec fn born_by_seq(s: Seq<MemberModel>, y: u16) -> bool
    decreases s,
{
    if s.len() == 0 {
        true
    } else {
        born_by_seq(s.drop_last(), y) && s.last().birth_year <= y && born_by_seq(
            s.last().children,
            y,
        )
    }
}

/// The children of a new head: each child promoted by `levels`; for a
/// female head every child's own lineage becomes direct, and a male
/// child passes direct lineage to his whole subtree.
pub open spec fn succession_children(s: Seq<MemberModel>, levels: u8, female: bool) -> Seq<
    MemberModel,
>
    decreases s,
{
    if s.len() == 0 {
        Seq::empty()
    } else {
        let c = s.last();
        succession_children(s.drop_last(), levels, female).push(
            c.promoted_lineage(
                levels,
                female && c.member_type.gender == Gender::Male,
                female,
            ),
        )
    }
}

} // verus!
