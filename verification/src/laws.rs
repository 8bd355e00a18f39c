//! The laws of the library: properties that relate several operations,
//! stated over the model and proved once and for all.

use vstd::prelude::*;

use crate::lemmas::{
    lemma_dead_count, lemma_inserted_count, lemma_inserted_living, lemma_lookup_alive,
    lemma_pruned_born, lemma_pruned_idempotent, lemma_renamed_count, lemma_with_dead_alive,
    lemma_with_dead_living,
};
use crate::model::{
    batch_fresh, lemma_lookup_contains, living_count_seq, name_count_seq, promoted_lineage_seq,
    succession_children, MemberModel,
};
use crate::strutil::{has_sub_from, match_at};
use crate::title::{Gender, Generation, MemberType};

verus! {

/// Title codec round trip: for every member type whose generation is on
/// the ladder (neither the head nor the unknown sentinel), decoding the
/// encoded title reproduces the generation and the gender; the lineage
/// is reproduced for the grandchild generation and beyond (the child
/// generation has no encoded foreign marker).
pub proof fn lemma_title_round_trip(mt: MemberType)
    requires
        mt.generation != Generation::Head,
        mt.generation != Generation::Unknown,
    ensures
        MemberType::parse_title_spec(mt.title_chars()).generation == mt.generation,
        MemberType::parse_title_spec(mt.title_chars()).gender == mt.gender,
        mt.generation.ordinal_spec() >= 2 ==> MemberType::parse_title_spec(
            mt.title_chars(),
        ).lineage == mt.lineage,
{
    reveal_with_fuel(has_sub_from, 8);
    reveal_with_fuel(match_at, 4);
}

/// A successful batch insert grows the living count by exactly the
/// living count of the batch, and every name carried by the batch is in
/// the tree afterwards.
pub proof fn lemma_insert_grows(t: MemberModel, parent: Seq<char>, b: Seq<MemberModel>)
    requires
        t.wf(),
        batch_fresh(t, b),
        t.contains_name(parent),
    ensures
        t.with_inserted(parent, b).living_count() == t.living_count() + living_count_seq(b),
        forall|x: Seq<char>|
            name_count_seq(b, x) > 0 ==> #[trigger] t.with_inserted(parent, b).contains_name(x),
{
    lemma_inserted_living(t, parent, b);
    assert forall|x: Seq<char>|
        name_count_seq(b, x) > 0 implies #[trigger] t.with_inserted(parent, b).contains_name(
        x,
    ) by {
        lemma_inserted_count(t, parent, b, x);
    }
}

/// After a permitted rename the new name is present and the old name is
/// fully vacated.
pub proof fn lemma_rename_vacates(t: MemberModel, o: Seq<char>, nw: Seq<char>)
    requires
        t.wf(),
        t.contains_name(o),
        !t.contains_name(nw),
    ensures
        t.with_renamed(o, nw).contains_name(nw),
        !t.with_renamed(o, nw).contains_name(o),
{
    lemma_renamed_count(t, o, nw, nw);
    lemma_renamed_count(t, o, nw, o);
}

/// Marking a living member dead lowers the living count by exactly one
/// (descendants stay counted), and a second marking of the same name
/// finds the member already dead.
pub proof fn lemma_mark_dead_size(t: MemberModel, n: Seq<char>)
    requires
        t.wf(),
        t.lookup(n) matches Some(x) && !x.is_dead,
    ensures
        t.with_dead(n).living_count() + 1 == t.living_count(),
        t.with_dead(n).lookup(n) matches Some(y) && y.is_dead,
{
    lemma_lookup_contains(t, n);
    lemma_lookup_alive(t, n);
    lemma_with_dead_living(t, n);
    let td = t.with_dead(n);
    lemma_dead_count(t, n, n);
    lemma_lookup_contains(td, n);
    lemma_with_dead_alive(t, n);
    lemma_lookup_alive(td, n);
}

/// Pruning removes exactly the members born after the cutoff: in the
/// pruned tree every remaining descendant was born in or before the
/// cutoff year, and pruning again with the same year changes nothing.
pub proof fn lemma_prune_removes_future(t: MemberModel, y: u16)
    ensures
        t.pruned(y).descendants_born_by(y),
        t.pruned(y).pruned(y) == t.pruned(y),
{
    lemma_pruned_born(t, y);
    lemma_pruned_idempotent(t, y);
}

/// The ordinal of `b`'s generation is `a`'s lowered by `k`, floored at
/// the head, and the same holds node for node through both subtrees.
pub open spec fn ordinals_promoted(a: MemberModel, b: MemberModel, k: u8) -> bool
    decreases a,
{
    &&& b.member_type.generation.ordinal_spec() == (if a.member_type.generation.ordinal_spec()
        <= k as nat {
        0nat
    } else {
        (a.member_type.generation.ordinal_spec() - k as nat) as nat
    })
    &&& ordinals_promoted_seq(a.children, b.children, k)
}

pub open spec fn ordinals_promoted_seq(a: Seq<MemberModel>, b: Seq<MemberModel>, k: u8) -> bool
    decreases a,
{
    &&& a.len() == b.len()
    &&& (a.len() == 0 || (ordinals_promoted_seq(a.drop_last(), b.drop_last(), k)
        && ordinals_promoted(a.last(), b.last(), k)))
}

proof fn lemma_promoted_lineage_ordinals(m: MemberModel, k: u8, f: bool, od: bool)
    ensures
        ordinals_promoted(m, m.promoted_lineage(k, f, od), k),
    decreases m,
{
    lemma_promoted_lineage_ordinals_seq(m.children, k, f);
}

proof fn lemma_promoted_lineage_ordinals_seq(s: Seq<MemberModel>, k: u8, f: bool)
    ensures
        ordinals_promoted_seq(s, promoted_lineage_seq(s, k, f), k),
    decreases s,
{
    if s.len() > 0 {
        lemma_promoted_lineage_ordinals_seq(s.drop_last(), k, f);
        lemma_promoted_lineage_ordinals(s.last(), k, f, false);
        let t = promoted_lineage_seq(s, k, f);
        assert(t.drop_last() =~= promoted_lineage_seq(s.drop_last(), k, f));
        assert(t.last() == s.last().promoted_lineage(k, f, false));
    }
}

proof fn lemma_succession_children_ordinals(s: Seq<MemberModel>, k: u8, female: bool)
    ensures
        ordinals_promoted_seq(s, succession_children(s, k, female), k),
    decreases s,
{
    if s.len() > 0 {
        lemma_succession_children_ordinals(s.drop_last(), k, female);
        let c = s.last();
        lemma_promoted_lineage_ordinals(
            c,
            k,
            female && c.member_type.gender == Gender::Male,
            female,
        );
        let t = succession_children(s, k, female);
        assert(t.drop_last() =~= succession_children(s.drop_last(), k, female));
        assert(t.last() == c.promoted_lineage(
            k,
            female && c.member_type.gender == Gender::Male,
            female,
        ));
    }
}

/// Succession promotion: with a successor at ordinal `k`, the new root
/// is the head, and every remaining member's generation ordinal is the
/// old one lowered by exactly `k`, floored at the head, node for node
/// through the whole tree.
pub proof fn lemma_inherit_promotes(t: MemberModel, n: Seq<char>)
    requires
        t.wf(),
        t.lookup(n) is Some,
    ensures
        ({
            let succ = t.lookup(n)->Some_0;
            let k = succ.member_type.generation.ordinal_spec() as u8;
            let grown = t.inherit_model(n);
            &&& grown.member_type.generation == Generation::Head
            &&& ordinals_promoted_seq(succ.children, grown.children, k)
        }),
{
    let succ = t.lookup(n)->Some_0;
    let k = succ.member_type.generation.ordinal_spec() as u8;
    let female = succ.member_type.gender == Gender::Female;
    lemma_succession_children_ordinals(succ.children, k, female);
}

} // verus!
