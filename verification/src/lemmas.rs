//! Lemmas about the model transformations: how each whole-tree
//! transformation affects name counts, the living-member count and the
//! lookup function. The mutation engine's contracts are proved from
//! these.

use vstd::prelude::*;

use crate::model::{
    all_names_seq, born_by_seq, node_count_seq, occ,
    alive_count_seq, dead_seq, inserted_seq, lemma_lookup_contains, lemma_name_count_seq_push,
    living_count_seq, lookup_seq, name_count_seq, pos_seq, promoted_lineage_seq, pruned_seq,
    renamed_seq, succession_children, MemberModel,
};

verus! {

// ---------------------------------------------------------------------------
// Pointwise shape of the mapped forests
// ---------------------------------------------------------------------------

pub proof fn lemma_renamed_seq_index(s: Seq<MemberModel>, o: Seq<char>, nw: Seq<char>)
    ensures
        renamed_seq(s, o, nw).len() == s.len(),
        forall|i: int|
            0 <= i < s.len() ==> #[trigger] renamed_seq(s, o, nw)[i] == s[i].with_renamed(o, nw),
    decreases s,
{
    if s.len() > 0 {
        lemma_renamed_seq_index(s.drop_last(), o, nw);
        assert forall|i: int| 0 <= i < s.len() implies #[trigger] renamed_seq(s, o, nw)[i]
            == s[i].with_renamed(o, nw) by {
            if i < s.len() - 1 {
                assert(s.drop_last()[i] == s[i]);
            } else {
                assert(s[i] == s.last());
            }
        }
    }
}

pub proof fn lemma_dead_seq_index(s: Seq<MemberModel>, n: Seq<char>)
    ensures
        dead_seq(s, n).len() == s.len(),
        forall|i: int| 0 <= i < s.len() ==> #[trigger] dead_seq(s, n)[i] == s[i].with_dead(n),
    decreases s,
{
    if s.len() > 0 {
        lemma_dead_seq_index(s.drop_last(), n);
        assert forall|i: int| 0 <= i < s.len() implies #[trigger] dead_seq(s, n)[i]
            == s[i].with_dead(n) by {
            if i < s.len() - 1 {
                assert(s.drop_last()[i] == s[i]);
            } else {
                assert(s[i] == s.last());
            }
        }
    }
}

pub proof fn lemma_pos_seq_index(s: Seq<MemberModel>, n: Seq<char>, p: Seq<char>)
    ensures
        pos_seq(s, n, p).len() == s.len(),
        forall|i: int| 0 <= i < s.len() ==> #[trigger] pos_seq(s, n, p)[i] == s[i].with_position(
                n,
                p,
            ),
    decreases s,
{
    if s.len() > 0 {
        lemma_pos_seq_index(s.drop_last(), n, p);
        assert forall|i: int| 0 <= i < s.len() implies #[trigger] pos_seq(s, n, p)[i]
            == s[i].with_position(n, p) by {
            if i < s.len() - 1 {
                assert(s.drop_last()[i] == s[i]);
            } else {
                assert(s[i] == s.last());
            }
        }
    }
}

pub proof fn lemma_inserted_seq_index(s: Seq<MemberModel>, parent: Seq<char>, b: Seq<MemberModel>)
    ensures
        inserted_seq(s, parent, b).len() == s.len(),
        forall|i: int|
            0 <= i < s.len() ==> #[trigger] inserted_seq(s, parent, b)[i] == s[i].with_inserted(
                parent,
                b,
            ),
    decreases s,
{
    if s.len() > 0 {
        lemma_inserted_seq_index(s.drop_last(), parent, b);
        assert forall|i: int| 0 <= i < s.len() implies #[trigger] inserted_seq(s, parent, b)[i]
            == s[i].with_inserted(parent, b) by {
            if i < s.len() - 1 {
                assert(s.drop_last()[i] == s[i]);
            } else {
                assert(s[i] == s.last());
            }
        }
    }
}

pub proof fn lemma_promoted_lineage_seq_index(s: Seq<MemberModel>, levels: u8, force: bool)
    ensures
        promoted_lineage_seq(s, levels, force).len() == s.len(),
        forall|i: int|
            0 <= i < s.len() ==> #[trigger] promoted_lineage_seq(s, levels, force)[i]
                == s[i].promoted_lineage(levels, force, false),
    decreases s,
{
    if s.len() > 0 {
        lemma_promoted_lineage_seq_index(s.drop_last(), levels, force);
        assert forall|i: int| 0 <= i < s.len() implies #[trigger] promoted_lineage_seq(
            s,
            levels,
            force,
        )[i] == s[i].promoted_lineage(levels, force, false) by {
            if i < s.len() - 1 {
                assert(s.drop_last()[i] == s[i]);
            } else {
                assert(s[i] == s.last());
            }
        }
    }
}

pub proof fn lemma_succession_children_index(s: Seq<MemberModel>, levels: u8, female: bool)
    ensures
        succession_children(s, levels, female).len() == s.len(),
        forall|i: int|
            0 <= i < s.len() ==> #[trigger] succession_children(s, levels, female)[i]
                == s[i].promoted_lineage(
                levels,
                female && s[i].member_type.gender == crate::title::Gender::Male,
                female,
            ),
    decreases s,
{
    if s.len() > 0 {
        lemma_succession_children_index(s.drop_last(), levels, female);
        assert forall|i: int| 0 <= i < s.len() implies #[trigger] succession_children(
            s,
            levels,
            female,
        )[i] == s[i].promoted_lineage(
            levels,
            female && s[i].member_type.gender == crate::title::Gender::Male,
            female,
        ) by {
            if i < s.len() - 1 {
                assert(s.drop_last()[i] == s[i]);
            } else {
                assert(s[i] == s.last());
            }
        }
    }
}

// ---------------------------------------------------------------------------
// Splitting the forest counters
// ---------------------------------------------------------------------------

pub proof fn lemma_name_count_seq_first(s: Seq<MemberModel>, n: Seq<char>)
    requires
        s.len() > 0,
    ensures
        name_count_seq(s, n) == s.first().name_count(n) + name_count_seq(s.drop_first(), n),
    decreases s,
{
    if s.len() == 1 {
        assert(s.drop_last() =~= Seq::<MemberModel>::empty());
        assert(s.drop_first() =~= Seq::<MemberModel>::empty());
        assert(s.first() == s.last());
    } else {
        lemma_name_count_seq_first(s.drop_last(), n);
        assert(s.drop_first().drop_last() =~= s.drop_last().drop_first());
        assert(s.drop_first().last() == s.last());
        assert(s.drop_last().first() == s.first());
    }
}

pub proof fn lemma_alive_count_seq_first(s: Seq<MemberModel>, n: Seq<char>)
    requires
        s.len() > 0,
    ensures
        alive_count_seq(s, n) == s.first().alive_count(n) + alive_count_seq(s.drop_first(), n),
    decreases s,
{
    if s.len() == 1 {
        assert(s.drop_last() =~= Seq::<MemberModel>::empty());
        assert(s.drop_first() =~= Seq::<MemberModel>::empty());
        assert(s.first() == s.last());
    } else {
        lemma_alive_count_seq_first(s.drop_last(), n);
        assert(s.drop_first().drop_last() =~= s.drop_last().drop_first());
        assert(s.drop_first().last() == s.last());
        assert(s.drop_last().first() == s.first());
    }
}

pub proof fn lemma_name_count_seq_concat(a: Seq<MemberModel>, b: Seq<MemberModel>, x: Seq<char>)
    ensures
        name_count_seq(a + b, x) == name_count_seq(a, x) + name_count_seq(b, x),
    decreases b.len(),
{
    if b.len() == 0 {
        assert(a + b =~= a);
    } else {
        assert((a + b).drop_last() =~= a + b.drop_last());
        assert((a + b).last() == b.last());
        lemma_name_count_seq_concat(a, b.drop_last(), x);
    }
}

pub proof fn lemma_living_count_seq_concat(a: Seq<MemberModel>, b: Seq<MemberModel>)
    ensures
        living_count_seq(a + b) == living_count_seq(a) + living_count_seq(b),
    decreases b.len(),
{
    if b.len() == 0 {
        assert(a + b =~= a);
    } else {
        assert((a + b).drop_last() =~= a + b.drop_last());
        assert((a + b).last() == b.last());
        lemma_living_count_seq_concat(a, b.drop_last());
    }
}

pub proof fn lemma_living_le_node(m: MemberModel)
    ensures
        m.living_count() <= m.node_count(),
    decreases m,
{
    lemma_living_le_node_seq(m.children);
}

pub proof fn lemma_living_le_node_seq(s: Seq<MemberModel>)
    ensures
        living_count_seq(s) <= node_count_seq(s),
    decreases s,
{
    if s.len() > 0 {
        lemma_living_le_node_seq(s.drop_last());
        lemma_living_le_node(s.last());
    }
}

pub proof fn lemma_node_count_seq_split(s: Seq<MemberModel>, k: int)
    requires
        0 <= k <= s.len(),
    ensures
        node_count_seq(s) == node_count_seq(s.subrange(0, k)) + node_count_seq(
            s.subrange(k, s.len() as int),
        ),
    decreases s,
{
    if k == s.len() {
        assert(s.subrange(0, k) =~= s);
        assert(s.subrange(k, s.len() as int) =~= Seq::<MemberModel>::empty());
    } else if s.len() > 0 {
        lemma_node_count_seq_split(s.drop_last(), k);
        assert(s.subrange(0, k) =~= s.drop_last().subrange(0, k));
        let suf = s.subrange(k, s.len() as int);
        assert(suf.drop_last() =~= s.drop_last().subrange(k, s.len() as int - 1));
        assert(suf.last() == s.last());
    }
}

// ---------------------------------------------------------------------------
// Name counts under each transformation
// ---------------------------------------------------------------------------

pub proof fn lemma_renamed_count(m: MemberModel, o: Seq<char>, nw: Seq<char>, x: Seq<char>)
    requires
        o != nw,
    ensures
        m.with_renamed(o, nw).name_count(x) == (if x == nw {
            m.name_count(o) + m.name_count(nw)
        } else if x == o {
            0nat
        } else {
            m.name_count(x)
        }),
    decreases m,
{
    lemma_renamed_count_seq(m.children, o, nw, x);
}

pub proof fn lemma_renamed_count_seq(
    s: Seq<MemberModel>,
    o: Seq<char>,
    nw: Seq<char>,
    x: Seq<char>,
)
    requires
        o != nw,
    ensures
        name_count_seq(renamed_seq(s, o, nw), x) == (if x == nw {
            name_count_seq(s, o) + name_count_seq(s, nw)
        } else if x == o {
            0nat
        } else {
            name_count_seq(s, x)
        }),
    decreases s,
{
    if s.len() > 0 {
        lemma_renamed_count_seq(s.drop_last(), o, nw, x);
        lemma_renamed_count(s.last(), o, nw, x);
        lemma_name_count_seq_push(
            renamed_seq(s.drop_last(), o, nw),
            s.last().with_renamed(o, nw),
            x,
        );
    }
}

pub proof fn lemma_dead_count(m: MemberModel, n: Seq<char>, x: Seq<char>)
    ensures
        m.with_dead(n).name_count(x) == m.name_count(x),
    decreases m,
{
    lemma_dead_count_seq(m.children, n, x);
}

pub proof fn lemma_dead_count_seq(s: Seq<MemberModel>, n: Seq<char>, x: Seq<char>)
    ensures
        name_count_seq(dead_seq(s, n), x) == name_count_seq(s, x),
    decreases s,
{
    if s.len() > 0 {
        lemma_dead_count_seq(s.drop_last(), n, x);
        lemma_dead_count(s.last(), n, x);
        lemma_name_count_seq_push(dead_seq(s.drop_last(), n), s.last().with_dead(n), x);
    }
}

pub proof fn lemma_pos_count(m: MemberModel, n: Seq<char>, p: Seq<char>, x: Seq<char>)
    ensures
        m.with_position(n, p).name_count(x) == m.name_count(x),
    decreases m,
{
    lemma_pos_count_seq(m.children, n, p, x);
}

pub proof fn lemma_pos_count_seq(s: Seq<MemberModel>, n: Seq<char>, p: Seq<char>, x: Seq<char>)
    ensures
        name_count_seq(pos_seq(s, n, p), x) == name_count_seq(s, x),
    decreases s,
{
    if s.len() > 0 {
        lemma_pos_count_seq(s.drop_last(), n, p, x);
        lemma_pos_count(s.last(), n, p, x);
        lemma_name_count_seq_push(pos_seq(s.drop_last(), n, p), s.last().with_position(n, p), x);
    }
}

pub proof fn lemma_pruned_count(m: MemberModel, y: u16, x: Seq<char>)
    ensures
        m.pruned(y).name_count(x) <= m.name_count(x),
    decreases m,
{
    lemma_pruned_count_seq(m.children, y, x);
}

pub proof fn lemma_pruned_count_seq(s: Seq<MemberModel>, y: u16, x: Seq<char>)
    ensures
        name_count_seq(pruned_seq(s, y), x) <= name_count_seq(s, x),
    decreases s,
{
    if s.len() > 0 {
        lemma_pruned_count_seq(s.drop_last(), y, x);
        if s.last().birth_year <= y {
            lemma_pruned_count(s.last(), y, x);
            lemma_name_count_seq_push(pruned_seq(s.drop_last(), y), s.last().pruned(y), x);
        }
    }
}

pub proof fn lemma_inserted_count(
    m: MemberModel,
    p: Seq<char>,
    b: Seq<MemberModel>,
    x: Seq<char>,
)
    requires
        m.name_count(p) <= 1,
    ensures
        m.with_inserted(p, b).name_count(x) == m.name_count(x) + (if m.contains_name(p) {
            name_count_seq(b, x)
        } else {
            0nat
        }),
    decreases m,
{
    if m.name == p {
        lemma_name_count_seq_concat(m.children, b, x);
    } else {
        lemma_inserted_count_seq(m.children, p, b, x);
    }
}

pub proof fn lemma_inserted_count_seq(
    s: Seq<MemberModel>,
    p: Seq<char>,
    b: Seq<MemberModel>,
    x: Seq<char>,
)
    requires
        name_count_seq(s, p) <= 1,
    ensures
        name_count_seq(inserted_seq(s, p, b), x) == name_count_seq(s, x) + (if name_count_seq(s, p)
            > 0 {
            name_count_seq(b, x)
        } else {
            0nat
        }),
    decreases s,
{
    if s.len() > 0 {
        lemma_inserted_count_seq(s.drop_last(), p, b, x);
        lemma_inserted_count(s.last(), p, b, x);
        lemma_name_count_seq_push(
            inserted_seq(s.drop_last(), p, b),
            s.last().with_inserted(p, b),
            x,
        );
    }
}

pub proof fn lemma_inserted_living(m: MemberModel, p: Seq<char>, b: Seq<MemberModel>)
    requires
        m.name_count(p) <= 1,
    ensures
        m.with_inserted(p, b).living_count() == m.living_count() + (if m.contains_name(p) {
            living_count_seq(b)
        } else {
            0nat
        }),
    decreases m,
{
    if m.name == p {
        lemma_living_count_seq_concat(m.children, b);
    } else {
        lemma_inserted_living_seq(m.children, p, b);
    }
}

pub proof fn lemma_inserted_living_seq(s: Seq<MemberModel>, p: Seq<char>, b: Seq<MemberModel>)
    requires
        name_count_seq(s, p) <= 1,
    ensures
        living_count_seq(inserted_seq(s, p, b)) == living_count_seq(s) + (if name_count_seq(s, p)
            > 0 {
            living_count_seq(b)
        } else {
            0nat
        }),
    decreases s,
{
    if s.len() > 0 {
        lemma_inserted_living_seq(s.drop_last(), p, b);
        lemma_inserted_living(s.last(), p, b);
        let t = inserted_seq(s, p, b);
        assert(t.drop_last() =~= inserted_seq(s.drop_last(), p, b));
        assert(t.last() == s.last().with_inserted(p, b));
    }
}

pub proof fn lemma_promoted_lineage_count(m: MemberModel, levels: u8, f: bool, od: bool, x: Seq<char>)
    ensures
        m.promoted_lineage(levels, f, od).name_count(x) == m.name_count(x),
    decreases m,
{
    lemma_promoted_lineage_count_seq(m.children, levels, f, x);
}

pub proof fn lemma_promoted_lineage_count_seq(
    s: Seq<MemberModel>,
    levels: u8,
    f: bool,
    x: Seq<char>,
)
    ensures
        name_count_seq(promoted_lineage_seq(s, levels, f), x) == name_count_seq(s, x),
    decreases s,
{
    if s.len() > 0 {
        lemma_promoted_lineage_count_seq(s.drop_last(), levels, f, x);
        lemma_promoted_lineage_count(s.last(), levels, f, false, x);
        lemma_name_count_seq_push(
            promoted_lineage_seq(s.drop_last(), levels, f),
            s.last().promoted_lineage(levels, f, false),
            x,
        );
    }
}

pub proof fn lemma_succession_children_count(
    s: Seq<MemberModel>,
    levels: u8,
    female: bool,
    x: Seq<char>,
)
    ensures
        name_count_seq(succession_children(s, levels, female), x) == name_count_seq(s, x),
    decreases s,
{
    if s.len() > 0 {
        lemma_succession_children_count(s.drop_last(), levels, female, x);
        let c = s.last();
        let fc = c.promoted_lineage(
            levels,
            female && c.member_type.gender == crate::title::Gender::Male,
            female,
        );
        lemma_promoted_lineage_count(
            c,
            levels,
            female && c.member_type.gender == crate::title::Gender::Male,
            female,
            x,
        );
        lemma_name_count_seq_push(succession_children(s.drop_last(), levels, female), fc, x);
    }
}

/// What `lookup` finds in a well-formed tree is itself well-formed.
pub proof fn lemma_lookup_wf(m: MemberModel, n: Seq<char>)
    requires
        m.wf(),
    ensures
        m.lookup(n) matches Some(t) ==> t.wf(),
    decreases m,
{
    if m.name != n {
        assert forall|x: Seq<char>| #![auto] name_count_seq(m.children, x) <= 1 by {
            assert(name_count_seq(m.children, x) <= m.name_count(x));
        }
        lemma_lookup_seq_wf(m.children, n);
    }
}

pub proof fn lemma_lookup_seq_wf(s: Seq<MemberModel>, n: Seq<char>)
    requires
        forall|x: Seq<char>| #![auto] name_count_seq(s, x) <= 1,
    ensures
        lookup_seq(s, n) matches Some(t) ==> t.wf(),
    decreases s,
{
    if s.len() > 0 {
        assert forall|x: Seq<char>| #![auto] s.first().name_count(x) <= 1 by {
            lemma_name_count_seq_first(s, x);
        }
        lemma_lookup_wf(s.first(), n);
        assert forall|x: Seq<char>| #![auto] name_count_seq(s.drop_first(), x) <= 1 by {
            lemma_name_count_seq_first(s, x);
        }
        lemma_lookup_seq_wf(s.drop_first(), n);
    }
}

// ---------------------------------------------------------------------------
// The name list of a tree and the name counters agree
// ---------------------------------------------------------------------------

pub proof fn lemma_occ_concat(a: Seq<Seq<char>>, b: Seq<Seq<char>>, x: Seq<char>)
    ensures
        occ(a + b, x) == occ(a, x) + occ(b, x),
    decreases b.len(),
{
    if b.len() == 0 {
        assert(a + b =~= a);
    } else {
        assert((a + b).drop_last() =~= a + b.drop_last());
        assert((a + b).last() == b.last());
        lemma_occ_concat(a, b.drop_last(), x);
    }
}

pub proof fn lemma_occ_all_names(m: MemberModel, x: Seq<char>)
    ensures
        occ(m.all_names(), x) == m.name_count(x),
    decreases m,
{
    lemma_occ_concat(seq![m.name], all_names_seq(m.children), x);
    assert(occ(seq![m.name], x) == (if m.name == x {
        1nat
    } else {
        0nat
    })) by {
        assert(seq![m.name].drop_last() =~= Seq::<Seq<char>>::empty());
        assert(seq![m.name].last() == m.name);
        assert(occ(Seq::<Seq<char>>::empty(), x) == 0);
    }
    lemma_occ_all_names_seq(m.children, x);
}

pub proof fn lemma_occ_all_names_seq(s: Seq<MemberModel>, x: Seq<char>)
    ensures
        occ(all_names_seq(s), x) == name_count_seq(s, x),
    decreases s,
{
    if s.len() > 0 {
        lemma_occ_all_names_seq(s.drop_last(), x);
        lemma_occ_all_names(s.last(), x);
        lemma_occ_concat(all_names_seq(s.drop_last()), s.last().all_names(), x);
    }
}

pub proof fn lemma_occ_positive(names: Seq<Seq<char>>, x: Seq<char>)
    ensures
        (occ(names, x) > 0) <==> (exists|i: int| 0 <= i < names.len() && names[i] == x),
    decreases names,
{
    if names.len() > 0 {
        lemma_occ_positive(names.drop_last(), x);
        if occ(names, x) > 0 {
            if names.last() == x {
                assert(names[names.len() - 1] == x);
            } else {
                let i = choose|i: int| 0 <= i < names.len() - 1 && names.drop_last()[i] == x;
                assert(names[i] == x);
            }
        } else {
            assert forall|i: int| 0 <= i < names.len() implies names[i] != x by {
                if i < names.len() - 1 {
                    assert(names.drop_last()[i] == names[i]);
                } else {
                    assert(names[i] == names.last());
                }
            }
        }
    }
}

/// Two distinct positions with the same name give at least two
/// occurrences.
pub proof fn lemma_occ_two(names: Seq<Seq<char>>, i: int, j: int, x: Seq<char>)
    requires
        0 <= i < j < names.len(),
        names[i] == x,
        names[j] == x,
    ensures
        occ(names, x) >= 2,
    decreases names,
{
    if j == names.len() - 1 {
        lemma_occ_positive(names.drop_last(), x);
        assert(names.drop_last()[i] == x);
    } else {
        assert(names.drop_last()[i] == names[i]);
        assert(names.drop_last()[j] == names[j]);
        lemma_occ_two(names.drop_last(), i, j, x);
    }
}

/// Pairwise-distinct names have no name twice.
pub proof fn lemma_occ_distinct(names: Seq<Seq<char>>)
    requires
        forall|i: int, j: int| 0 <= i < j < names.len() ==> names[i] != names[j],
    ensures
        forall|x: Seq<char>| #[trigger] occ(names, x) <= 1,
    decreases names,
{
    if names.len() > 0 {
        assert forall|i: int, j: int|
            0 <= i < j < names.len() - 1 implies names.drop_last()[i]
            != names.drop_last()[j] by {
            assert(names.drop_last()[i] == names[i]);
            assert(names.drop_last()[j] == names[j]);
        }
        lemma_occ_distinct(names.drop_last());
        assert forall|x: Seq<char>| #[trigger] occ(names, x) <= 1 by {
            if names.last() == x {
                lemma_occ_positive(names.drop_last(), x);
                if occ(names.drop_last(), x) > 0 {
                    let i = choose|i: int|
                        0 <= i < names.len() - 1 && names.drop_last()[i] == x;
                    assert(names[i] == names[names.len() - 1]);
                }
            }
        }
    }
}

// ---------------------------------------------------------------------------
// Living counts and liveness of the named node
// ---------------------------------------------------------------------------

pub proof fn lemma_alive_le_name(m: MemberModel, n: Seq<char>)
    ensures
        m.alive_count(n) <= m.name_count(n),
    decreases m,
{
    lemma_alive_le_name_seq(m.children, n);
}

pub proof fn lemma_alive_le_name_seq(s: Seq<MemberModel>, n: Seq<char>)
    ensures
        alive_count_seq(s, n) <= name_count_seq(s, n),
    decreases s,
{
    if s.len() > 0 {
        lemma_alive_le_name_seq(s.drop_last(), n);
        lemma_alive_le_name(s.last(), n);
    }
}

pub proof fn lemma_with_dead_alive(m: MemberModel, n: Seq<char>)
    ensures
        m.with_dead(n).alive_count(n) == 0,
    decreases m,
{
    lemma_with_dead_alive_seq(m.children, n);
    lemma_dead_seq_index(m.children, n);
}

pub proof fn lemma_with_dead_alive_seq(s: Seq<MemberModel>, n: Seq<char>)
    ensures
        alive_count_seq(dead_seq(s, n), n) == 0,
    decreases s,
{
    if s.len() > 0 {
        lemma_with_dead_alive_seq(s.drop_last(), n);
        lemma_with_dead_alive(s.last(), n);
        let t = dead_seq(s, n);
        assert(t.drop_last() =~= dead_seq(s.drop_last(), n));
        assert(t.last() == s.last().with_dead(n));
    }
}

pub proof fn lemma_with_dead_living(m: MemberModel, n: Seq<char>)
    ensures
        m.with_dead(n).living_count() + m.alive_count(n) == m.living_count(),
    decreases m,
{
    lemma_with_dead_living_seq(m.children, n);
}

pub proof fn lemma_with_dead_living_seq(s: Seq<MemberModel>, n: Seq<char>)
    ensures
        living_count_seq(dead_seq(s, n)) + alive_count_seq(s, n) == living_count_seq(s),
    decreases s,
{
    if s.len() > 0 {
        lemma_with_dead_living_seq(s.drop_last(), n);
        lemma_with_dead_living(s.last(), n);
        let t = dead_seq(s, n);
        assert(t.drop_last() =~= dead_seq(s.drop_last(), n));
        assert(t.last() == s.last().with_dead(n));
    }
}

/// Under a unique name, the liveness that `lookup` reports is the
/// subtree's alive count for that name.
pub proof fn lemma_lookup_alive(m: MemberModel, n: Seq<char>)
    requires
        m.name_count(n) <= 1,
    ensures
        m.lookup(n) matches Some(t) ==> m.alive_count(n) == (if t.is_dead {
            0nat
        } else {
            1nat
        }),
    decreases m,
{
    lemma_alive_le_name(m, n);
    if m.name == n {
        lemma_alive_le_name_seq(m.children, n);
    } else {
        lemma_lookup_alive_seq(m.children, n);
    }
}

pub proof fn lemma_lookup_alive_seq(s: Seq<MemberModel>, n: Seq<char>)
    requires
        name_count_seq(s, n) <= 1,
    ensures
        lookup_seq(s, n) matches Some(t) ==> alive_count_seq(s, n) == (if t.is_dead {
            0nat
        } else {
            1nat
        }),
    decreases s,
{
    if s.len() > 0 {
        lemma_name_count_seq_first(s, n);
        lemma_alive_count_seq_first(s, n);
        lemma_lookup_contains(s.first(), n);
        match s.first().lookup(n) {
            Some(t) => {
                lemma_lookup_alive(s.first(), n);
                lemma_alive_le_name_seq(s.drop_first(), n);
                lemma_alive_le_name(s.first(), n);
            },
            None => {
                lemma_alive_le_name(s.first(), n);
                lemma_lookup_alive_seq(s.drop_first(), n);
            },
        }
    }
}

// ---------------------------------------------------------------------------
// Pruning: what it removes, and idempotence
// ---------------------------------------------------------------------------

pub proof fn lemma_pruned_born(m: MemberModel, y: u16)
    ensures
        m.pruned(y).descendants_born_by(y),
    decreases m,
{
    lemma_pruned_born_seq(m.children, y);
}

pub proof fn lemma_pruned_born_seq(s: Seq<MemberModel>, y: u16)
    ensures
        born_by_seq(pruned_seq(s, y), y),
    decreases s,
{
    if s.len() > 0 {
        lemma_pruned_born_seq(s.drop_last(), y);
        if s.last().birth_year <= y {
            lemma_pruned_born(s.last(), y);
            let t = pruned_seq(s, y);
            assert(t.drop_last() =~= pruned_seq(s.drop_last(), y));
            assert(t.last() == s.last().pruned(y));
        }
    }
}

pub proof fn lemma_pruned_identity(m: MemberModel, y: u16)
    requires
        m.descendants_born_by(y),
    ensures
        m.pruned(y) == m,
    decreases m,
{
    lemma_pruned_identity_seq(m.children, y);
    assert(m.pruned(y) =~= m);
}

pub proof fn lemma_pruned_identity_seq(s: Seq<MemberModel>, y: u16)
    requires
        born_by_seq(s, y),
    ensures
        pruned_seq(s, y) == s,
    decreases s,
{
    if s.len() > 0 {
        lemma_pruned_identity_seq(s.drop_last(), y);
        lemma_pruned_identity(s.last(), y);
        assert(pruned_seq(s, y) =~= s);
    }
}

/// Pruning twice with the same cutoff is the same as pruning once.
pub proof fn lemma_pruned_idempotent(m: MemberModel, y: u16)
    ensures
        m.pruned(y).pruned(y) == m.pruned(y),
{
    lemma_pruned_born(m, y);
    lemma_pruned_identity(m.pruned(y), y);
}

} // verus!
