//! Element tree builder.
//!
//! A window's UI is reported as a flat, order-unstable list of inspector
//! records, each naming its ancestry through a dotted global id such as
//! `view.panel.sidebar`. The builder reconstructs the hierarchy: records
//! are sorted by depth (dot count) and then lexicographically, every
//! record is attached to the record whose global id is the longest strict
//! dot-bounded prefix of its own, and the records never attached come out
//! as roots, in sorted order.

use vstd::prelude::*;

use crate::text::{
    dec_of, dot_count, dots_in, is_strict_dot_prefix, lex_le, lex_le_str, strict_dot_prefix,
    type_label_of, type_label_spec, u64_to_string,
};

verus! {

broadcast use vstd::std_specs::vec::axiom_vec_index_decreases;

/// One flat inspector record for a window, as the UI host reports it.
/// The payload carries geometry and host properties opaquely.
pub struct InsRecord {
    pub global_id: String,
    pub instance_id: u64,
    pub source_location: Option<String>,
    pub payload: serde_json::Value,
}

/// One reconstructed UI element; children are in the order the
/// tree-building pass attached them.
#[derive(Debug)]
pub struct UiNode {
    pub id: String,
    pub element_type: String,
    pub source_location: Option<String>,
    pub payload: serde_json::Value,
    pub children: Vec<UiNode>,
}

/// Processing order of the tree builder: ascending dot count of the
/// global id, ties broken lexicographically.
pub open spec fn rec_le(a: InsRecord, b: InsRecord) -> bool {
    ||| dot_count(a.global_id@) < dot_count(b.global_id@)
    ||| (dot_count(a.global_id@) == dot_count(b.global_id@) && lex_le(
        a.global_id@,
        b.global_id@,
    ))
}

/// Pairwise sortedness in the builder's processing order.
pub open spec fn sorted_recs(s: Seq<InsRecord>) -> bool {
    forall|i: int, j: int|
        0 <= i < j < s.len() ==> rec_le(#[trigger] s[i], #[trigger] s[j])
}

/// Stable insertion of a record into a sorted sequence: it lands before
/// the first record it does not come at-or-after, so after any equal keys.
pub open spec fn insert_sorted(s: Seq<InsRecord>, r: InsRecord) -> Seq<InsRecord>
    decreases s.len(),
{
    if s.len() == 0 {
        seq![r]
    } else if rec_le(s.first(), r) {
        seq![s.first()] + insert_sorted(s.drop_first(), r)
    } else {
        seq![r] + s
    }
}

/// Stable insertion sort of the records, in the builder's order.
pub open spec fn insort(s: Seq<InsRecord>) -> Seq<InsRecord>
    decreases s.len(),
{
    if s.len() == 0 {
        s
    } else {
        insert_sorted(insort(s.drop_last()), s.last())
    }
}

proof fn lemma_lex_le_total(a: Seq<char>, b: Seq<char>)
    ensures
        lex_le(a, b) || lex_le(b, a),
    decreases a.len(),
{
    if a.len() > 0 && b.len() > 0 {
        if a.first() == b.first() {
            lemma_lex_le_total(a.drop_first(), b.drop_first());
        } else {
            vstd::utf8::char_u32_cast(a.first(), a.first() as u32);
            vstd::utf8::char_u32_cast(b.first(), b.first() as u32);
            assert(a.first() as u32 != b.first() as u32);
        }
    }
}

proof fn lemma_lex_le_trans(a: Seq<char>, b: Seq<char>, c: Seq<char>)
    requires
        lex_le(a, b),
        lex_le(b, c),
    ensures
        lex_le(a, c),
    decreases a.len(),
{
    if a.len() > 0 && b.len() > 0 && c.len() > 0 {
        if a.first() == b.first() && b.first() == c.first() {
            lemma_lex_le_trans(a.drop_first(), b.drop_first(), c.drop_first());
        }
    }
}

proof fn lemma_rec_le_total(a: InsRecord, b: InsRecord)
    ensures
        rec_le(a, b) || rec_le(b, a),
{
    lemma_lex_le_total(a.global_id@, b.global_id@);
}

proof fn lemma_rec_le_trans(a: InsRecord, b: InsRecord, c: InsRecord)
    requires
        rec_le(a, b),
        rec_le(b, c),
    ensures
        rec_le(a, c),
{
    if dot_count(a.global_id@) == dot_count(b.global_id@) && dot_count(b.global_id@)
        == dot_count(c.global_id@) {
        lemma_lex_le_trans(a.global_id@, b.global_id@, c.global_id@);
    }
}

/// Inserting at the first position whose record does not come at-or-before
/// the new one is exactly `insert_sorted`.
proof fn lemma_insert_sorted_at(s: Seq<InsRecord>, r: InsRecord, p: int)
    requires
        0 <= p <= s.len(),
        forall|k: int| 0 <= k < p ==> rec_le(#[trigger] s[k], r),
        p < s.len() ==> !rec_le(s[p], r),
    ensures
        insert_sorted(s, r) == s.insert(p, r),
    decreases s.len(),
{
    if p == 0 {
        if s.len() == 0 {
            assert(insert_sorted(s, r) =~= s.insert(0, r));
        } else {
            assert(insert_sorted(s, r) =~= s.insert(0, r));
        }
    } else {
        assert(rec_le(s.first(), r));
        lemma_insert_sorted_at(s.drop_first(), r, p - 1);
        assert(insert_sorted(s, r) =~= seq![s.first()] + s.drop_first().insert(p - 1, r));
        assert(seq![s.first()] + s.drop_first().insert(p - 1, r) =~= s.insert(p, r));
    }
}

proof fn lemma_insert_sorted_ensures(s: Seq<InsRecord>, r: InsRecord)
    requires
        sorted_recs(s),
    ensures
        sorted_recs(insert_sorted(s, r)),
        insert_sorted(s, r).to_multiset() == s.to_multiset().insert(r),
        insert_sorted(s, r).len() == s.len() + 1,
    decreases s.len(),
{
    broadcast use vstd::seq_lib::group_to_multiset_ensures;

    if s.len() == 0 {
        assert(insert_sorted(s, r) =~= Seq::<InsRecord>::empty().push(r));
        assert(insert_sorted(s, r).to_multiset() =~= s.to_multiset().insert(r));
    } else if rec_le(s.first(), r) {
        assert(sorted_recs(s.drop_first()));
        lemma_insert_sorted_ensures(s.drop_first(), r);
        let t = insert_sorted(s.drop_first(), r);
        let whole = insert_sorted(s, r);
        assert(whole =~= seq![s.first()] + t);
        // order: the head comes at-or-before everything inserted after it
        assert forall|i: int, j: int| 0 <= i < j < whole.len() implies rec_le(
            #[trigger] whole[i],
            #[trigger] whole[j],
        ) by {
            if i == 0 {
                // whole[j] is either r or an element of s
                assert(t.to_multiset().contains(whole[j]));
                if whole[j] == r {
                    assert(rec_le(s.first(), r));
                } else {
                    assert(s.drop_first().to_multiset().contains(whole[j]));
                    let w = choose|w: int|
                        0 <= w < s.drop_first().len() && s.drop_first()[w] == whole[j];
                    assert(rec_le(s[0], s[w + 1]));
                }
            } else {
                assert(rec_le(t[i - 1], t[j - 1]));
            }
        }
        assert(whole.to_multiset() =~= s.to_multiset().insert(r)) by {
            assert(whole =~= seq![s.first()].add(t));
            vstd::seq_lib::lemma_multiset_commutative(seq![s.first()], t);
            vstd::seq_lib::lemma_multiset_commutative(seq![s.first()], s.drop_first());
            assert(s =~= seq![s.first()].add(s.drop_first()));
        }
    } else {
        let whole = insert_sorted(s, r);
        assert(whole =~= seq![r] + s);
        lemma_rec_le_total(s.first(), r);
        assert(rec_le(r, s.first()));
        assert forall|i: int, j: int| 0 <= i < j < whole.len() implies rec_le(
            #[trigger] whole[i],
            #[trigger] whole[j],
        ) by {
            if i == 0 {
                if j == 1 {
                } else {
                    lemma_rec_le_trans(r, s[0], s[j - 1]);
                }
            } else {
                assert(rec_le(s[i - 1], s[j - 1]));
            }
        }
        assert(whole.to_multiset() =~= s.to_multiset().insert(r)) by {
            vstd::seq_lib::lemma_multiset_commutative(seq![r], s);
        }
    }
}

/// The insertion sort returns the same records (as a multiset), sorted.
pub proof fn lemma_insort_ensures(s: Seq<InsRecord>)
    ensures
        sorted_recs(insort(s)),
        insort(s).to_multiset() == s.to_multiset(),
        insort(s).len() == s.len(),
    decreases s.len(),
{
    broadcast use vstd::seq_lib::group_to_multiset_ensures;

    if s.len() > 0 {
        lemma_insort_ensures(s.drop_last());
        lemma_insert_sorted_ensures(insort(s.drop_last()), s.last());
        assert(s =~= s.drop_last().push(s.last()));
        assert(s.drop_last().push(s.last()).to_multiset() =~= s.drop_last().to_multiset().insert(
            s.last(),
        ));
    }
}

/// The global ids of a record sequence, in order.
pub open spec fn gids_of(s: Seq<InsRecord>) -> Seq<Seq<char>> {
    s.map_values(|r: InsRecord| r.global_id@)
}

/// `j` is an ancestor candidate for `i`: another record whose global id
/// is a strict dot-bounded prefix of `i`'s.
pub open spec fn is_cand(gs: Seq<Seq<char>>, i: int, j: int) -> bool {
    &&& 0 <= j < gs.len()
    &&& j != i
    &&& is_strict_dot_prefix(gs[j], gs[i])
}

/// The builder's parent choice for record `i`: the first candidate of
/// maximal global-id length, or none when no candidate exists.
pub open spec fn parent_ok(gs: Seq<Seq<char>>, i: int, p: Option<usize>) -> bool {
    match p {
        None => forall|j: int| !is_cand(gs, i, j),
        Some(j) => {
            &&& is_cand(gs, i, j as int)
            &&& forall|k: int| is_cand(gs, i, k) ==> gs[k].len() <= gs[j as int].len()
            &&& forall|k: int|
                is_cand(gs, i, k) && k < j as int ==> gs[k].len() < gs[j as int].len()
        },
    }
}

/// The parent choice is a function of the global ids: any two values
/// satisfying it are equal.
pub proof fn lemma_parent_unique(gs: Seq<Seq<char>>, i: int, p1: Option<usize>, p2: Option<usize>)
    requires
        parent_ok(gs, i, p1),
        parent_ok(gs, i, p2),
    ensures
        p1 == p2,
{
    match (p1, p2) {
        (Some(j1), Some(j2)) => {
            assert(gs[j1 as int].len() == gs[j2 as int].len());
            if j1 < j2 {
                assert(gs[j1 as int].len() < gs[j2 as int].len());
            } else if j2 < j1 {
                assert(gs[j2 as int].len() < gs[j1 as int].len());
            }
        },
        (Some(j1), None) => {
            assert(!is_cand(gs, i, j1 as int));
        },
        (None, Some(j2)) => {
            assert(!is_cand(gs, i, j2 as int));
        },
        (None, None) => {},
    }
}

/// A strict dot-bounded prefix has strictly fewer dots.
proof fn lemma_dot_count_take_le(s: Seq<char>, m: int)
    requires
        0 <= m <= s.len(),
    ensures
        dot_count(s.take(m)) <= dot_count(s),
    decreases s.len(),
{
    if m < s.len() {
        assert(s.drop_last().take(m) =~= s.take(m));
        lemma_dot_count_take_le(s.drop_last(), m);
    } else {
        assert(s.take(m) =~= s);
    }
}

proof fn lemma_sdp_dot_count(p: Seq<char>, g: Seq<char>)
    requires
        is_strict_dot_prefix(p, g),
    ensures
        dot_count(p) < dot_count(g),
{
    let m = p.len() as int;
    lemma_dot_count_take_le(g, m + 1);
    assert(g.take(m + 1).drop_last() =~= g.take(m));
    assert(g.take(m + 1).last() == g[m]);
    assert(g.take(m) =~= p);
    assert(dot_count(g.take(m + 1)) == dot_count(p) + 1);
}

/// In a sorted record sequence the chosen ancestor stands strictly
/// earlier: its global id has fewer dots, so it sorts before.
pub proof fn lemma_cand_index_lt(s: Seq<InsRecord>, i: int, j: int)
    requires
        sorted_recs(s),
        0 <= i < s.len(),
        is_cand(gids_of(s), i, j),
    ensures
        j < i,
{
    lemma_sdp_dot_count(gids_of(s)[j], gids_of(s)[i]);
    if j > i {
        assert(rec_le(s[i], s[j]));
    }
}

/// The parent's global id seen through the chosen index.
pub open spec fn parent_gid(gs: Seq<Seq<char>>, i: int, p: Option<usize>) -> Option<Seq<char>> {
    match p {
        None => None,
        Some(j) => Some(gs[j as int]),
    }
}

/// Law: which global id a record is attached under depends only on the
/// multiset of global ids in play and the record's own global id, not on
/// the order the records arrived in.
pub proof fn lemma_parent_gid_order_independent(
    gs1: Seq<Seq<char>>,
    gs2: Seq<Seq<char>>,
    i1: int,
    i2: int,
    p1: Option<usize>,
    p2: Option<usize>,
)
    requires
        gs1.to_multiset() == gs2.to_multiset(),
        0 <= i1 < gs1.len(),
        0 <= i2 < gs2.len(),
        gs1[i1] == gs2[i2],
        parent_ok(gs1, i1, p1),
        parent_ok(gs2, i2, p2),
    ensures
        parent_gid(gs1, i1, p1) == parent_gid(gs2, i2, p2),
{
    broadcast use vstd::seq_lib::group_to_multiset_ensures;

    match (p1, p2) {
        (None, None) => {},
        (Some(j1), None) => {
            // the candidate found in gs1 exists in gs2 too
            assert(gs1.contains(gs1[j1 as int]));
            assert(gs1.to_multiset().count(gs1[j1 as int]) > 0);
            assert(gs2.to_multiset().count(gs1[j1 as int]) > 0);
            assert(gs2.contains(gs1[j1 as int]));
            let k2 = choose|k: int| 0 <= k < gs2.len() && gs2[k] == gs1[j1 as int];
            assert(gs2[k2].len() < gs2[i2].len());
            assert(is_cand(gs2, i2, k2));
        },
        (None, Some(j2)) => {
            assert(gs2.contains(gs2[j2 as int]));
            assert(gs2.to_multiset().count(gs2[j2 as int]) > 0);
            assert(gs1.to_multiset().count(gs2[j2 as int]) > 0);
            assert(gs1.contains(gs2[j2 as int]));
            let k1 = choose|k: int| 0 <= k < gs1.len() && gs1[k] == gs2[j2 as int];
            assert(gs1[k1].len() < gs1[i1].len());
            assert(is_cand(gs1, i1, k1));
        },
        (Some(j1), Some(j2)) => {
            let a = gs1[j1 as int];
            let b = gs2[j2 as int];
            // each side's winner exists on the other side, so the maximal
            // candidate lengths agree
            assert(gs1.contains(a));
            assert(gs1.to_multiset().count(a) > 0);
            assert(gs2.to_multiset().count(a) > 0);
            assert(gs2.contains(a));
            let k2 = choose|k: int| 0 <= k < gs2.len() && gs2[k] == a;
            assert(is_cand(gs2, i2, k2));
            assert(a.len() <= b.len());
            assert(gs2.contains(b));
            assert(gs2.to_multiset().count(b) > 0);
            assert(gs1.to_multiset().count(b) > 0);
            assert(gs1.contains(b));
            let k1 = choose|k: int| 0 <= k < gs1.len() && gs1[k] == b;
            assert(is_cand(gs1, i1, k1));
            assert(b.len() <= a.len());
            // equal-length strict prefixes of the same id are equal
            assert(a =~= gs1[i1].subrange(0, a.len() as int));
            assert(b =~= gs2[i2].subrange(0, b.len() as int));
        },
    }
}

/// Chooses, for every record, the nearest ancestor present in the list:
/// the record (other than itself) whose global id is the longest strict
/// dot-bounded prefix of its own; the first such record on a tie.
pub fn compute_parents(recs: &Vec<InsRecord>) -> (ps: Vec<Option<usize>>)
    ensures
        ps@.len() == recs@.len(),
        forall|i: int| 0 <= i < recs@.len() ==> parent_ok(gids_of(recs@), i, #[trigger] ps@[i]),
{
    let ghost gs = gids_of(recs@);
    let n = recs.len();
    let mut ps: Vec<Option<usize>> = Vec::new();
    let mut i: usize = 0;
    while i < n
        invariant
            n == recs@.len(),
            gs == gids_of(recs@),
            i <= n,
            ps@.len() == i,
            forall|t: int| 0 <= t < i ==> parent_ok(gs, t, #[trigger] ps@[t]),
        decreases n - i,
    {
        let mut best: Option<usize> = None;
        let mut best_len: usize = 0;
        let mut j: usize = 0;
        while j < n
            invariant
                n == recs@.len(),
                gs == gids_of(recs@),
                i < n,
                j <= n,
                match best {
                    None => forall|k: int| 0 <= k < j ==> !is_cand(gs, i as int, k),
                    Some(b) => {
                        &&& b < j
                        &&& is_cand(gs, i as int, b as int)
                        &&& best_len == gs[b as int].len()
                        &&& forall|k: int|
                            is_cand(gs, i as int, k) && k < j ==> gs[k].len() <= best_len
                        &&& forall|k: int|
                            is_cand(gs, i as int, k) && k < b as int ==> gs[k].len() < best_len
                    },
                },
            decreases n - j,
        {
            if j != i && strict_dot_prefix(recs[j].global_id.as_str(), recs[i].global_id.as_str())
            {
                let cl = recs[j].global_id.as_str().unicode_len();
                let better = match best {
                    None => true,
                    Some(_) => cl > best_len,
                };
                if better {
                    best = Some(j);
                    best_len = cl;
                }
            }
            j += 1;
        }
        ps.push(best);
        i += 1;
    }
    ps
}

/// Exec comparator for the builder's processing order.
fn rec_le_exec(a: &InsRecord, b: &InsRecord) -> (r: bool)
    ensures
        r == rec_le(*a, *b),
{
    let da = dots_in(a.global_id.as_str());
    let db = dots_in(b.global_id.as_str());
    if da < db {
        true
    } else if da == db {
        lex_le_str(a.global_id.as_str(), b.global_id.as_str())
    } else {
        false
    }
}

/// Sorts records by ascending dot count of the global id, ties broken
/// lexicographically; equal keys keep their input order.
pub fn sort_records(recs: Vec<InsRecord>) -> (r: Vec<InsRecord>)
    ensures
        r@ == insort(recs@),
{
    let ghost all = recs@;
    let mut rest = recs;
    let mut out: Vec<InsRecord> = Vec::new();
    let ghost mut k: int = 0;
    while rest.len() > 0
        invariant
            0 <= k <= all.len(),
            rest@ == all.skip(k),
            out@ == insort(all.take(k)),
        decreases rest@.len(),
    {
        let r = rest.remove(0);
        proof {
            assert(all.skip(k).remove(0) =~= all.skip(k + 1));
            assert(r == all[k]);
        }
        let mut p: usize = 0;
        let mut stop = false;
        while p < out.len() && !stop
            invariant
                p <= out.len(),
                forall|j: int| 0 <= j < p ==> rec_le(#[trigger] out@[j], r),
                stop ==> p < out.len() && !rec_le(out@[p as int], r),
            decreases out.len() - p, 1int - if stop {
                1int
            } else {
                0int
            },
        {
            if rec_le_exec(&out[p], &r) {
                p += 1;
            } else {
                stop = true;
            }
        }
        let ghost out_pre = out@;
        out.insert(p, r);
        proof {
            lemma_insert_sorted_at(out_pre, r, p as int);
            assert(all.take(k + 1).drop_last() =~= all.take(k));
            assert(all.take(k + 1).last() == all[k]);
            k = k + 1;
        }
    }
    proof {
        assert(all.take(k) =~= all);
    }
    out
}

/// The externally visible composite id of a record within its window.
pub open spec fn full_id_spec(window_id: Seq<char>, gid: Seq<char>, inst: nat) -> Seq<char> {
    window_id + "/"@ + gid + "["@ + dec_of(inst) + "]"@
}

/// The element-type label of a record: the last path segment of its
/// source location minus extension, or a generic label when absent.
pub open spec fn rec_etype(r: InsRecord) -> Seq<char> {
    match r.source_location {
        Some(s) => type_label_spec(s@),
        None => "Element"@,
    }
}

/// All fields of a node except its children are those of record `r`.
pub open spec fn node_matches_rec(n: UiNode, window_id: Seq<char>, r: InsRecord) -> bool {
    &&& n.id@ == full_id_spec(window_id, r.global_id@, r.instance_id as nat)
    &&& n.element_type@ == rec_etype(r)
    &&& n.source_location == r.source_location
    &&& n.payload == r.payload
}

/// Record `k` was assigned parent `m`.
pub open spec fn parent_is(ps: Seq<Option<usize>>, k: int, m: int) -> bool {
    match ps[k] {
        Some(p) => p as int == m,
        None => false,
    }
}

/// Indices in `[lo, len)` whose parent is `m`, deepest (largest) first:
/// the order in which the builder attaches children.
pub open spec fn kids_from(ps: Seq<Option<usize>>, m: int, lo: int) -> Seq<int>
    decreases ps.len() - lo,
{
    if lo < 0 || lo >= ps.len() {
        Seq::<int>::empty()
    } else {
        kids_from(ps, m, lo + 1) + if parent_is(ps, lo, m) {
            seq![lo]
        } else {
            Seq::<int>::empty()
        }
    }
}

/// Node `n` is the fully built subtree of record `i`: its own fields
/// come from the record, and its children are the subtrees of exactly
/// the records assigned to it, deepest-first.
pub open spec fn subtree_ok(
    n: UiNode,
    window_id: Seq<char>,
    rs: Seq<InsRecord>,
    ps: Seq<Option<usize>>,
    i: int,
) -> bool
    decreases n,
{
    &&& node_matches_rec(n, window_id, rs[i])
    &&& n.children.len() == kids_from(ps, i, 0).len()
    &&& forall|t: int|
        0 <= t < n.children.len() ==> subtree_ok(
            #[trigger] n.children[t],
            window_id,
            rs,
            ps,
            kids_from(ps, i, 0)[t],
        )
}

/// Node `n` is the partially built node of record `m`: children attached
/// so far are the subtrees of its kids with index at or above `lo`.
pub open spec fn node_partial(
    n: UiNode,
    window_id: Seq<char>,
    rs: Seq<InsRecord>,
    ps: Seq<Option<usize>>,
    m: int,
    lo: int,
) -> bool {
    &&& node_matches_rec(n, window_id, rs[m])
    &&& n.children.len() == kids_from(ps, m, lo).len()
    &&& forall|t: int|
        0 <= t < n.children.len() ==> subtree_ok(
            #[trigger] n.children[t],
            window_id,
            rs,
            ps,
            kids_from(ps, m, lo)[t],
        )
}

/// A live slot holding the partially built node of record `m`.
pub open spec fn slot_partial(
    slot: Option<UiNode>,
    window_id: Seq<char>,
    rs: Seq<InsRecord>,
    ps: Seq<Option<usize>>,
    m: int,
    lo: int,
) -> bool {
    match slot {
        Some(n) => node_partial(n, window_id, rs, ps, m, lo),
        None => false,
    }
}

/// Root records in ascending index order: those never assigned a parent.
pub open spec fn roots_idx(ps: Seq<Option<usize>>, k: int) -> Seq<int>
    decreases ps.len() - k,
{
    if k < 0 || k >= ps.len() {
        Seq::<int>::empty()
    } else {
        (if ps[k] is None {
            seq![k]
        } else {
            Seq::<int>::empty()
        }) + roots_idx(ps, k + 1)
    }
}

/// The returned forest: one fully built subtree per root record, in
/// sorted-record order.
pub open spec fn forest_ok(
    roots: Seq<UiNode>,
    window_id: Seq<char>,
    rs: Seq<InsRecord>,
    ps: Seq<Option<usize>>,
) -> bool {
    &&& roots.len() == roots_idx(ps, 0).len()
    &&& forall|t: int|
        0 <= t < roots.len() ==> subtree_ok(
            #[trigger] roots[t],
            window_id,
            rs,
            ps,
            roots_idx(ps, 0)[t],
        )
}

/// A range holding no kid of `m` adds nothing to its kid list.
proof fn lemma_kids_from_skip(ps: Seq<Option<usize>>, m: int, lo: int, hi: int)
    requires
        0 <= lo <= hi,
        forall|k: int| lo <= k < hi ==> !parent_is(ps, k, m),
    ensures
        kids_from(ps, m, lo) == kids_from(ps, m, hi),
    decreases hi - lo,
{
    if lo < hi {
        if lo < ps.len() {
            lemma_kids_from_skip(ps, m, lo + 1, hi);
            assert(kids_from(ps, m, lo) =~= kids_from(ps, m, lo + 1));
        } else {
            lemma_kids_from_skip(ps, m, lo + 1, hi);
        }
    }
}

/// Builds the composite id of a record within its window.
pub fn make_full_id(window_id: &str, r: &InsRecord) -> (s: String)
    ensures
        s@ == full_id_spec(window_id@, r.global_id@, r.instance_id as nat),
{
    let mut id = String::from_str(window_id);
    id.append("/");
    id.append(r.global_id.as_str());
    id.append("[");
    let num = u64_to_string(r.instance_id);
    id.append(num.as_str());
    id.append("]");
    proof {
        assert(id@ =~= full_id_spec(window_id@, r.global_id@, r.instance_id as nat));
    }
    id
}

/// Builds the node of one record, children still empty.
pub fn make_seed(window_id: &str, r: InsRecord) -> (n: UiNode)
    ensures
        node_matches_rec(n, window_id@, r),
        n.children@.len() == 0,
{
    let id = make_full_id(window_id, &r);
    let element_type = match &r.source_location {
        Some(s) => type_label_of(s.as_str()),
        None => String::from_str("Element"),
    };
    UiNode {
        id,
        element_type,
        source_location: r.source_location,
        payload: r.payload,
        children: Vec::new(),
    }
}

/// Attaches every record to its chosen parent, deepest record first, and
/// returns the records never attached, in sorted order, as roots.
#[verifier::rlimit(60)]
pub fn assemble_forest(
    window_id: &str,
    sorted: Vec<InsRecord>,
    parents: &Vec<Option<usize>>,
) -> (roots: Vec<UiNode>)
    requires
        parents@.len() == sorted@.len(),
        sorted_recs(sorted@),
        forall|i: int|
            0 <= i < sorted@.len() ==> parent_ok(gids_of(sorted@), i, #[trigger] parents@[i]),
    ensures
        forest_ok(roots@, window_id@, sorted@, parents@),
{
    let ghost rs = sorted@;
    let ghost ps = parents@;
    let ghost wid = window_id@;
    let n = sorted.len();

    // every record gets its node, children empty
    let mut slots: Vec<Option<UiNode>> = Vec::new();
    let mut input = sorted;
    while input.len() > 0
        invariant
            wid == window_id@,
            rs.len() == n,
            ps.len() == n,
            slots@.len() + input@.len() == n,
            input@ == rs.skip(slots@.len() as int),
            forall|m: int|
                0 <= m < slots@.len() ==> slot_partial(#[trigger] slots@[m], wid, rs, ps, m, n as int),
        decreases input@.len(),
    {
        let ghost k = slots@.len() as int;
        let r = input.remove(0);
        proof {
            assert(rs.skip(k).remove(0) =~= rs.skip(k + 1));
            assert(r == rs[k]);
        }
        let seed = make_seed(window_id, r);
        proof {
            assert(kids_from(ps, k, n as int) =~= Seq::<int>::empty());
        }
        slots.push(Some(seed));
    }

    // deepest to shallowest: take each assigned record's finished node
    // and append it to its parent's children
    let mut i: usize = n;
    while i > 0
        invariant
            wid == window_id@,
            ps == parents@,
            rs.len() == n,
            ps.len() == n,
            slots@.len() == n,
            i <= n,
            sorted_recs(rs),
            forall|t: int| 0 <= t < n ==> parent_ok(gids_of(rs), t, #[trigger] ps[t]),
            forall|m: int|
                0 <= m < i ==> slot_partial(#[trigger] slots@[m], wid, rs, ps, m, i as int),
            forall|m: int|
                i <= m < n && ps[m] is None ==> slot_partial(
                    #[trigger] slots@[m],
                    wid,
                    rs,
                    ps,
                    m,
                    i as int,
                ),
            forall|m: int| i <= m < n && !(ps[m] is None) ==> (#[trigger] slots@[m]) is None,
        decreases i,
    {
        let idx = i - 1;
        let p = parents[idx];
        proof {
            // no kid of any record lies at the index being processed
            // unless that record is the chosen parent
            assert(parent_ok(gids_of(rs), idx as int, ps[idx as int]));
        }
        match p {
            Some(j) => {
                proof {
                    lemma_cand_index_lt(rs, idx as int, j as int);
                }
                let child_slot = slots.remove(idx);
                slots.insert(idx, None);
                let ghost before = slots@;
                let child = child_slot.unwrap();
                proof {
                    // the child's subtree is complete: no kid of it lies
                    // below the processed range
                    assert forall|k: int| 0 <= k < i as int implies !parent_is(ps, k, idx as int) by {
                        if parent_is(ps, k, idx as int) {
                            assert(parent_ok(gids_of(rs), k, ps[k]));
                            lemma_cand_index_lt(rs, k, idx as int);
                        }
                    }
                    lemma_kids_from_skip(ps, idx as int, 0, i as int);
                    assert(subtree_ok(child, wid, rs, ps, idx as int));
                }
                let parent_slot = slots.remove(j);
                let mut pnode = parent_slot.unwrap();
                let ghost oldkids = pnode.children@;
                pnode.children.push(child);
                slots.insert(j, Some(pnode));
                proof {
                    assert(slots@ =~= before.update(j as int, Some(pnode)));
                    // the parent gained exactly its kid at index `idx`
                    assert(kids_from(ps, j as int, idx as int) =~= kids_from(
                        ps,
                        j as int,
                        i as int,
                    ).push(idx as int));
                    assert(node_partial(pnode, wid, rs, ps, j as int, idx as int));
                    // every other record has no kid at `idx`
                    assert forall|m: int|
                        0 <= m < n && m != j as int implies !parent_is(ps, idx as int, m) by {}
                    assert forall|m: int|
                        0 <= m < idx as int implies slot_partial(
                            #[trigger] slots@[m],
                            wid,
                            rs,
                            ps,
                            m,
                            idx as int,
                        ) by {
                        if m != j as int {
                            lemma_kids_from_skip(ps, m, idx as int, i as int);
                            assert(slots@[m] == before[m]);
                        }
                    }
                    assert forall|m: int|
                        idx as int <= m < n && ps[m] is None implies slot_partial(
                            #[trigger] slots@[m],
                            wid,
                            rs,
                            ps,
                            m,
                            idx as int,
                        ) by {
                        lemma_kids_from_skip(ps, m, idx as int, i as int);
                        assert(slots@[m] == before[m]);
                        assert(slot_partial(before[m], wid, rs, ps, m, i as int));
                    }
                }
            },
            None => {
                proof {
                    assert forall|m: int|
                        0 <= m < n implies !parent_is(ps, idx as int, m) by {}
                    assert forall|m: int|
                        0 <= m < idx as int implies slot_partial(
                            #[trigger] slots@[m],
                            wid,
                            rs,
                            ps,
                            m,
                            idx as int,
                        ) by {
                        lemma_kids_from_skip(ps, m, idx as int, i as int);
                    }
                    assert forall|m: int|
                        idx as int <= m < n && ps[m] is None implies slot_partial(
                            #[trigger] slots@[m],
                            wid,
                            rs,
                            ps,
                            m,
                            idx as int,
                        ) by {
                        lemma_kids_from_skip(ps, m, idx as int, i as int);
                        assert(slot_partial(slots@[m], wid, rs, ps, m, i as int));
                    }
                }
            },
        }
        i = idx;
    }

    // surviving slots are the roots, in sorted-record order
    let ghost fslots = slots@;
    let mut roots: Vec<UiNode> = Vec::new();
    let mut rem = slots;
    let ghost mut k: int = 0;
    while rem.len() > 0
        invariant
            wid == window_id@,
            rs.len() == n,
            ps.len() == n,
            fslots.len() == n,
            0 <= k <= n,
            rem@ == fslots.skip(k),
            forall|m: int|
                0 <= m < n && ps[m] is None ==> slot_partial(#[trigger] fslots[m], wid, rs, ps, m, 0),
            forall|m: int| 0 <= m < n && !(ps[m] is None) ==> (#[trigger] fslots[m]) is None,
            roots@.len() + roots_idx(ps, k).len() == roots_idx(ps, 0).len(),
            roots_idx(ps, 0) == roots_idx(ps, 0).take(roots@.len() as int) + roots_idx(ps, k),
            forall|t: int|
                0 <= t < roots@.len() ==> subtree_ok(
                    #[trigger] roots@[t],
                    wid,
                    rs,
                    ps,
                    roots_idx(ps, 0)[t],
                ),
        decreases rem@.len(),
    {
        let s = rem.remove(0);
        proof {
            assert(fslots.skip(k).remove(0) =~= fslots.skip(k + 1));
            assert(s == fslots[k]);
        }
        match s {
            Some(nd) => {
                proof {
                    assert(ps[k] is None);
                    assert(node_partial(nd, wid, rs, ps, k, 0));
                    assert(subtree_ok(nd, wid, rs, ps, k));
                    assert(roots_idx(ps, k) =~= seq![k] + roots_idx(ps, k + 1));
                    assert(roots_idx(ps, 0)[roots@.len() as int] == k);
                    assert(roots_idx(ps, 0).take(roots@.len() as int + 1) =~= roots_idx(ps, 0).take(
                        roots@.len() as int,
                    ).push(k));
                    assert(roots_idx(ps, 0) =~= roots_idx(ps, 0).take(roots@.len() as int + 1)
                        + roots_idx(ps, k + 1));
                }
                roots.push(nd);
            },
            None => {
                proof {
                    assert(!(ps[k] is None));
                    assert(roots_idx(ps, k) =~= roots_idx(ps, k + 1));
                }
            },
        }
        proof {
            k = k + 1;
        }
    }
    proof {
        assert(roots_idx(ps, k) =~= Seq::<int>::empty());
        assert(roots_idx(ps, 0).take(roots@.len() as int) =~= roots_idx(ps, 0));
    }
    roots
}

/// The forest `roots` is what the builder yields for `records` under
/// `window_id`: the records in stable sorted order, each assigned the
/// parent that `parent_ok` names (a choice `lemma_parent_unique` shows
/// is a function of the global ids), assembled per `forest_ok`.
pub open spec fn tree_built_for(
    roots: Seq<UiNode>,
    window_id: Seq<char>,
    records: Seq<InsRecord>,
) -> bool {
    exists|ps: Seq<Option<usize>>|
        {
            &&& ps.len() == insort(records).len()
            &&& (forall|i: int|
                0 <= i < ps.len() ==> parent_ok(gids_of(insort(records)), i, #[trigger] ps[i]))
            &&& forest_ok(roots, window_id, insort(records), ps)
        }
}

/// Reconstructs a window's element forest from its flat inspector
/// records: records are processed shallowest-first in a stable order,
/// each is attached under the record whose global id is the longest
/// strict dot-bounded prefix of its own, and the rest become roots.
pub fn build_element_tree(window_id: &str, records: Vec<InsRecord>) -> (roots: Vec<UiNode>)
    ensures
        tree_built_for(roots@, window_id@, records@),
{
    let ghost all = records@;
    let sorted = sort_records(records);
    proof {
        lemma_insort_ensures(all);
    }
    let parents = compute_parents(&sorted);
    let ghost ps = parents@;
    let roots = assemble_forest(window_id, sorted, &parents);
    proof {
        assert({
            &&& ps.len() == insort(all).len()
            &&& (forall|i: int|
                0 <= i < ps.len() ==> parent_ok(gids_of(insort(all)), i, #[trigger] ps[i]))
            &&& forest_ok(roots@, window_id@, insort(all), ps)
        });
    }
    roots
}

} // verus!
