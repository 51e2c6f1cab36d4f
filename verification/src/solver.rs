//! The search engine: enumerates candidate role multisets from the deck,
//! their seatings, and the Wretch, disguise and corruption choices of each
//! seating, collecting every world consistent with the observations; and
//! the validator, which runs the same inner check on one given world.

use vstd::prelude::*;

use crate::roles::{Group, Role};
use crate::statements::{spec_stmt_wf, RoleStatement};
use crate::world::{
    build_choices, contains_role, copy_roles, dfs_check, filter_group, filter_group_excl,
    lemma_view_role_lists_push,
    spec_all_statements_ok, spec_dfs, spec_disguise_choices_at, spec_filter_group,
    spec_filter_group_excl, spec_filter_group_excl_upto,
    spec_filter_group_upto, spec_statements_match, spec_vis_ok, spec_wretch_choices_at,
    spec_world_consistent, view_role_lists,
};

verus! {

/// The number of roles of group `g` among the first `k` seats.
pub open spec fn spec_count_group_upto(s: Seq<Role>, g: Group, k: int) -> int
    decreases k,
{
    if k <= 0 {
        0
    } else {
        spec_count_group_upto(s, g, k - 1) + if s[k - 1].spec_group() == g {
            1int
        } else {
            0int
        }
    }
}

/// The number of roles of group `g` in a seating.
pub open spec fn spec_count_group(s: Seq<Role>, g: Group) -> int {
    spec_count_group_upto(s, g, s.len() as int)
}

/// The number of occurrences of role `x` among the first `k` entries.
pub open spec fn spec_count_role_upto(s: Seq<Role>, x: Role, k: int) -> int
    decreases k,
{
    if k <= 0 {
        0
    } else {
        spec_count_role_upto(s, x, k - 1) + if s[k - 1] == x {
            1int
        } else {
            0int
        }
    }
}

/// The number of occurrences of role `x` in a list.
pub open spec fn spec_count_role(s: Seq<Role>, x: Role) -> int {
    spec_count_role_upto(s, x, s.len() as int)
}

/// Every role occurs in `a` at most as often as in `b`.
pub open spec fn spec_sub_multiset(a: Seq<Role>, b: Seq<Role>) -> bool {
    forall|x: Role| spec_count_role(a, x) <= spec_count_role(b, x)
}

/// The two lists hold the same roles with the same multiplicities.
pub open spec fn spec_multiset_eq(a: Seq<Role>, b: Seq<Role>) -> bool {
    forall|x: Role| spec_count_role(a, x) == spec_count_role(b, x)
}

/// Two lists that agree below `k` have the same partial role counts.
proof fn lemma_count_role_agree(s1: Seq<Role>, s2: Seq<Role>, x: Role, k: int)
    requires
        forall|j: int| 0 <= j < k ==> s1[j] == s2[j],
    ensures
        spec_count_role_upto(s1, x, k) == spec_count_role_upto(s2, x, k),
    decreases k,
{
    if k > 0 {
        lemma_count_role_agree(s1, s2, x, k - 1);
    }
}

/// Appending one role adds one occurrence of it to the count.
proof fn lemma_count_role_push(s: Seq<Role>, y: Role, x: Role)
    ensures
        spec_count_role(s.push(y), x) == spec_count_role(s, x) + if y == x {
            1int
        } else {
            0int
        },
{
    lemma_count_role_agree(s.push(y), s, x, s.len() as int);
}

/// Role counts add over concatenation.
proof fn lemma_count_role_concat(a: Seq<Role>, b: Seq<Role>, x: Role)
    ensures
        spec_count_role(a + b, x) == spec_count_role(a, x) + spec_count_role(b, x),
    decreases b.len(),
{
    if b.len() == 0 {
        assert(a + b =~= a);
    } else {
        let b0 = b.drop_last();
        assert(a + b =~= (a + b0).push(b.last()));
        assert(b =~= b0.push(b.last()));
        lemma_count_role_concat(a, b0, x);
        lemma_count_role_push(a + b0, b.last(), x);
        lemma_count_role_push(b0, b.last(), x);
    }
}

/// A positive partial count points at an occurrence.
proof fn lemma_count_role_pos_index(s: Seq<Role>, x: Role, k: int)
    requires
        spec_count_role_upto(s, x, k) > 0,
        k <= s.len(),
    ensures
        exists|j: int| 0 <= j < k && s[j] == x,
    decreases k,
{
    if k > 0 {
        if s[k - 1] == x {
        } else {
            lemma_count_role_pos_index(s, x, k - 1);
        }
    }
}

/// Splitting a list at `l` splits its role counts: the head element plus
/// the counts of the parts around it.
proof fn lemma_count_role_split(s: Seq<Role>, l: int, x: Role)
    requires
        0 <= l < s.len(),
    ensures
        spec_count_role(s, x) == spec_count_role(s.take(l), x) + (if s[l] == x {
            1int
        } else {
            0int
        }) + spec_count_role(s.skip(l + 1), x),
{
    assert(s =~= (s.take(l) + s.skip(l)));
    assert(s.skip(l) =~= Seq::<Role>::empty().push(s[l]) + s.skip(l + 1));
    lemma_count_role_concat(s.take(l), s.skip(l), x);
    lemma_count_role_concat(Seq::<Role>::empty().push(s[l]), s.skip(l + 1), x);
    lemma_count_role_push(Seq::<Role>::empty(), s[l], x);
}

/// Removing the element at `j` lowers its role's count by one and no other.
proof fn lemma_count_role_remove(s: Seq<Role>, j: int, x: Role)
    requires
        0 <= j < s.len(),
    ensures
        spec_count_role(s.take(j) + s.skip(j + 1), x) == spec_count_role(s, x) - if s[j] == x {
            1int
        } else {
            0int
        },
{
    lemma_count_role_split(s, j, x);
    lemma_count_role_concat(s.take(j), s.skip(j + 1), x);
}

/// Overwriting the element at `i` trades one occurrence of the old role
/// for one of the new.
proof fn lemma_count_role_update(s: Seq<Role>, i: int, y: Role, x: Role)
    requires
        0 <= i < s.len(),
    ensures
        spec_count_role(s.update(i, y), x) == spec_count_role(s, x) - (if s[i] == x {
            1int
        } else {
            0int
        }) + (if y == x {
            1int
        } else {
            0int
        }),
{
    let u = s.update(i, y);
    assert(u.take(i) =~= s.take(i));
    assert(u.skip(i + 1) =~= s.skip(i + 1));
    lemma_count_role_split(s, i, x);
    lemma_count_role_split(u, i, x);
}

/// A list contains a role exactly when it counts it.
proof fn lemma_contains_iff_count(s: Seq<Role>, x: Role)
    ensures
        s.contains(x) == (spec_count_role(s, x) > 0),
{
    lemma_count_role_nonneg(s, x, s.len() as int);
    if s.contains(x) {
        let j = choose|j: int| 0 <= j < s.len() && s[j] == x;
        lemma_contains_count_role(s, x, j, s.len() as int);
    }
    if spec_count_role(s, x) > 0 {
        lemma_count_role_pos_index(s, x, s.len() as int);
    }
}

/// The quota requested for group `g`.
pub open spec fn spec_quota(g: Group, villagers: int, outcasts: int, minions: int, demons: int) -> int {
    match g {
        Group::Villager => villagers,
        Group::Outcast => outcasts,
        Group::Minion => minions,
        Group::Demon => demons,
    }
}

/// The roles of the first `k` multiset entries that belong to group `g`,
/// counted with their multiplicities.
pub open spec fn spec_total_group_upto(keys: Seq<Role>, counts: Seq<usize>, g: Group, k: int) -> int
    decreases k,
{
    if k <= 0 {
        0
    } else {
        spec_total_group_upto(keys, counts, g, k - 1) + if keys[k - 1].spec_group() == g {
            counts[k - 1] as int
        } else {
            0int
        }
    }
}

/// The multiplicity-weighted count of group `g` in a role multiset.
pub open spec fn spec_total_group(keys: Seq<Role>, counts: Seq<usize>, g: Group) -> int {
    spec_total_group_upto(keys, counts, g, keys.len() as int)
}

/// The sum of the first `k` multiplicities.
pub open spec fn spec_total_all_upto(counts: Seq<usize>, k: int) -> int
    decreases k,
{
    if k <= 0 {
        0
    } else {
        spec_total_all_upto(counts, k - 1) + counts[k - 1] as int
    }
}

/// The total size of a role multiset.
pub open spec fn spec_total_all(counts: Seq<usize>) -> int {
    spec_total_all_upto(counts, counts.len() as int)
}

proof fn lemma_total_all_nonneg(counts: Seq<usize>, k: int)
    ensures
        spec_total_all_upto(counts, k) >= 0,
    decreases k,
{
    if k > 0 {
        lemma_total_all_nonneg(counts, k - 1);
    }
}

/// An exhausted multiset holds nothing of any group.
proof fn lemma_total_all_zero_group(keys: Seq<Role>, counts: Seq<usize>, g: Group, k: int)
    requires
        spec_total_all_upto(counts, k) == 0,
    ensures
        spec_total_group_upto(keys, counts, g, k) == 0,
    decreases k,
{
    if k > 0 {
        lemma_total_all_nonneg(counts, k - 1);
        lemma_total_all_zero_group(keys, counts, g, k - 1);
    }
}

/// Changing one multiplicity shifts the group totals by the difference, on
/// the changed key's group alone.
proof fn lemma_total_group_update(
    keys: Seq<Role>,
    counts: Seq<usize>,
    g: Group,
    j: int,
    v: usize,
    k: int,
)
    requires
        0 <= j < counts.len(),
        k <= counts.len(),
    ensures
        spec_total_group_upto(keys, counts.update(j, v), g, k) == spec_total_group_upto(
            keys,
            counts,
            g,
            k,
        ) + if j < k && keys[j].spec_group() == g {
            v - counts[j]
        } else {
            0int
        },
    decreases k,
{
    if k > 0 {
        lemma_total_group_update(keys, counts, g, j, v, k - 1);
    }
}

/// Changing one multiplicity shifts the total size by the difference.
proof fn lemma_total_all_update(counts: Seq<usize>, j: int, v: usize, k: int)
    requires
        0 <= j < counts.len(),
        k <= counts.len(),
    ensures
        spec_total_all_upto(counts.update(j, v), k) == spec_total_all_upto(counts, k) + if j < k {
            v - counts[j]
        } else {
            0int
        },
    decreases k,
{
    if k > 0 {
        lemma_total_all_update(counts, j, v, k - 1);
    }
}

/// One multiplicity never exceeds the total size.
proof fn lemma_count_le_total(counts: Seq<usize>, j: int, k: int)
    requires
        0 <= j < k,
    ensures
        counts[j] as int <= spec_total_all_upto(counts, k),
    decreases k,
{
    if j < k - 1 {
        lemma_count_le_total(counts, j, k - 1);
    } else {
        lemma_total_all_nonneg(counts, k - 1);
    }
}

/// Two lists that agree below `k` have the same partial group counts.
proof fn lemma_count_group_upto_agree(s1: Seq<Role>, s2: Seq<Role>, g: Group, k: int)
    requires
        forall|j: int| 0 <= j < k ==> s1[j] == s2[j],
    ensures
        spec_count_group_upto(s1, g, k) == spec_count_group_upto(s2, g, k),
    decreases k,
{
    if k > 0 {
        lemma_count_group_upto_agree(s1, s2, g, k - 1);
    }
}

/// Appending one role adds its group to the count.
pub proof fn lemma_count_group_push(s: Seq<Role>, x: Role, g: Group)
    ensures
        spec_count_group(s.push(x), g) == spec_count_group(s, g) + if x.spec_group() == g {
            1int
        } else {
            0int
        },
{
    lemma_count_group_upto_agree(s.push(x), s, g, s.len() as int);
}

/// Group counts add over concatenation.
proof fn lemma_count_group_concat(a: Seq<Role>, b: Seq<Role>, g: Group)
    ensures
        spec_count_group(a + b, g) == spec_count_group(a, g) + spec_count_group(b, g),
    decreases b.len(),
{
    if b.len() == 0 {
        assert(a + b =~= a);
    } else {
        let b0 = b.drop_last();
        assert(a + b =~= (a + b0).push(b.last()));
        assert(b =~= b0.push(b.last()));
        lemma_count_group_concat(a, b0, g);
        lemma_count_group_push(a + b0, b.last(), g);
        lemma_count_group_push(b0, b.last(), g);
    }
}

/// A list whose roles all belong to `g0` counts its length for `g0` and
/// nothing for any other group.
proof fn lemma_count_group_homogeneous(s: Seq<Role>, g0: Group, g: Group, k: int)
    requires
        0 <= k <= s.len(),
        forall|j: int| 0 <= j < s.len() ==> (#[trigger] s[j]).spec_group() == g0,
    ensures
        spec_count_group_upto(s, g, k) == if g == g0 {
            k
        } else {
            0int
        },
    decreases k,
{
    if k > 0 {
        lemma_count_group_homogeneous(s, g0, g, k - 1);
    }
}

proof fn lemma_count_role_nonneg(s: Seq<Role>, x: Role, k: int)
    ensures
        spec_count_role_upto(s, x, k) >= 0,
    decreases k,
{
    if k > 0 {
        lemma_count_role_nonneg(s, x, k - 1);
    }
}

/// A list that holds a role counts it at least once.
pub proof fn lemma_contains_count_role(s: Seq<Role>, x: Role, j: int, k: int)
    requires
        0 <= j < k <= s.len(),
        s[j] == x,
    ensures
        spec_count_role_upto(s, x, k) > 0,
    decreases k,
{
    if j < k - 1 {
        lemma_contains_count_role(s, x, j, k - 1);
    } else {
        lemma_count_role_nonneg(s, x, k - 1);
    }
}

/// Every role of a group filter belongs to that group and to the source
/// list.
pub proof fn lemma_filter_group_elems(s: Seq<Role>, g: Group, k: int)
    requires
        0 <= k <= s.len(),
    ensures
        forall|c: int|
            0 <= c < spec_filter_group_upto(s, g, k).len() ==> (#[trigger] spec_filter_group_upto(
                s,
                g,
                k,
            )[c]).spec_group() == g && s.contains(spec_filter_group_upto(s, g, k)[c]),
    decreases k,
{
    if k > 0 {
        lemma_filter_group_elems(s, g, k - 1);
        let prev = spec_filter_group_upto(s, g, k - 1);
        let cur = spec_filter_group_upto(s, g, k);
        if s[k - 1].spec_group() == g {
            assert forall|c: int| 0 <= c < cur.len() implies (#[trigger] cur[c]).spec_group() == g
                && s.contains(cur[c]) by {
                if c < prev.len() {
                    assert(cur[c] == prev[c]);
                } else {
                    assert(cur[c] == s[k - 1]);
                }
            }
        }
    }
}

/// Every role of an exclusion filter belongs to the group and the source
/// list and not to the excluded list; and every such role of the source
/// list is kept by the filter.
proof fn lemma_filter_group_excl_elems(s: Seq<Role>, g: Group, excl: Seq<Role>, k: int)
    requires
        0 <= k <= s.len(),
    ensures
        forall|c: int|
            0 <= c < spec_filter_group_excl_upto(s, g, excl, k).len() ==> (
            #[trigger] spec_filter_group_excl_upto(s, g, excl, k)[c]).spec_group() == g
                && s.contains(spec_filter_group_excl_upto(s, g, excl, k)[c]) && !excl.contains(
                spec_filter_group_excl_upto(s, g, excl, k)[c],
            ),
        forall|j: int|
            0 <= j < k && (#[trigger] s[j]).spec_group() == g && !excl.contains(s[j])
                ==> spec_filter_group_excl_upto(s, g, excl, k).contains(s[j]),
    decreases k,
{
    if k > 0 {
        lemma_filter_group_excl_elems(s, g, excl, k - 1);
        let prev = spec_filter_group_excl_upto(s, g, excl, k - 1);
        let cur = spec_filter_group_excl_upto(s, g, excl, k);
        if s[k - 1].spec_group() == g && !excl.contains(s[k - 1]) {
            assert forall|c: int| 0 <= c < cur.len() implies (#[trigger] cur[c]).spec_group() == g
                && s.contains(cur[c]) && !excl.contains(cur[c]) by {
                if c < prev.len() {
                    assert(cur[c] == prev[c]);
                } else {
                    assert(cur[c] == s[k - 1]);
                }
            }
            assert forall|j: int|
                0 <= j < k && (#[trigger] s[j]).spec_group() == g && !excl.contains(s[j]) implies
                cur.contains(s[j]) by {
                if j < k - 1 {
                    let c = choose|c: int| 0 <= c < prev.len() && prev[c] == s[j];
                    assert(cur[c] == s[j]);
                } else {
                    assert(cur[cur.len() - 1] == s[j]);
                }
            }
        } else {
            assert forall|j: int|
                0 <= j < k && (#[trigger] s[j]).spec_group() == g && !excl.contains(s[j]) implies
                cur.contains(s[j]) by {
                let c = choose|c: int| 0 <= c < prev.len() && prev[c] == s[j];
                assert(cur[c] == s[j]);
            }
        }
    }
}

/// The size-`k` picks from the entries of `roles` at or after `start`, in
/// index order: first every pick that takes the entry at `start`, then
/// every pick that skips it. Each pick of positions appears exactly once.
pub open spec fn spec_combos(roles: Seq<Role>, start: int, k: int) -> Seq<Seq<Role>>
    decreases roles.len() - start,
{
    if k <= 0 {
        seq![Seq::<Role>::empty()]
    } else if start < 0 || start >= roles.len() {
        Seq::empty()
    } else {
        spec_combos(roles, start + 1, k - 1).map_values(
            |c: Seq<Role>| Seq::<Role>::empty().push(roles[start]) + c,
        ) + spec_combos(roles, start + 1, k)
    }
}

/// Every size-`k` pick from the entries of `roles` at or after `start`, in
/// index order: each result is a sub-multiset of the remaining entries, and
/// every size-`k` sub-multiset of the remaining entries is realised by some
/// result.
fn combos_from(roles: &Vec<Role>, start: usize, k: usize) -> (r: Vec<Vec<Role>>)
    requires
        start <= roles@.len(),
    ensures
        view_role_lists(r@) == spec_combos(roles@, start as int, k as int),
        forall|c: int|
            0 <= c < r@.len() ==> (#[trigger] r@[c])@.len() == k && (forall|j: int|
                0 <= j < r@[c]@.len() ==> roles@.contains(#[trigger] r@[c]@[j])),
        forall|c: int|
            0 <= c < r@.len() ==> spec_sub_multiset((#[trigger] r@[c])@, roles@.skip(start as int)),
        forall|t: Seq<Role>|
            t.len() == k as int && #[trigger] spec_sub_multiset(t, roles@.skip(start as int))
                ==> exists|c: int| 0 <= c < r@.len() && spec_multiset_eq(r@[c]@, t),
        k == 0 ==> r@.len() == 1 && r@[0]@.len() == 0,
    decreases roles@.len() - start,
{
    let ghost skip0 = roles@.skip(start as int);
    let mut out: Vec<Vec<Role>> = Vec::new();
    if k == 0 {
        out.push(Vec::new());
        proof {
            assert(view_role_lists(out@) =~= spec_combos(roles@, start as int, k as int));
            assert forall|t: Seq<Role>|
                t.len() == k as int && #[trigger] spec_sub_multiset(t, skip0) implies exists|
                c: int,
            | 0 <= c < out@.len() && spec_multiset_eq(out@[c]@, t) by {
                assert(spec_multiset_eq(out@[0]@, t));
            }
            assert forall|c: int| 0 <= c < out@.len() implies spec_sub_multiset(
                (#[trigger] out@[c])@,
                skip0,
            ) by {
                assert forall|x: Role|
                    spec_count_role(out@[c]@, x) <= spec_count_role(skip0, x) by {
                    lemma_count_role_nonneg(skip0, x, skip0.len() as int);
                }
            }
        }
        return out;
    }
    if start == roles.len() {
        proof {
            assert(view_role_lists(out@) =~= spec_combos(roles@, start as int, k as int));
            assert(skip0.len() == 0);
            assert forall|t: Seq<Role>|
                t.len() == k as int && #[trigger] spec_sub_multiset(t, skip0) implies exists|
                c: int,
            | 0 <= c < out@.len() && spec_multiset_eq(out@[c]@, t) by {
                lemma_contains_count_role(t, t[0], 0, t.len() as int);
                assert(spec_count_role(t, t[0]) <= spec_count_role(skip0, t[0]));
                assert(false);
            }
        }
        return out;
    }
    let first = roles[start];
    let ghost skip1 = roles@.skip(start as int + 1);
    proof {
        assert(roles@.contains(first));
        assert(skip0 =~= Seq::<Role>::empty().push(first) + skip1);
    }
    let with_first = combos_from(roles, start + 1, k - 1);
    let mut c: usize = 0;
    while c < with_first.len()
        invariant
            c <= with_first@.len(),
            roles@.contains(first),
            first == roles@[start as int],
            forall|c2: int|
                0 <= c2 < with_first@.len() ==> (#[trigger] with_first@[c2])@.len() == k - 1 && (
                forall|j: int|
                    0 <= j < with_first@[c2]@.len() ==> roles@.contains(
                        #[trigger] with_first@[c2]@[j],
                    )),
            out@.len() == c,
            forall|c2: int|
                0 <= c2 < c ==> (#[trigger] out@[c2])@ == Seq::<Role>::empty().push(first)
                    + with_first@[c2]@,
            forall|c2: int|
                0 <= c2 < out@.len() ==> (#[trigger] out@[c2])@.len() == k && (forall|j: int|
                    0 <= j < out@[c2]@.len() ==> roles@.contains(#[trigger] out@[c2]@[j])),
            k >= 1,
        decreases with_first@.len() - c,
    {
        let mut v: Vec<Role> = Vec::new();
        v.push(first);
        let sub = &with_first[c];
        let mut j: usize = 0;
        while j < sub.len()
            invariant
                j <= sub@.len(),
                sub@ == with_first@[c as int]@,
                c < with_first@.len(),
                roles@.contains(first),
                forall|j2: int| 0 <= j2 < sub@.len() ==> roles@.contains(#[trigger] sub@[j2]),
                v@.len() == j + 1,
                v@[0] == first,
                forall|j2: int| 0 <= j2 < j ==> v@[j2 + 1] == sub@[j2],
                forall|j2: int| 0 <= j2 < v@.len() ==> roles@.contains(#[trigger] v@[j2]),
            decreases sub@.len() - j,
        {
            v.push(sub[j]);
            j = j + 1;
        }
        proof {
            assert(v@ =~= Seq::<Role>::empty().push(first) + sub@);
        }
        out.push(v);
        c = c + 1;
    }
    let without = combos_from(roles, start + 1, k);
    let ghost wlen = with_first@.len();
    let mut c: usize = 0;
    while c < without.len()
        invariant
            c <= without@.len(),
            first == roles@[start as int],
            wlen == with_first@.len(),
            forall|c2: int|
                0 <= c2 < without@.len() ==> (#[trigger] without@[c2])@.len() == k && (forall|
                    j: int,
                |
                    0 <= j < without@[c2]@.len() ==> roles@.contains(#[trigger] without@[c2]@[j])),
            out@.len() == wlen + c,
            forall|c2: int|
                0 <= c2 < wlen ==> (#[trigger] out@[c2])@ == Seq::<Role>::empty().push(first)
                    + with_first@[c2]@,
            forall|c2: int| 0 <= c2 < c ==> (#[trigger] out@[wlen + c2])@ == without@[c2]@,
            forall|c2: int|
                0 <= c2 < out@.len() ==> (#[trigger] out@[c2])@.len() == k && (forall|j: int|
                    0 <= j < out@[c2]@.len() ==> roles@.contains(#[trigger] out@[c2]@[j])),
            k >= 1,
        decreases without@.len() - c,
    {
        let copied = copy_roles(&without[c]);
        out.push(copied);
        c = c + 1;
    }
    proof {
        let single = Seq::<Role>::empty().push(first);
        let ghost prepended = spec_combos(roles@, start as int + 1, k as int - 1).map_values(
            |c: Seq<Role>| single + c,
        );
        assert forall|c2: int|
            0 <= c2 < out@.len() implies view_role_lists(out@)[c2] == (prepended + spec_combos(
            roles@,
            start as int + 1,
            k as int,
        ))[c2] by {
            assert(view_role_lists(out@)[c2] == out@[c2]@);
            if c2 < wlen {
                assert(out@[c2]@ == single + with_first@[c2]@);
                assert(with_first@[c2]@ == view_role_lists(with_first@)[c2]);
                assert(prepended[c2] == single + spec_combos(roles@, start as int + 1, k as int
                    - 1)[c2]);
            } else {
                assert(out@[wlen + (c2 - wlen)]@ == without@[c2 - wlen]@);
                assert(without@[c2 - wlen]@ == view_role_lists(without@)[c2 - wlen]);
            }
        }
        assert(view_role_lists(out@) =~= prepended + spec_combos(roles@, start as int + 1,
            k as int));
        assert(view_role_lists(out@) == spec_combos(roles@, start as int, k as int));
        assert(skip0 =~= single + skip1);
        assert forall|c2: int| 0 <= c2 < out@.len() implies spec_sub_multiset(
            (#[trigger] out@[c2])@,
            skip0,
        ) by {
            assert forall|x: Role| spec_count_role(out@[c2]@, x) <= spec_count_role(skip0, x) by {
                lemma_count_role_concat(single, skip1, x);
                lemma_count_role_push(Seq::<Role>::empty(), first, x);
                if c2 < wlen {
                    assert(out@[c2]@ == single + with_first@[c2]@);
                    lemma_count_role_concat(single, with_first@[c2]@, x);
                    assert(spec_sub_multiset(with_first@[c2]@, skip1));
                    assert(spec_count_role(with_first@[c2]@, x) <= spec_count_role(skip1, x));
                } else {
                    assert(out@[wlen + (c2 - wlen)]@ == without@[c2 - wlen]@);
                    assert(out@[c2]@ == without@[c2 - wlen]@);
                    assert(spec_sub_multiset(without@[c2 - wlen]@, skip1));
                    assert(spec_count_role(without@[c2 - wlen]@, x) <= spec_count_role(skip1, x));
                    lemma_count_role_nonneg(single, x, 1);
                }
            }
        }
        assert forall|t: Seq<Role>|
            t.len() == k as int && #[trigger] spec_sub_multiset(t, skip0) implies exists|c2: int|
            0 <= c2 < out@.len() && spec_multiset_eq(out@[c2]@, t) by {
            lemma_count_role_nonneg(t, first, t.len() as int);
            if spec_count_role(t, first) > 0 {
                lemma_count_role_pos_index(t, first, t.len() as int);
                let j = choose|j: int| 0 <= j < t.len() && t[j] == first;
                let t2 = t.take(j) + t.skip(j + 1);
                assert(t2.len() == k - 1);
                assert forall|x: Role| spec_count_role(t2, x) <= spec_count_role(skip1, x) by {
                    lemma_count_role_remove(t, j, x);
                    assert(spec_count_role(t, x) <= spec_count_role(skip0, x));
                    lemma_count_role_concat(single, skip1, x);
                    lemma_count_role_push(Seq::<Role>::empty(), first, x);
                }
                assert(spec_sub_multiset(t2, skip1));
                let cw = choose|c2: int|
                    0 <= c2 < with_first@.len() && spec_multiset_eq(with_first@[c2]@, t2);
                assert(out@[cw]@ == single + with_first@[cw]@);
                assert forall|x: Role|
                    spec_count_role(out@[cw]@, x) == spec_count_role(t, x) by {
                    lemma_count_role_concat(single, with_first@[cw]@, x);
                    lemma_count_role_push(Seq::<Role>::empty(), first, x);
                    assert(spec_count_role(with_first@[cw]@, x) == spec_count_role(t2, x));
                    lemma_count_role_remove(t, j, x);
                }
                assert(spec_multiset_eq(out@[cw]@, t));
            } else {
                assert forall|x: Role| spec_count_role(t, x) <= spec_count_role(skip1, x) by {
                    lemma_count_role_concat(single, skip1, x);
                    lemma_count_role_push(Seq::<Role>::empty(), first, x);
                    assert(spec_count_role(t, x) <= spec_count_role(skip0, x));
                    lemma_count_role_nonneg(t, x, t.len() as int);
                    lemma_count_role_nonneg(skip1, x, skip1.len() as int);
                }
                assert(spec_sub_multiset(t, skip1));
                let cw = choose|c2: int|
                    0 <= c2 < without@.len() && spec_multiset_eq(without@[c2]@, t);
                assert(out@[wlen + cw]@ == without@[cw]@);
                assert(spec_multiset_eq(out@[wlen + cw]@, t));
            }
        }
    }
    out
}

/// Splits the deck by group and enumerates, for each group, every pick of
/// the requested size, each exactly once, in deck order.
pub fn generate_role_combinations(
    deck: &Vec<Role>,
    villagers: usize,
    outcasts: usize,
    minions: usize,
    demons: usize,
) -> (r: (Vec<Vec<Role>>, Vec<Vec<Role>>, Vec<Vec<Role>>, Vec<Vec<Role>>))
    ensures
        view_role_lists(r.0@) == spec_combos(
            spec_filter_group(deck@, Group::Villager),
            0,
            villagers as int,
        ),
        view_role_lists(r.1@) == spec_combos(
            spec_filter_group(deck@, Group::Outcast),
            0,
            outcasts as int,
        ),
        view_role_lists(r.2@) == spec_combos(
            spec_filter_group(deck@, Group::Minion),
            0,
            minions as int,
        ),
        view_role_lists(r.3@) == spec_combos(
            spec_filter_group(deck@, Group::Demon),
            0,
            demons as int,
        ),
        forall|c: int|
            0 <= c < r.0@.len() ==> (#[trigger] r.0@[c])@.len() == villagers && (forall|j: int|
                0 <= j < r.0@[c]@.len() ==> (#[trigger] r.0@[c]@[j]).spec_group() == Group::Villager
                    && deck@.contains(r.0@[c]@[j])),
        forall|c: int|
            0 <= c < r.1@.len() ==> (#[trigger] r.1@[c])@.len() == outcasts && (forall|j: int|
                0 <= j < r.1@[c]@.len() ==> (#[trigger] r.1@[c]@[j]).spec_group() == Group::Outcast
                    && deck@.contains(r.1@[c]@[j])),
        forall|c: int|
            0 <= c < r.2@.len() ==> (#[trigger] r.2@[c])@.len() == minions && (forall|j: int|
                0 <= j < r.2@[c]@.len() ==> (#[trigger] r.2@[c]@[j]).spec_group() == Group::Minion
                    && deck@.contains(r.2@[c]@[j])),
        forall|c: int|
            0 <= c < r.3@.len() ==> (#[trigger] r.3@[c])@.len() == demons && (forall|j: int|
                0 <= j < r.3@[c]@.len() ==> (#[trigger] r.3@[c]@[j]).spec_group() == Group::Demon
                    && deck@.contains(r.3@[c]@[j])),
        villagers == 0 ==> r.0@.len() == 1 && r.0@[0]@.len() == 0,
        outcasts == 0 ==> r.1@.len() == 1 && r.1@[0]@.len() == 0,
        minions == 0 ==> r.2@.len() == 1 && r.2@[0]@.len() == 0,
        demons == 0 ==> r.3@.len() == 1 && r.3@[0]@.len() == 0,
        forall|c: int|
            0 <= c < r.0@.len() ==> spec_sub_multiset(
                (#[trigger] r.0@[c])@,
                spec_filter_group(deck@, Group::Villager),
            ),
        forall|c: int|
            0 <= c < r.1@.len() ==> spec_sub_multiset(
                (#[trigger] r.1@[c])@,
                spec_filter_group(deck@, Group::Outcast),
            ),
        forall|c: int|
            0 <= c < r.2@.len() ==> spec_sub_multiset(
                (#[trigger] r.2@[c])@,
                spec_filter_group(deck@, Group::Minion),
            ),
        forall|c: int|
            0 <= c < r.3@.len() ==> spec_sub_multiset(
                (#[trigger] r.3@[c])@,
                spec_filter_group(deck@, Group::Demon),
            ),
        forall|t: Seq<Role>|
            #[trigger] spec_group_pick(t, deck@, Group::Villager, villagers as int) ==> exists|c: int|
                0 <= c < r.0@.len() && spec_multiset_eq(r.0@[c]@, t),
        forall|t: Seq<Role>|
            #[trigger] spec_group_pick(t, deck@, Group::Outcast, outcasts as int) ==> exists|c: int|
                0 <= c < r.1@.len() && spec_multiset_eq(r.1@[c]@, t),
        forall|t: Seq<Role>|
            #[trigger] spec_group_pick(t, deck@, Group::Minion, minions as int) ==> exists|c: int|
                0 <= c < r.2@.len() && spec_multiset_eq(r.2@[c]@, t),
        forall|t: Seq<Role>|
            #[trigger] spec_group_pick(t, deck@, Group::Demon, demons as int) ==> exists|c: int|
                0 <= c < r.3@.len() && spec_multiset_eq(r.3@[c]@, t),
{
    let villager_roles = filter_group(deck, Group::Villager);
    let outcast_roles = filter_group(deck, Group::Outcast);
    let minion_roles = filter_group(deck, Group::Minion);
    let demon_roles = filter_group(deck, Group::Demon);
    proof {
        lemma_filter_group_elems(deck@, Group::Villager, deck@.len() as int);
        lemma_filter_group_elems(deck@, Group::Outcast, deck@.len() as int);
        lemma_filter_group_elems(deck@, Group::Minion, deck@.len() as int);
        lemma_filter_group_elems(deck@, Group::Demon, deck@.len() as int);
    }
    let v = combos_from(&villager_roles, 0, villagers);
    let o = combos_from(&outcast_roles, 0, outcasts);
    let m = combos_from(&minion_roles, 0, minions);
    let d = combos_from(&demon_roles, 0, demons);
    proof {
        assert(villager_roles@.skip(0) =~= spec_filter_group(deck@, Group::Villager));
        assert(outcast_roles@.skip(0) =~= spec_filter_group(deck@, Group::Outcast));
        assert(minion_roles@.skip(0) =~= spec_filter_group(deck@, Group::Minion));
        assert(demon_roles@.skip(0) =~= spec_filter_group(deck@, Group::Demon));
        assert forall|t: Seq<Role>|
            #[trigger] spec_group_pick(t, deck@, Group::Villager, villagers as int) implies exists|
            c: int,
        | 0 <= c < v@.len() && spec_multiset_eq(v@[c]@, t) by {
            assert(spec_sub_multiset(t, spec_filter_group(deck@, Group::Villager)));
        }
        assert forall|t: Seq<Role>|
            #[trigger] spec_group_pick(t, deck@, Group::Outcast, outcasts as int) implies exists|
            c: int,
        | 0 <= c < o@.len() && spec_multiset_eq(o@[c]@, t) by {
            assert(spec_sub_multiset(t, spec_filter_group(deck@, Group::Outcast)));
        }
        assert forall|t: Seq<Role>|
            #[trigger] spec_group_pick(t, deck@, Group::Minion, minions as int) implies exists|
            c: int,
        | 0 <= c < m@.len() && spec_multiset_eq(m@[c]@, t) by {
            assert(spec_sub_multiset(t, spec_filter_group(deck@, Group::Minion)));
        }
        assert forall|t: Seq<Role>|
            #[trigger] spec_group_pick(t, deck@, Group::Demon, demons as int) implies exists|
            c: int,
        | 0 <= c < d@.len() && spec_multiset_eq(d@[c]@, t) by {
            assert(spec_sub_multiset(t, spec_filter_group(deck@, Group::Demon)));
        }
    }
    (v, o, m, d)
}


/// Appends every entry of `src` to `dst`.
fn append_roles(dst: &mut Vec<Role>, src: &Vec<Role>)
    ensures
        final(dst)@ == old(dst)@ + src@,
{
    let ghost d0 = old(dst)@;
    let mut i: usize = 0;
    while i < src.len()
        invariant
            i <= src@.len(),
            dst@ =~= d0 + src@.subrange(0, i as int),
        decreases src@.len() - i,
    {
        dst.push(src[i]);
        i = i + 1;
    }
    proof {
        assert(dst@ =~= d0 + src@);
    }
}

/// The position of the variant that replaces Villager slot `i2` with the
/// spare Outcast at index `oi`, among `l` spare Outcasts.
pub open spec fn spec_variant_slot(i2: int, oi: int, l: int) -> int {
    i2 * l + oi
}

/// The candidate role multisets of one pick of group combinations. Without
/// a Counsellor the pick passes through as one multiset; with one, each
/// Villager slot is replaced in turn by each Outcast role not already in
/// play, and every such variant is produced, in slot order.
pub fn generate_role_variations(
    v_combo: &Vec<Role>,
    o_combo: &Vec<Role>,
    m_combo: &Vec<Role>,
    d_combo: &Vec<Role>,
    outcasts_not_in_play: &Vec<Role>,
    has_counsellor: bool,
) -> (r: Vec<Vec<Role>>)
    requires
        forall|j: int|
            0 <= j < v_combo@.len() ==> (#[trigger] v_combo@[j]).spec_group() == Group::Villager,
    ensures
        forall|c: int|
            0 <= c < r@.len() ==> (#[trigger] r@[c])@.len() == v_combo@.len() + o_combo@.len()
                + m_combo@.len() + d_combo@.len(),
        !has_counsellor ==> r@.len() == 1 && r@[0]@ == v_combo@ + o_combo@ + m_combo@ + d_combo@,
        has_counsellor ==> r@.len() == v_combo@.len() * outcasts_not_in_play@.len(),
        has_counsellor ==> forall|i2: int, oi: int|
            0 <= i2 < v_combo@.len() && 0 <= oi < outcasts_not_in_play@.len() ==> (#[trigger] r@[
                spec_variant_slot(i2, oi, outcasts_not_in_play@.len() as int)
            ])@ == v_combo@.update(i2, outcasts_not_in_play@[oi]) + o_combo@ + m_combo@ + d_combo@,
{
    let mut out: Vec<Vec<Role>> = Vec::new();
    if !has_counsellor {
        let mut base: Vec<Role> = Vec::new();
        append_roles(&mut base, v_combo);
        append_roles(&mut base, o_combo);
        append_roles(&mut base, m_combo);
        append_roles(&mut base, d_combo);
        proof {
            assert(base@ =~= v_combo@ + o_combo@ + m_combo@ + d_combo@);
        }
        out.push(base);
        return out;
    }
    let ghost l = outcasts_not_in_play@.len() as int;
    let mut i: usize = 0;
    while i < v_combo.len()
        invariant
            i <= v_combo@.len(),
            l == outcasts_not_in_play@.len() as int,
            forall|j: int|
                0 <= j < v_combo@.len() ==> (#[trigger] v_combo@[j]).spec_group()
                    == Group::Villager,
            out@.len() == i as int * l,
            forall|c: int|
                0 <= c < out@.len() ==> (#[trigger] out@[c])@.len() == v_combo@.len()
                    + o_combo@.len() + m_combo@.len() + d_combo@.len(),
            forall|i2: int, oi: int|
                0 <= i2 < i as int && 0 <= oi < l ==> (#[trigger] out@[spec_variant_slot(
                    i2,
                    oi,
                    l,
                )])@ == v_combo@.update(i2, outcasts_not_in_play@[oi]) + o_combo@ + m_combo@
                    + d_combo@,
        decreases v_combo@.len() - i,
    {
        if v_combo[i].group() == Group::Villager {
            let mut oi: usize = 0;
            while oi < outcasts_not_in_play.len()
                invariant
                    oi <= outcasts_not_in_play@.len(),
                    i < v_combo@.len(),
                    l == outcasts_not_in_play@.len() as int,
                    out@.len() == i as int * l + oi as int,
                    forall|c: int|
                        0 <= c < out@.len() ==> (#[trigger] out@[c])@.len() == v_combo@.len()
                            + o_combo@.len() + m_combo@.len() + d_combo@.len(),
                    forall|i2: int, oi2: int|
                        0 <= i2 < i as int && 0 <= oi2 < l ==> (#[trigger] out@[spec_variant_slot(
                            i2,
                            oi2,
                            l,
                        )])@ == v_combo@.update(i2, outcasts_not_in_play@[oi2]) + o_combo@
                            + m_combo@ + d_combo@,
                    forall|oi2: int|
                        0 <= oi2 < oi as int ==> (#[trigger] out@[spec_variant_slot(
                            i as int,
                            oi2,
                            l,
                        )])@ == v_combo@.update(i as int, outcasts_not_in_play@[oi2]) + o_combo@
                            + m_combo@ + d_combo@,
                decreases outcasts_not_in_play@.len() - oi,
            {
                let mut modified = copy_roles(v_combo);
                modified.set(i, outcasts_not_in_play[oi]);
                let mut combination: Vec<Role> = Vec::new();
                append_roles(&mut combination, &modified);
                append_roles(&mut combination, o_combo);
                append_roles(&mut combination, m_combo);
                append_roles(&mut combination, d_combo);
                proof {
                    assert(combination@ =~= v_combo@.update(
                        i as int,
                        outcasts_not_in_play@[oi as int],
                    ) + o_combo@ + m_combo@ + d_combo@);
                    assert(spec_variant_slot(i as int, oi as int, l) == out@.len());
                }
                out.push(combination);
                proof {
                    assert forall|i2: int, oi2: int|
                        0 <= i2 < i as int && 0 <= oi2 < l implies (#[trigger] out@[
                    spec_variant_slot(i2, oi2, l)])@ == v_combo@.update(
                        i2,
                        outcasts_not_in_play@[oi2],
                    ) + o_combo@ + m_combo@ + d_combo@ by {
                        assert(0 <= spec_variant_slot(i2, oi2, l) < i as int * l)
                            by (nonlinear_arith)
                            requires
                                0 <= i2 < i as int,
                                0 <= oi2 < l,
                        ;
                    }
                }
                oi = oi + 1;
            }
            proof {
                assert(out@.len() == (i as int + 1) * l) by (nonlinear_arith)
                    requires
                        out@.len() == i as int * l + l,
                ;
                assert forall|i2: int, oi2: int|
                    0 <= i2 < i as int + 1 && 0 <= oi2 < l implies (#[trigger] out@[
                spec_variant_slot(i2, oi2, l)])@ == v_combo@.update(i2, outcasts_not_in_play@[oi2])
                    + o_combo@ + m_combo@ + d_combo@ by {
                    if i2 == i as int {
                        assert(out@[spec_variant_slot(i as int, oi2, l)]@ == v_combo@.update(
                            i as int,
                            outcasts_not_in_play@[oi2],
                        ) + o_combo@ + m_combo@ + d_combo@);
                    }
                }
            }
        }
        i = i + 1;
    }
    out
}

/// Collects the distinct roles of a seating and their multiplicities, so
/// that the group totals of the multiset equal the group counts of the
/// seating.
fn build_counts(combined: &Vec<Role>) -> (r: (Vec<Role>, Vec<usize>))
    ensures
        r.0@.len() == r.1@.len(),
        forall|i: int, j: int| 0 <= i < j < r.0@.len() ==> r.0@[i] != r.0@[j],
        forall|g: Group|
            spec_total_group(r.0@, r.1@, g) == spec_count_group(combined@, g),
        forall|x: Role| spec_key_count(r.0@, r.1@, x) == spec_count_role(combined@, x),
        spec_total_all(r.1@) == combined@.len(),
{
    let mut keys: Vec<Role> = Vec::new();
    let mut counts: Vec<usize> = Vec::new();
    let mut i: usize = 0;
    while i < combined.len()
        invariant
            i <= combined@.len(),
            keys@.len() == counts@.len(),
            forall|i2: int, j2: int| 0 <= i2 < j2 < keys@.len() ==> keys@[i2] != keys@[j2],
            forall|g: Group|
                spec_total_group(keys@, counts@, g) == spec_count_group_upto(combined@, g, i as int),
            forall|x: Role|
                spec_key_count(keys@, counts@, x) == spec_count_role_upto(combined@, x, i as int),
            spec_total_all(counts@) == i,
        decreases combined@.len() - i,
    {
        let x = combined[i];
        let ghost keys0 = keys@;
        let ghost counts0 = counts@;
        let mut found = false;
        let mut j: usize = 0;
        while j < keys.len() && !found
            invariant
                j <= keys@.len(),
                !found ==> forall|j2: int| 0 <= j2 < j ==> keys@[j2] != x,
                found ==> j < keys@.len() && keys@[j as int] == x,
                keys@ == keys0,
                counts@ == counts0,
                keys@.len() == counts@.len(),
            decreases keys@.len() - j, (if found { 0int } else { 1int }),
        {
            if keys[j] == x {
                found = true;
            } else {
                j = j + 1;
            }
        }
        if found {
            let cnt = counts[j];
            proof {
                lemma_count_le_total(counts@, j as int, counts@.len() as int);
                lemma_total_all_nonneg(counts@, counts@.len() as int);
            }
            counts.set(j, cnt + 1);
            proof {
                assert forall|g: Group|
                    spec_total_group(keys@, counts@, g) == spec_count_group_upto(
                        combined@,
                        g,
                        i as int + 1,
                    ) by {
                    assert(spec_total_group(keys0, counts0, g) == spec_count_group_upto(
                        combined@,
                        g,
                        i as int,
                    ));
                    lemma_total_group_update(keys0, counts0, g, j as int, (cnt + 1) as usize,
                        counts0.len() as int);
                }
                assert forall|x: Role|
                    spec_key_count(keys@, counts@, x) == spec_count_role_upto(
                        combined@,
                        x,
                        i as int + 1,
                    ) by {
                    assert(spec_key_count(keys0, counts0, x) == spec_count_role_upto(
                        combined@,
                        x,
                        i as int,
                    ));
                    lemma_key_count_update(keys0, counts0, x, j as int, (cnt + 1) as usize,
                        counts0.len() as int);
                }
                lemma_total_all_update(counts0, j as int, (cnt + 1) as usize,
                    counts0.len() as int);
            }
        } else {
            keys.push(x);
            counts.push(1);
            proof {
                assert forall|i2: int, j2: int|
                    0 <= i2 < j2 < keys@.len() implies keys@[i2] != keys@[j2] by {
                    if j2 == keys@.len() - 1 {
                        assert(keys@[i2] == keys0[i2]);
                        assert(keys@[j2] == x);
                        assert(keys0[i2] != x);
                    } else {
                        assert(keys@[i2] == keys0[i2] && keys@[j2] == keys0[j2]);
                    }
                }
                assert forall|g: Group|
                    spec_total_group(keys@, counts@, g) == spec_count_group_upto(
                        combined@,
                        g,
                        i as int + 1,
                    ) by {
                    assert(spec_total_group(keys0, counts0, g) == spec_count_group_upto(
                        combined@,
                        g,
                        i as int,
                    ));
                    assert(spec_total_group_upto(keys@, counts@, g, keys0.len() as int)
                        == spec_total_group_upto(keys0, counts0, g, keys0.len() as int)) by {
                        lemma_total_group_agree(keys0.push(x), counts0.push(1), keys0, counts0, g,
                            keys0.len() as int);
                    }
                }
                assert forall|x2: Role|
                    spec_key_count(keys@, counts@, x2) == spec_count_role_upto(
                        combined@,
                        x2,
                        i as int + 1,
                    ) by {
                    assert(spec_key_count(keys0, counts0, x2) == spec_count_role_upto(
                        combined@,
                        x2,
                        i as int,
                    ));
                    assert(spec_key_count_upto(keys@, counts@, x2, keys0.len() as int)
                        == spec_key_count_upto(keys0, counts0, x2, keys0.len() as int)) by {
                        lemma_key_count_agree(keys0.push(x), counts0.push(1), keys0, counts0, x2,
                            keys0.len() as int);
                    }
                }
                assert(spec_total_all_upto(counts@, counts0.len() as int) == spec_total_all_upto(
                    counts0,
                    counts0.len() as int,
                )) by {
                    lemma_total_all_agree(counts0.push(1), counts0, counts0.len() as int);
                }
            }
        }
        i = i + 1;
    }
    (keys, counts)
}

/// Two multisets that agree below `k` have the same partial group totals.
proof fn lemma_total_group_agree(
    keys1: Seq<Role>,
    counts1: Seq<usize>,
    keys2: Seq<Role>,
    counts2: Seq<usize>,
    g: Group,
    k: int,
)
    requires
        forall|j: int| 0 <= j < k ==> keys1[j] == keys2[j] && counts1[j] == counts2[j],
    ensures
        spec_total_group_upto(keys1, counts1, g, k) == spec_total_group_upto(keys2, counts2, g, k),
    decreases k,
{
    if k > 0 {
        lemma_total_group_agree(keys1, counts1, keys2, counts2, g, k - 1);
    }
}

/// Two multiplicity lists that agree below `k` have the same partial sums.
proof fn lemma_total_all_agree(counts1: Seq<usize>, counts2: Seq<usize>, k: int)
    requires
        forall|j: int| 0 <= j < k ==> counts1[j] == counts2[j],
    ensures
        spec_total_all_upto(counts1, k) == spec_total_all_upto(counts2, k),
    decreases k,
{
    if k > 0 {
        lemma_total_all_agree(counts1, counts2, k - 1);
    }
}

/// The multiplicity of role `x` among the first `k` multiset entries.
pub open spec fn spec_key_count_upto(keys: Seq<Role>, counts: Seq<usize>, x: Role, k: int) -> int
    decreases k,
{
    if k <= 0 {
        0
    } else {
        spec_key_count_upto(keys, counts, x, k - 1) + if keys[k - 1] == x {
            counts[k - 1] as int
        } else {
            0int
        }
    }
}

/// The multiplicity of role `x` in a role multiset.
pub open spec fn spec_key_count(keys: Seq<Role>, counts: Seq<usize>, x: Role) -> int {
    spec_key_count_upto(keys, counts, x, keys.len() as int)
}

/// An exhausted multiset holds no role at all.
proof fn lemma_total_all_zero_key(keys: Seq<Role>, counts: Seq<usize>, x: Role, k: int)
    requires
        spec_total_all_upto(counts, k) == 0,
    ensures
        spec_key_count_upto(keys, counts, x, k) == 0,
    decreases k,
{
    if k > 0 {
        lemma_total_all_nonneg(counts, k - 1);
        lemma_total_all_zero_key(keys, counts, x, k - 1);
    }
}

/// Changing one multiplicity shifts that entry's key count by the
/// difference and no other role's.
proof fn lemma_key_count_update(
    keys: Seq<Role>,
    counts: Seq<usize>,
    x: Role,
    j: int,
    v: usize,
    k: int,
)
    requires
        0 <= j < counts.len(),
        k <= counts.len(),
    ensures
        spec_key_count_upto(keys, counts.update(j, v), x, k) == spec_key_count_upto(
            keys,
            counts,
            x,
            k,
        ) + if j < k && keys[j] == x {
            v - counts[j]
        } else {
            0int
        },
    decreases k,
{
    if k > 0 {
        lemma_key_count_update(keys, counts, x, j, v, k - 1);
    }
}

/// Two multisets that agree below `k` have the same partial key counts.
proof fn lemma_key_count_agree(
    keys1: Seq<Role>,
    counts1: Seq<usize>,
    keys2: Seq<Role>,
    counts2: Seq<usize>,
    x: Role,
    k: int,
)
    requires
        forall|j: int| 0 <= j < k ==> keys1[j] == keys2[j] && counts1[j] == counts2[j],
    ensures
        spec_key_count_upto(keys1, counts1, x, k) == spec_key_count_upto(keys2, counts2, x, k),
    decreases k,
{
    if k > 0 {
        lemma_key_count_agree(keys1, counts1, keys2, counts2, x, k - 1);
    }
}

/// A positive key count points at an entry with that key and a positive
/// multiplicity.
proof fn lemma_key_count_pos_entry(keys: Seq<Role>, counts: Seq<usize>, x: Role, k: int)
    requires
        spec_key_count_upto(keys, counts, x, k) > 0,
        k <= keys.len(),
    ensures
        exists|j: int| 0 <= j < k && keys[j] == x && counts[j] > 0,
    decreases k,
{
    if k > 0 {
        if keys[k - 1] == x && counts[k - 1] > 0 {
        } else {
            lemma_key_count_pos_entry(keys, counts, x, k - 1);
        }
    }
}

/// The seat of the first Counsellor at or after `k`; the table size when
/// there is none.
pub open spec fn spec_first_counsellor_from(s: Seq<Role>, k: int) -> int
    decreases s.len() - k,
{
    if k < 0 || k >= s.len() {
        s.len() as int
    } else if s[k] == Role::Counsellor {
        k
    } else {
        spec_first_counsellor_from(s, k + 1)
    }
}

/// The Counsellor adjacency rule on a full seating: a seated Counsellor
/// (judged at its first seat) must have an Outcast-group direct neighbour.
pub open spec fn spec_counsellor_ok(s: Seq<Role>) -> bool {
    s.contains(Role::Counsellor) ==> {
        let p = spec_first_counsellor_from(s, 0);
        let n = s.len() as int;
        let left = if p == 0 {
            n - 1
        } else {
            p - 1
        };
        let right = if p == n - 1 {
            0int
        } else {
            p + 1
        };
        s[left].spec_group() == Group::Outcast || s[right].spec_group() == Group::Outcast
    }
}

/// Whether a seating passes the Counsellor adjacency rule: a seated
/// Counsellor must have an Outcast-group direct neighbour.
fn counsellor_placement_ok(current: &Vec<Role>) -> (r: bool)
    requires
        current@.len() >= 1,
    ensures
        r == spec_counsellor_ok(current@),
{
    let len = current.len();
    let mut pos: usize = 0;
    let mut found = false;
    while pos < len && !found
        invariant
            pos <= len,
            len == current@.len(),
            !found ==> forall|j: int| 0 <= j < pos ==> current@[j] != Role::Counsellor,
            !found ==> spec_first_counsellor_from(current@, 0) == spec_first_counsellor_from(
                current@,
                pos as int,
            ),
            found ==> pos < len && current@[pos as int] == Role::Counsellor
                && spec_first_counsellor_from(current@, 0) == pos,
        decreases len - pos, (if found { 0int } else { 1int }),
    {
        if current[pos] == Role::Counsellor {
            found = true;
        } else {
            pos = pos + 1;
        }
    }
    if !found {
        proof {
            if current@.contains(Role::Counsellor) {
                let j = choose|j: int| 0 <= j < current@.len() && current@[j] == Role::Counsellor;
                assert(false);
            }
        }
        return true;
    }
    proof {
        assert(current@.contains(Role::Counsellor)) by {
            assert(current@[pos as int] == Role::Counsellor);
        }
    }
    let left_pos = if pos == 0 {
        len - 1
    } else {
        pos - 1
    };
    let right_pos = if pos == len - 1 {
        0
    } else {
        pos + 1
    };
    current[left_pos].group() == Group::Outcast || current[right_pos].group() == Group::Outcast
}

/// The seatings the enumeration emits from a given prefix: when the table
/// is full, the seating itself if it passes the Counsellor rule; otherwise
/// the seatings reached by taking each key with multiplicity left, in key
/// order. Each seating appears exactly once.
pub open spec fn spec_permute(keys: Seq<Role>, counts: Seq<usize>, current: Seq<Role>, n: int) -> Seq<
    Seq<Role>,
>
    decreases n - current.len(), keys.len() + 1,
{
    if current.len() >= n {
        if spec_counsellor_ok(current) {
            seq![current]
        } else {
            Seq::empty()
        }
    } else {
        spec_permute_keys(keys, counts, current, n, keys.len() as int)
    }
}

/// The seatings contributed by the first `ki` keys at one search level.
pub open spec fn spec_permute_keys(
    keys: Seq<Role>,
    counts: Seq<usize>,
    current: Seq<Role>,
    n: int,
    ki: int,
) -> Seq<Seq<Role>>
    decreases n - current.len(), ki,
{
    if ki <= 0 || current.len() >= n {
        Seq::empty()
    } else {
        spec_permute_keys(keys, counts, current, n, ki - 1) + if counts[ki - 1] > 0 {
            spec_permute(
                keys,
                counts.update(ki - 1, (counts[ki - 1] - 1) as usize),
                current.push(keys[ki - 1]),
                n,
            )
        } else {
            Seq::empty()
        }
    }
}

/// Every emitted seating extends the prefix it was reached from.
proof fn lemma_permute_shape(keys: Seq<Role>, counts: Seq<usize>, current: Seq<Role>, n: int)
    ensures
        forall|c: int|
            0 <= c < spec_permute(keys, counts, current, n).len() ==> (#[trigger] spec_permute(
                keys,
                counts,
                current,
                n,
            )[c]).len() >= current.len() && spec_permute(keys, counts, current, n)[c].take(
                current.len() as int,
            ) == current,
    decreases n - current.len(), keys.len() + 1,
{
    if current.len() >= n {
        if spec_counsellor_ok(current) {
            assert(current.take(current.len() as int) =~= current);
        }
    } else {
        lemma_walker_shape(keys, counts, current, n, keys.len() as int);
        let p = spec_permute(keys, counts, current, n);
        let w = spec_permute_keys(keys, counts, current, n, keys.len() as int);
        assert forall|c: int|
            0 <= c < p.len() implies (#[trigger] p[c]).len() >= current.len() && p[c].take(
            current.len() as int,
        ) == current by {
            assert(p[c] == w[c]);
            assert(w[c] == w[c]);
        }
    }
}

/// Every seating a walker level emits extends the prefix by one of the
/// first `ki` keys.
proof fn lemma_walker_shape(
    keys: Seq<Role>,
    counts: Seq<usize>,
    current: Seq<Role>,
    n: int,
    ki: int,
)
    requires
        ki <= keys.len(),
    ensures
        forall|c: int|
            0 <= c < spec_permute_keys(keys, counts, current, n, ki).len() ==> (
            #[trigger] spec_permute_keys(keys, counts, current, n, ki)[c]).len() > current.len()
                && spec_permute_keys(keys, counts, current, n, ki)[c].take(current.len() as int)
                == current && (exists|j: int|
                0 <= j < ki && spec_permute_keys(keys, counts, current, n, ki)[c][current.len() as int]
                    == keys[j]),
    decreases n - current.len(), ki,
{
    if ki <= 0 || current.len() >= n {
    } else {
        lemma_walker_shape(keys, counts, current, n, ki - 1);
        let prev = spec_permute_keys(keys, counts, current, n, ki - 1);
        let cur = spec_permute_keys(keys, counts, current, n, ki);
        if counts[ki - 1] > 0 {
            let pushed = current.push(keys[ki - 1]);
            let sub = spec_permute(
                keys,
                counts.update(ki - 1, (counts[ki - 1] - 1) as usize),
                pushed,
                n,
            );
            lemma_permute_shape(
                keys,
                counts.update(ki - 1, (counts[ki - 1] - 1) as usize),
                pushed,
                n,
            );
            assert forall|c: int|
                0 <= c < cur.len() implies (#[trigger] cur[c]).len() > current.len() && cur[c].take(
                current.len() as int,
            ) == current && (exists|j: int|
                0 <= j < ki && cur[c][current.len() as int] == keys[j]) by {
                if c < prev.len() {
                    assert(cur[c] == prev[c]);
                    assert(prev[c] == prev[c]);
                } else {
                    let e = sub[c - prev.len()];
                    assert(cur[c] == e);
                    assert(e.take(pushed.len() as int) == pushed);
                    assert(e.take(current.len() as int) =~= current) by {
                        assert forall|q: int|
                            0 <= q < current.len() implies e.take(current.len() as int)[q]
                            == current[q] by {
                            assert(e.take(pushed.len() as int)[q] == e[q]);
                            assert(pushed[q] == current[q]);
                        }
                    }
                    assert(e[current.len() as int] == e.take(pushed.len() as int)[current.len() as int]);
                    assert(e[current.len() as int] == keys[ki - 1]);
                }
            }
        } else {
            assert(cur =~= prev);
            assert forall|c: int|
                0 <= c < cur.len() implies (#[trigger] cur[c]).len() > current.len() && cur[c].take(
                current.len() as int,
            ) == current && (exists|j: int|
                0 <= j < ki && cur[c][current.len() as int] == keys[j]) by {
                assert(cur[c] == prev[c]);
                assert(prev[c] == prev[c]);
            }
        }
    }
}

/// With pairwise-distinct keys the enumeration lists each seating at most
/// once.
pub proof fn lemma_permute_distinct(keys: Seq<Role>, counts: Seq<usize>, current: Seq<Role>, n: int)
    requires
        forall|i: int, j: int| 0 <= i < j < keys.len() ==> keys[i] != keys[j],
    ensures
        forall|c1: int, c2: int|
            0 <= c1 < c2 < spec_permute(keys, counts, current, n).len() ==> spec_permute(
                keys,
                counts,
                current,
                n,
            )[c1] != spec_permute(keys, counts, current, n)[c2],
    decreases n - current.len(), keys.len() + 1,
{
    if current.len() >= n {
    } else {
        lemma_walker_distinct(keys, counts, current, n, keys.len() as int);
        let p = spec_permute(keys, counts, current, n);
        let w = spec_permute_keys(keys, counts, current, n, keys.len() as int);
        assert forall|c1: int, c2: int| 0 <= c1 < c2 < p.len() implies p[c1] != p[c2] by {
            assert(p[c1] == w[c1] && p[c2] == w[c2]);
            assert(w[c1] != w[c2]);
        }
    }
}

/// Pairwise distinctness at one walker level: seatings reached through
/// different keys differ at the first open seat, and seatings reached
/// through the same key differ further in.
proof fn lemma_walker_distinct(
    keys: Seq<Role>,
    counts: Seq<usize>,
    current: Seq<Role>,
    n: int,
    ki: int,
)
    requires
        ki <= keys.len(),
        forall|i: int, j: int| 0 <= i < j < keys.len() ==> keys[i] != keys[j],
    ensures
        forall|c1: int, c2: int|
            0 <= c1 < c2 < spec_permute_keys(keys, counts, current, n, ki).len()
                ==> spec_permute_keys(keys, counts, current, n, ki)[c1] != spec_permute_keys(
                keys,
                counts,
                current,
                n,
                ki,
            )[c2],
    decreases n - current.len(), ki,
{
    if ki <= 0 || current.len() >= n {
    } else {
        lemma_walker_distinct(keys, counts, current, n, ki - 1);
        lemma_walker_shape(keys, counts, current, n, ki - 1);
        let prev = spec_permute_keys(keys, counts, current, n, ki - 1);
        let cur = spec_permute_keys(keys, counts, current, n, ki);
        if counts[ki - 1] > 0 {
            let pushed = current.push(keys[ki - 1]);
            let nc = counts.update(ki - 1, (counts[ki - 1] - 1) as usize);
            let sub = spec_permute(keys, nc, pushed, n);
            lemma_permute_distinct(keys, nc, pushed, n);
            lemma_permute_shape(keys, nc, pushed, n);
            assert forall|c1: int, c2: int|
                0 <= c1 < c2 < cur.len() implies cur[c1] != cur[c2] by {
                if c2 < prev.len() {
                    assert(cur[c1] == prev[c1] && cur[c2] == prev[c2]);
                } else if c1 >= prev.len() {
                    assert(cur[c1] == sub[c1 - prev.len()] && cur[c2] == sub[c2 - prev.len()]);
                } else {
                    // one seating comes through an earlier key, the other
                    // through this one: they differ at the first open seat
                    let e1 = prev[c1];
                    let e2 = sub[c2 - prev.len()];
                    assert(cur[c1] == e1 && cur[c2] == e2);
                    let j = choose|j: int|
                        0 <= j < ki - 1 && e1[current.len() as int] == keys[j];
                    assert(e2.take(pushed.len() as int) == pushed);
                    assert(e2[current.len() as int] == e2.take(pushed.len() as int)[current.len() as int]);
                    assert(e2[current.len() as int] == keys[ki - 1]);
                    assert(keys[j] != keys[ki - 1]);
                    assert(e1[current.len() as int] != e2[current.len() as int]);
                }
            }
        } else {
            assert(cur =~= prev);
            assert forall|c1: int, c2: int|
                0 <= c1 < c2 < cur.len() implies cur[c1] != cur[c2] by {
                assert(cur[c1] == prev[c1] && cur[c2] == prev[c2]);
            }
        }
    }
}

/// Enumerates the seatings of a role multiset across the remaining seats,
/// appending each complete seating that passes the Counsellor adjacency
/// rule to `out`: every appended seating extends the prefix with exactly
/// the multiset, and every such seating that passes the rule is appended.
pub fn permute_multiset(
    keys: &Vec<Role>,
    counts: &mut Vec<usize>,
    current: &mut Vec<Role>,
    n: usize,
    out: &mut Vec<Vec<Role>>,
)
    requires
        old(counts)@.len() == keys@.len(),
        old(current)@.len() <= n,
        old(current)@.len() + spec_total_all(old(counts)@) == n,
    ensures
        final(counts)@ == old(counts)@,
        final(current)@ == old(current)@,
        view_role_lists(final(out)@) == view_role_lists(old(out)@) + spec_permute(
            keys@,
            old(counts)@,
            old(current)@,
            n as int,
        ),
        (forall|i: int, j: int| 0 <= i < j < keys@.len() ==> keys@[i] != keys@[j]) ==> (forall|
            c1: int,
            c2: int,
        |
            old(out)@.len() <= c1 < c2 < final(out)@.len() ==> (#[trigger] final(out)@[c1])@ != (
            #[trigger] final(out)@[c2])@),
        old(out)@.len() <= final(out)@.len(),
        forall|c: int| 0 <= c < old(out)@.len() ==> final(out)@[c] == old(out)@[c],
        forall|c: int|
            old(out)@.len() <= c < final(out)@.len() ==> (#[trigger] final(out)@[c])@.len() == n
                && spec_counsellor_ok(final(out)@[c]@) && (forall|g: Group|
                spec_count_group(final(out)@[c]@, g) == spec_count_group(old(current)@, g)
                    + spec_total_group(keys@, old(counts)@, g)) && (forall|x: Role|
                spec_count_role(final(out)@[c]@, x) == spec_count_role(old(current)@, x)
                    + spec_key_count(keys@, old(counts)@, x)),
        forall|s: Seq<Role>|
            s.len() == n as int && s.take(old(current)@.len() as int) == old(current)@ && (forall|
                x: Role,
            |
                spec_count_role(s.skip(old(current)@.len() as int), x) == spec_key_count(
                    keys@,
                    old(counts)@,
                    x,
                )) && #[trigger] spec_counsellor_ok(s) ==> exists|c: int|
                0 <= c < final(out)@.len() && (#[trigger] final(out)@[c])@ == s,
        (old(current)@.len() == n && !old(current)@.contains(Role::Counsellor)) ==> final(out)@.len()
            == old(out)@.len() + 1 && final(out)@[old(out)@.len() as int]@ == old(current)@,
    decreases n - old(current)@.len(),
{
    let ghost counts0 = counts@;
    let ghost current0 = current@;
    let ghost out0 = out@;
    let ghost len0 = current@.len() as int;
    if current.len() == n {
        proof {
            lemma_total_all_nonneg(counts@, counts@.len() as int);
        }
        let emit = if n == 0 {
            true
        } else {
            counsellor_placement_ok(current)
        };
        proof {
            assert(emit == spec_counsellor_ok(current0));
        }
        if emit {
            let copied = copy_roles(current);
            let ghost cv = copied;
            out.push(copied);
            proof {
                lemma_view_role_lists_push(out0, cv);
                assert(view_role_lists(out@) =~= view_role_lists(out0) + spec_permute(
                    keys@,
                    counts0,
                    current0,
                    n as int,
                ));
                assert forall|g: Group|
                    spec_count_group(current0, g) == spec_count_group(current0, g)
                        + spec_total_group(keys@, counts0, g) by {
                    lemma_total_all_zero_group(keys@, counts0, g, keys@.len() as int);
                }
                assert forall|x: Role|
                    spec_count_role(current0, x) == spec_count_role(current0, x) + spec_key_count(
                        keys@,
                        counts0,
                        x,
                    ) by {
                    lemma_total_all_zero_key(keys@, counts0, x, keys@.len() as int);
                }
                assert forall|s: Seq<Role>|
                    s.len() == n as int && s.take(len0) == current0 && (forall|x: Role|
                        spec_count_role(s.skip(len0), x) == spec_key_count(keys@, counts0, x))
                        && #[trigger] spec_counsellor_ok(s) implies exists|c: int|
                    0 <= c < out@.len() && (#[trigger] out@[c])@ == s by {
                    assert(s.take(len0) =~= s);
                    assert(out@[out0.len() as int]@ == s);
                }
            }
        } else {
            proof {
                assert(view_role_lists(out@) =~= view_role_lists(out0) + spec_permute(
                    keys@,
                    counts0,
                    current0,
                    n as int,
                ));
                assert forall|s: Seq<Role>|
                    s.len() == n as int && s.take(len0) == current0 && (forall|x: Role|
                        spec_count_role(s.skip(len0), x) == spec_key_count(keys@, counts0, x))
                        && #[trigger] spec_counsellor_ok(s) implies exists|c: int|
                    0 <= c < out@.len() && (#[trigger] out@[c])@ == s by {
                    assert(s.take(len0) =~= s);
                    assert(s == current0);
                    assert(false);
                }
            }
        }
        return ;
    }
    let mut ki: usize = 0;
    while ki < keys.len()
        invariant
            ki <= keys@.len(),
            counts@.len() == keys@.len(),
            counts@ == counts0,
            current@ == current0,
            counts0 == old(counts)@,
            current0 == old(current)@,
            out0 == old(out)@,
            len0 == current0.len() as int,
            current0.len() < n,
            current0.len() + spec_total_all(counts0) == n,
            out0.len() <= out@.len(),
            view_role_lists(out@) =~= view_role_lists(out0) + spec_permute_keys(
                keys@,
                counts0,
                current0,
                n as int,
                ki as int,
            ),
            forall|c: int| 0 <= c < out0.len() ==> out@[c] == out0[c],
            forall|c: int|
                out0.len() <= c < out@.len() ==> (#[trigger] out@[c])@.len() == n
                    && spec_counsellor_ok(out@[c]@) && (forall|g: Group|
                    spec_count_group(out@[c]@, g) == spec_count_group(current0, g)
                        + spec_total_group(keys@, counts0, g)) && (forall|x: Role|
                    spec_count_role(out@[c]@, x) == spec_count_role(current0, x) + spec_key_count(
                        keys@,
                        counts0,
                        x,
                    )),
            forall|s: Seq<Role>|
                s.len() == n as int && s.take(len0) == current0 && (forall|x: Role|
                    spec_count_role(s.skip(len0), x) == spec_key_count(keys@, counts0, x)) && (
                exists|j: int| 0 <= j < ki && keys@[j] == s[len0] && counts0[j] > 0)
                    && #[trigger] spec_counsellor_ok(s) ==> exists|c: int|
                    0 <= c < out@.len() && (#[trigger] out@[c])@ == s,
        decreases keys@.len() - ki,
    {
        let cnt = counts[ki];
        if cnt > 0 {
            counts.set(ki, cnt - 1);
            current.push(keys[ki]);
            proof {
                lemma_total_all_update(counts0, ki as int, (cnt - 1) as usize,
                    counts0.len() as int);
            }
            let ghost out_before = out@;
            permute_multiset(keys, counts, current, n, out);
            proof {
                assert forall|c: int|
                    out_before.len() <= c < out@.len() implies (#[trigger] out@[c])@.len() == n
                    && spec_counsellor_ok(out@[c]@) && (forall|g: Group|
                    spec_count_group(out@[c]@, g) == spec_count_group(current0, g)
                        + spec_total_group(keys@, counts0, g)) && (forall|x: Role|
                    spec_count_role(out@[c]@, x) == spec_count_role(current0, x) + spec_key_count(
                        keys@,
                        counts0,
                        x,
                    )) by {
                    assert(out@[c]@.len() == n);
                    assert forall|g: Group|
                        spec_count_group(out@[c]@, g) == spec_count_group(current0, g)
                            + spec_total_group(keys@, counts0, g) by {
                        lemma_count_group_push(current0, keys@[ki as int], g);
                        lemma_total_group_update(keys@, counts0, g, ki as int, (cnt - 1) as usize,
                            counts0.len() as int);
                    }
                    assert forall|x: Role|
                        spec_count_role(out@[c]@, x) == spec_count_role(current0, x)
                            + spec_key_count(keys@, counts0, x) by {
                        lemma_count_role_push(current0, keys@[ki as int], x);
                        lemma_key_count_update(keys@, counts0, x, ki as int, (cnt - 1) as usize,
                            counts0.len() as int);
                    }
                }
                assert forall|s: Seq<Role>|
                    s.len() == n as int && s.take(len0) == current0 && (forall|x: Role|
                        spec_count_role(s.skip(len0), x) == spec_key_count(keys@, counts0, x)) && (
                    exists|j: int| 0 <= j < ki + 1 && keys@[j] == s[len0] && counts0[j] > 0)
                        && #[trigger] spec_counsellor_ok(s) implies exists|c: int|
                    0 <= c < out@.len() && (#[trigger] out@[c])@ == s by {
                    let jw = choose|j: int|
                        0 <= j < ki + 1 && keys@[j] == s[len0] && counts0[j] > 0;
                    if jw < ki {
                        // already covered before this call; the call keeps prefixes
                        assert(exists|c: int|
                            0 <= c < out_before.len() && (#[trigger] out_before[c])@ == s);
                        let cw = choose|c: int|
                            0 <= c < out_before.len() && (#[trigger] out_before[c])@ == s;
                        assert(out@[cw] == out_before[cw]);
                    } else if keys@[ki as int] == s[len0] && counts0[ki as int] > 0 {
                        // freshly covered by the recursive call
                        assert(s.take(len0 + 1) =~= current0.push(keys@[ki as int]));
                        assert forall|x: Role| #![trigger spec_count_role(s.skip(len0 + 1), x)]
                            spec_count_role(s.skip(len0 + 1), x) == spec_key_count(
                                keys@,
                                counts0.update(ki as int, (cnt - 1) as usize),
                                x,
                            ) by {
                            assert(s.skip(len0) =~= Seq::<Role>::empty().push(s[len0]) + s.skip(
                                len0 + 1,
                            ));
                            lemma_count_role_concat(
                                Seq::<Role>::empty().push(s[len0]),
                                s.skip(len0 + 1),
                                x,
                            );
                            lemma_count_role_push(Seq::<Role>::empty(), s[len0], x);
                            assert(spec_count_role(s.skip(len0), x) == spec_key_count(
                                keys@,
                                counts0,
                                x,
                            ));
                            lemma_key_count_update(keys@, counts0, x, ki as int,
                                (cnt - 1) as usize, counts0.len() as int);
                        }
                        assert(exists|c: int|
                            0 <= c < out@.len() && (#[trigger] out@[c])@ == s);
                    } else {
                        // the chosen witness can only be this key
                        assert(jw == ki as int && keys@[jw] == s[len0] && counts0[jw] > 0);
                        assert(false);
                    }
                }
            }
            current.pop();
            counts.set(ki, cnt);
            proof {
                assert(current@ =~= current0);
                assert(counts@ =~= counts0);
                assert(view_role_lists(out_before) =~= view_role_lists(out0) + spec_permute_keys(
                    keys@,
                    counts0,
                    current0,
                    n as int,
                    ki as int,
                ));
                assert(view_role_lists(out@) =~= view_role_lists(out0) + spec_permute_keys(
                    keys@,
                    counts0,
                    current0,
                    n as int,
                    ki as int + 1,
                ));
            }
        } else {
            proof {
                assert(view_role_lists(out@) =~= view_role_lists(out0) + spec_permute_keys(
                    keys@,
                    counts0,
                    current0,
                    n as int,
                    ki as int + 1,
                ));
            }
        }
        ki = ki + 1;
    }
    proof {
        assert(view_role_lists(out@) =~= view_role_lists(out0) + spec_permute(
            keys@,
            counts0,
            current0,
            n as int,
        ));
        if forall|i: int, j: int| 0 <= i < j < keys@.len() ==> keys@[i] != keys@[j] {
            lemma_permute_distinct(keys@, counts0, current0, n as int);
            let p = spec_permute(keys@, counts0, current0, n as int);
            assert forall|c1: int, c2: int|
                out0.len() <= c1 < c2 < out@.len() implies (#[trigger] out@[c1])@ != (
            #[trigger] out@[c2])@ by {
                assert(out@[c1]@ == view_role_lists(out@)[c1]);
                assert(out@[c2]@ == view_role_lists(out@)[c2]);
                assert(view_role_lists(out@)[c1] == p[c1 - out0.len()]);
                assert(view_role_lists(out@)[c2] == p[c2 - out0.len()]);
            }
        }
    }
    proof {
        assert forall|s: Seq<Role>|
            s.len() == n as int && s.take(len0) == current0 && (forall|x: Role|
                spec_count_role(s.skip(len0), x) == spec_key_count(keys@, counts0, x))
                && #[trigger] spec_counsellor_ok(s) implies exists|c: int|
            0 <= c < out@.len() && (#[trigger] out@[c])@ == s by {
            let rest = s.skip(len0);
            assert(rest.len() > 0);
            assert(rest[0] == s[len0]);
            lemma_contains_count_role(rest, s[len0], 0, rest.len() as int);
            assert(spec_count_role(rest, s[len0]) > 0);
            assert(spec_key_count(keys@, counts0, s[len0]) > 0);
            lemma_key_count_pos_entry(keys@, counts0, s[len0], keys@.len() as int);
        }
    }
}

/// One group's pick from the deck: the requested number of roles, all of
/// the group, drawn from the deck's supply of that group.
pub open spec fn spec_group_pick(pick: Seq<Role>, deck: Seq<Role>, g: Group, quota: int) -> bool {
    pick.len() == quota && (forall|j: int|
        0 <= j < pick.len() ==> (#[trigger] pick[j]).spec_group() == g) && spec_sub_multiset(
        pick,
        spec_filter_group(deck, g),
    )
}

/// The multiset obtained by trading the Villager at slot `i` for the spare
/// Outcast role `ro`.
pub open spec fn spec_counsellor_variant(
    vc: Seq<Role>,
    oc: Seq<Role>,
    mc: Seq<Role>,
    dc: Seq<Role>,
    i: int,
    ro: Role,
) -> Seq<Role> {
    vc.update(i, ro) + oc + mc + dc
}

/// Whether `w` realises the four picks: their concatenation as a multiset,
/// except that a pick holding the Counsellor trades one Villager for an
/// Outcast role of the deck not already picked.
pub open spec fn spec_variant_of(
    deck: Seq<Role>,
    vc: Seq<Role>,
    oc: Seq<Role>,
    mc: Seq<Role>,
    dc: Seq<Role>,
    w: Seq<Role>,
) -> bool {
    if !mc.contains(Role::Counsellor) {
        spec_multiset_eq(w, vc + oc + mc + dc)
    } else {
        exists|i: int, ro: Role|
            #![trigger spec_multiset_eq(w, spec_counsellor_variant(vc, oc, mc, dc, i, ro))]
            0 <= i < vc.len() && ro.spec_group() == Group::Outcast && deck.contains(ro)
                && !oc.contains(ro) && spec_multiset_eq(
                w,
                spec_counsellor_variant(vc, oc, mc, dc, i, ro),
            )
    }
}

/// Whether `w` can be dealt at all: some pick of the four groups from the
/// deck, with the Counsellor substitution where one is picked, realises
/// `w`'s multiset.
pub open spec fn spec_admissible(
    deck: Seq<Role>,
    villagers: int,
    outcasts: int,
    minions: int,
    demons: int,
    w: Seq<Role>,
) -> bool {
    exists|vc: Seq<Role>, oc: Seq<Role>, mc: Seq<Role>, dc: Seq<Role>|
        #![trigger spec_variant_of(deck, vc, oc, mc, dc, w)]
        spec_group_pick(vc, deck, Group::Villager, villagers) && spec_group_pick(
            oc,
            deck,
            Group::Outcast,
            outcasts,
        ) && spec_group_pick(mc, deck, Group::Minion, minions) && spec_group_pick(
            dc,
            deck,
            Group::Demon,
            demons,
        ) && spec_variant_of(deck, vc, oc, mc, dc, w)
}

/// A list whose roles all belong to one group counts none of any role
/// outside it.
proof fn lemma_homogeneous_count_role_zero(s: Seq<Role>, g: Group, x: Role, k: int)
    requires
        0 <= k <= s.len(),
        forall|j: int| 0 <= j < s.len() ==> (#[trigger] s[j]).spec_group() == g,
        x.spec_group() != g,
    ensures
        spec_count_role_upto(s, x, k) == 0,
    decreases k,
{
    if k > 0 {
        lemma_homogeneous_count_role_zero(s, g, x, k - 1);
    }
}

/// Splitting a seating at `l` splits its group counts.
proof fn lemma_count_group_split(s: Seq<Role>, l: int, g: Group)
    requires
        0 <= l < s.len(),
    ensures
        spec_count_group(s, g) == spec_count_group(s.take(l), g) + (if s[l].spec_group() == g {
            1int
        } else {
            0int
        }) + spec_count_group(s.skip(l + 1), g),
{
    assert(s =~= (s.take(l) + s.skip(l)));
    assert(s.skip(l) =~= Seq::<Role>::empty().push(s[l]) + s.skip(l + 1));
    lemma_count_group_concat(s.take(l), s.skip(l), g);
    lemma_count_group_concat(Seq::<Role>::empty().push(s[l]), s.skip(l + 1), g);
    lemma_count_group_push(Seq::<Role>::empty(), s[l], g);
}

/// Removing the seat at `j` lowers its group's count by one and no other.
proof fn lemma_count_group_remove(s: Seq<Role>, j: int, g: Group)
    requires
        0 <= j < s.len(),
    ensures
        spec_count_group(s.take(j) + s.skip(j + 1), g) == spec_count_group(s, g) - if s[
            j
        ].spec_group() == g {
            1int
        } else {
            0int
        },
{
    lemma_count_group_split(s, j, g);
    lemma_count_group_concat(s.take(j), s.skip(j + 1), g);
}

/// Overwriting the seat at `i` trades one count of the old group for one of
/// the new.
proof fn lemma_count_group_update(s: Seq<Role>, i: int, y: Role, g: Group)
    requires
        0 <= i < s.len(),
    ensures
        spec_count_group(s.update(i, y), g) == spec_count_group(s, g) - (if s[i].spec_group() == g {
            1int
        } else {
            0int
        }) + (if y.spec_group() == g {
            1int
        } else {
            0int
        }),
{
    let u = s.update(i, y);
    assert(u.take(i) =~= s.take(i));
    assert(u.skip(i + 1) =~= s.skip(i + 1));
    lemma_count_group_split(s, i, g);
    lemma_count_group_split(u, i, g);
}

/// Two lists with the same role multiset have the same group counts.
proof fn lemma_multiset_eq_count_group(a: Seq<Role>, b: Seq<Role>, g: Group)
    requires
        spec_multiset_eq(a, b),
    ensures
        spec_count_group(a, g) == spec_count_group(b, g),
    decreases a.len(),
{
    if a.len() == 0 {
        if b.len() > 0 {
            lemma_contains_count_role(b, b[0], 0, b.len() as int);
            assert(spec_count_role(a, b[0]) == spec_count_role(b, b[0]));
            assert(false);
        }
    } else {
        let x = a.last();
        let a2 = a.drop_last();
        assert(a =~= a2.push(x));
        lemma_contains_count_role(a, x, a.len() as int - 1, a.len() as int);
        assert(spec_count_role(b, x) == spec_count_role(a, x));
        lemma_count_role_pos_index(b, x, b.len() as int);
        let j = choose|j: int| 0 <= j < b.len() && b[j] == x;
        let b2 = b.take(j) + b.skip(j + 1);
        assert forall|y: Role| spec_count_role(a2, y) == spec_count_role(b2, y) by {
            lemma_count_role_push(a2, x, y);
            lemma_count_role_remove(b, j, y);
            assert(spec_count_role(a, y) == spec_count_role(b, y));
        }
        assert(spec_multiset_eq(a2, b2));
        lemma_multiset_eq_count_group(a2, b2, g);
        lemma_count_group_push(a2, x, g);
        lemma_count_group_remove(b, j, g);
    }
}

/// Every world the solver's contract admits realises the quotas group by
/// group: exactly as requested, unless the world holds the Counsellor, in
/// which case one Villager was traded away for one extra Outcast.
pub proof fn lemma_admissible_group_counts(
    deck: Seq<Role>,
    villagers: int,
    outcasts: int,
    minions: int,
    demons: int,
    w: Seq<Role>,
)
    requires
        spec_admissible(deck, villagers, outcasts, minions, demons, w),
    ensures
        !w.contains(Role::Counsellor) ==> forall|g: Group|
            spec_count_group(w, g) == spec_quota(g, villagers, outcasts, minions, demons),
        w.contains(Role::Counsellor) ==> spec_count_group(w, Group::Villager) == villagers - 1
            && spec_count_group(w, Group::Outcast) == outcasts + 1 && spec_count_group(
            w,
            Group::Minion,
        ) == minions && spec_count_group(w, Group::Demon) == demons,
{
    let (vc, oc, mc, dc) = choose|vc: Seq<Role>, oc: Seq<Role>, mc: Seq<Role>, dc: Seq<Role>|
        #![trigger spec_variant_of(deck, vc, oc, mc, dc, w)]
        spec_group_pick(vc, deck, Group::Villager, villagers) && spec_group_pick(
            oc,
            deck,
            Group::Outcast,
            outcasts,
        ) && spec_group_pick(mc, deck, Group::Minion, minions) && spec_group_pick(
            dc,
            deck,
            Group::Demon,
            demons,
        ) && spec_variant_of(deck, vc, oc, mc, dc, w);
    if !mc.contains(Role::Counsellor) {
        let comb = vc + oc + mc + dc;
        lemma_multiset_eq_count_group(w, comb, Group::Villager);
        lemma_multiset_eq_count_group(w, comb, Group::Outcast);
        lemma_multiset_eq_count_group(w, comb, Group::Minion);
        lemma_multiset_eq_count_group(w, comb, Group::Demon);
        assert forall|g: Group|
            spec_count_group(w, g) == spec_quota(g, villagers, outcasts, minions, demons) by {
            lemma_multiset_eq_count_group(w, comb, g);
            lemma_count_group_concat(vc + oc + mc, dc, g);
            lemma_count_group_concat(vc + oc, mc, g);
            lemma_count_group_concat(vc, oc, g);
            lemma_count_group_homogeneous(vc, Group::Villager, g, vc.len() as int);
            lemma_count_group_homogeneous(oc, Group::Outcast, g, oc.len() as int);
            lemma_count_group_homogeneous(mc, Group::Minion, g, mc.len() as int);
            lemma_count_group_homogeneous(dc, Group::Demon, g, dc.len() as int);
        }
        // without a Counsellor in the Minion pick the world holds none
        assert(!w.contains(Role::Counsellor)) by {
            assert(spec_count_role(w, Role::Counsellor) == spec_count_role(
                comb,
                Role::Counsellor,
            ));
            lemma_count_role_concat(vc + oc + mc, dc, Role::Counsellor);
            lemma_count_role_concat(vc + oc, mc, Role::Counsellor);
            lemma_count_role_concat(vc, oc, Role::Counsellor);
            lemma_homogeneous_count_role_zero(vc, Group::Villager, Role::Counsellor,
                vc.len() as int);
            lemma_homogeneous_count_role_zero(oc, Group::Outcast, Role::Counsellor,
                oc.len() as int);
            lemma_homogeneous_count_role_zero(dc, Group::Demon, Role::Counsellor, dc.len() as int);
            lemma_contains_iff_count(mc, Role::Counsellor);
            lemma_contains_iff_count(w, Role::Counsellor);
        }
    } else {
        let (i, ro) = choose|i: int, ro: Role|
            #![trigger spec_multiset_eq(w, spec_counsellor_variant(vc, oc, mc, dc, i, ro))]
            0 <= i < vc.len() && ro.spec_group() == Group::Outcast && deck.contains(ro)
                && !oc.contains(ro) && spec_multiset_eq(
                w,
                spec_counsellor_variant(vc, oc, mc, dc, i, ro),
            );
        let vc2 = vc.update(i, ro);
        let comb = vc2 + oc + mc + dc;
        assert forall|g: Group|
            spec_count_group(w, g) == spec_count_group(vc2, g) + spec_count_group(oc, g)
                + spec_count_group(mc, g) + spec_count_group(dc, g) by {
            lemma_multiset_eq_count_group(w, comb, g);
            lemma_count_group_concat(vc2 + oc + mc, dc, g);
            lemma_count_group_concat(vc2 + oc, mc, g);
            lemma_count_group_concat(vc2, oc, g);
        }
        assert forall|g: Group|
            spec_count_group(vc2, g) == (if g == Group::Villager {
                villagers - 1
            } else if g == Group::Outcast {
                1int
            } else {
                0int
            }) by {
            lemma_count_group_update(vc, i, ro, g);
            lemma_count_group_homogeneous(vc, Group::Villager, g, vc.len() as int);
        }
        assert forall|g: Group|
            spec_count_group(oc, g) == (if g == Group::Outcast {
                outcasts
            } else {
                0int
            }) by {
            lemma_count_group_homogeneous(oc, Group::Outcast, g, oc.len() as int);
        }
        assert forall|g: Group|
            spec_count_group(mc, g) == (if g == Group::Minion {
                minions
            } else {
                0int
            }) by {
            lemma_count_group_homogeneous(mc, Group::Minion, g, mc.len() as int);
        }
        assert forall|g: Group|
            spec_count_group(dc, g) == (if g == Group::Demon {
                demons
            } else {
                0int
            }) by {
            lemma_count_group_homogeneous(dc, Group::Demon, g, dc.len() as int);
        }
        // the Counsellor really is seated: it sits in the Minion pick
        assert(w.contains(Role::Counsellor)) by {
            assert(spec_count_role(w, Role::Counsellor) == spec_count_role(
                comb,
                Role::Counsellor,
            ));
            lemma_count_role_concat(vc2 + oc + mc, dc, Role::Counsellor);
            lemma_count_role_concat(vc2 + oc, mc, Role::Counsellor);
            lemma_count_role_concat(vc2, oc, Role::Counsellor);
            lemma_count_role_nonneg(vc2, Role::Counsellor, vc2.len() as int);
            lemma_count_role_nonneg(oc, Role::Counsellor, oc.len() as int);
            lemma_count_role_nonneg(dc, Role::Counsellor, dc.len() as int);
            lemma_contains_iff_count(mc, Role::Counsellor);
            lemma_contains_iff_count(w, Role::Counsellor);
        }
    }
}

/// Every confirmed identity is matched by the seating.
pub open spec fn spec_confirmed_ok(cand: Seq<Role>, confirmed: Seq<Option<Role>>) -> bool {
    forall|i: int|
        0 <= i < cand.len() ==> ((#[trigger] confirmed[i]) matches Some(c) ==> cand[i] == c)
}

/// Checks a seating against the confirmed identities.
pub fn confirmed_roles_ok(candidate: &Vec<Role>, confirmed_roles: &Vec<Option<Role>>) -> (r: bool)
    requires
        confirmed_roles@.len() == candidate@.len(),
    ensures
        r == spec_confirmed_ok(candidate@, confirmed_roles@),
{
    let mut i: usize = 0;
    while i < candidate.len()
        invariant
            i <= candidate@.len(),
            confirmed_roles@.len() == candidate@.len(),
            forall|i2: int|
                0 <= i2 < i ==> ((#[trigger] confirmed_roles@[i2]) matches Some(c)
                    ==> candidate@[i2] == c),
        decreases candidate@.len() - i,
    {
        let ok = match confirmed_roles[i] {
            Some(c) => c == candidate[i],
            None => true,
        };
        if !ok {
            return false;
        }
        i = i + 1;
    }
    true
}

/// Whether two seatings are equal.
fn roles_equal(a: &Vec<Role>, b: &Vec<Role>) -> (r: bool)
    ensures
        r == (a@ == b@),
{
    if a.len() != b.len() {
        return false;
    }
    let mut i: usize = 0;
    while i < a.len()
        invariant
            i <= a@.len(),
            a@.len() == b@.len(),
            forall|j: int| 0 <= j < i ==> a@[j] == b@[j],
        decreases a@.len() - i,
    {
        if !(a[i] == b[i]) {
            return false;
        }
        i = i + 1;
    }
    proof {
        assert(a@ =~= b@);
    }
    true
}

/// Whether a seating already stands in the result list.
fn contains_world(res: &Vec<Vec<Role>>, cand: &Vec<Role>) -> (r: bool)
    ensures
        r == exists|k: int| 0 <= k < res@.len() && (#[trigger] res@[k])@ == cand@,
{
    let mut k: usize = 0;
    while k < res.len()
        invariant
            k <= res@.len(),
            forall|k2: int| 0 <= k2 < k ==> (#[trigger] res@[k2])@ != cand@,
        decreases res@.len() - k,
    {
        if roles_equal(&res[k], cand) {
            return true;
        }
        k = k + 1;
    }
    false
}

/// What the solver promises of each emitted world: it fills the table, it
/// matches every confirmed identity, it is consistent with the visible
/// locks and the observed statements, and — on a deck without the
/// Counsellor, whose substitution trades a Villager for an Outcast — its
/// group counts equal the requested quotas.
pub open spec fn spec_entry_ok(
    deck: Seq<Role>,
    visible: Seq<Option<Role>>,
    confirmed: Seq<Option<Role>>,
    observed: Seq<RoleStatement>,
    villagers: int,
    outcasts: int,
    minions: int,
    demons: int,
    w: Seq<Role>,
) -> bool {
    &&& w.len() == visible.len()
    &&& spec_confirmed_ok(w, confirmed)
    &&& spec_world_consistent(deck, visible, observed, w)
    &&& spec_admissible(deck, villagers, outcasts, minions, demons, w)
    &&& spec_counsellor_ok(w)
    &&& (spec_count_role(deck, Role::Counsellor) == 0 ==> forall|g: Group|
        spec_count_group(w, g) == spec_quota(g, villagers, outcasts, minions, demons))
}

/// What the solver promises of its whole result: every entry is a sound
/// world, and no seating is listed twice.
pub open spec fn spec_results_wf(
    deck: Seq<Role>,
    visible: Seq<Option<Role>>,
    confirmed: Seq<Option<Role>>,
    observed: Seq<RoleStatement>,
    villagers: int,
    outcasts: int,
    minions: int,
    demons: int,
    res: Seq<Vec<Role>>,
) -> bool {
    &&& forall|k: int|
        0 <= k < res.len() ==> spec_entry_ok(
            deck,
            visible,
            confirmed,
            observed,
            villagers,
            outcasts,
            minions,
            demons,
            (#[trigger] res[k])@,
        )
    &&& forall|k1: int, k2: int| 0 <= k1 < k2 < res.len() ==> res[k1]@ != res[k2]@
}

/// Tests one candidate seating against the confirmed identities and the
/// full consistency search, and appends it to the results when it passes
/// and is not already listed.
#[verifier::rlimit(60)]
fn consider_candidate(
    candidate: &Vec<Role>,
    deck: &Vec<Role>,
    visible_roles: &Vec<Option<Role>>,
    confirmed_roles: &Vec<Option<Role>>,
    observed_statements: &Vec<RoleStatement>,
    villagers: usize,
    outcasts: usize,
    minions: usize,
    demons: usize,
    result: &mut Vec<Vec<Role>>,
)
    requires
        candidate@.len() == visible_roles@.len(),
        confirmed_roles@.len() == visible_roles@.len(),
        observed_statements@.len() == visible_roles@.len(),
        visible_roles@.len() < usize::MAX,
        forall|i: int|
            0 <= i < observed_statements@.len() ==> spec_stmt_wf(
                #[trigger] observed_statements@[i],
                visible_roles@.len() as int,
            ),
        spec_count_role(deck@, Role::Counsellor) == 0 ==> (forall|g: Group|
            spec_count_group(candidate@, g) == spec_quota(
                g,
                villagers as int,
                outcasts as int,
                minions as int,
                demons as int,
            )),
        spec_admissible(
            deck@,
            villagers as int,
            outcasts as int,
            minions as int,
            demons as int,
            candidate@,
        ),
        spec_counsellor_ok(candidate@),
        spec_results_wf(
            deck@,
            visible_roles@,
            confirmed_roles@,
            observed_statements@,
            villagers as int,
            outcasts as int,
            minions as int,
            demons as int,
            old(result)@,
        ),
    ensures
        spec_results_wf(
            deck@,
            visible_roles@,
            confirmed_roles@,
            observed_statements@,
            villagers as int,
            outcasts as int,
            minions as int,
            demons as int,
            final(result)@,
        ),
        old(result)@.len() <= final(result)@.len(),
        forall|c: int| 0 <= c < old(result)@.len() ==> final(result)@[c] == old(result)@[c],
        (spec_confirmed_ok(candidate@, confirmed_roles@) && spec_world_consistent(
            deck@,
            visible_roles@,
            observed_statements@,
            candidate@,
        )) ==> exists|k: int|
            0 <= k < final(result)@.len() && (#[trigger] final(result)@[k])@ == candidate@,
{
    if !confirmed_roles_ok(candidate, confirmed_roles) {
        return ;
    }
    let choices = build_choices(candidate, deck);
    let wretch_choices = choices.0;
    let disguise_choices = choices.1;
    proof {
        assert(view_role_lists(wretch_choices@).len() == wretch_choices@.len());
        assert(view_role_lists(disguise_choices@).len() == disguise_choices@.len());
    }
    let mut wretch_assign: Vec<Role> = Vec::new();
    let mut disguise_assign: Vec<Role> = Vec::new();
    let found = dfs_check(
        candidate,
        &wretch_choices,
        &disguise_choices,
        visible_roles,
        observed_statements,
        0,
        &mut wretch_assign,
        &mut disguise_assign,
    );
    if found {
        proof {
            assert(spec_world_consistent(
                deck@,
                visible_roles@,
                observed_statements@,
                candidate@,
            ));
        }
        if !contains_world(result, candidate) {
            let copied = copy_roles(candidate);
            result.push(copied);
            proof {
                assert(spec_entry_ok(
                    deck@,
                    visible_roles@,
                    confirmed_roles@,
                    observed_statements@,
                    villagers as int,
                    outcasts as int,
                    minions as int,
                    demons as int,
                    candidate@,
                ));
                assert(result@[result@.len() - 1]@ == candidate@);
            }
        }
    }
}

/// Seats one candidate role multiset in every order and tests each
/// seating; every seating of the multiset that passes the Counsellor rule,
/// the confirmed identities and the consistency search ends up in the
/// results.
fn process_combined(
    combined: &Vec<Role>,
    deck: &Vec<Role>,
    visible_roles: &Vec<Option<Role>>,
    confirmed_roles: &Vec<Option<Role>>,
    observed_statements: &Vec<RoleStatement>,
    villagers: usize,
    outcasts: usize,
    minions: usize,
    demons: usize,
    result: &mut Vec<Vec<Role>>,
)
    requires
        combined@.len() == visible_roles@.len(),
        confirmed_roles@.len() == visible_roles@.len(),
        observed_statements@.len() == visible_roles@.len(),
        visible_roles@.len() < usize::MAX,
        forall|i: int|
            0 <= i < observed_statements@.len() ==> spec_stmt_wf(
                #[trigger] observed_statements@[i],
                visible_roles@.len() as int,
            ),
        spec_count_role(deck@, Role::Counsellor) == 0 ==> (forall|g: Group|
            spec_count_group(combined@, g) == spec_quota(
                g,
                villagers as int,
                outcasts as int,
                minions as int,
                demons as int,
            )),
        forall|s: Seq<Role>|
            #[trigger] spec_multiset_eq(s, combined@) ==> spec_admissible(
                deck@,
                villagers as int,
                outcasts as int,
                minions as int,
                demons as int,
                s,
            ),
        spec_results_wf(
            deck@,
            visible_roles@,
            confirmed_roles@,
            observed_statements@,
            villagers as int,
            outcasts as int,
            minions as int,
            demons as int,
            old(result)@,
        ),
    ensures
        spec_results_wf(
            deck@,
            visible_roles@,
            confirmed_roles@,
            observed_statements@,
            villagers as int,
            outcasts as int,
            minions as int,
            demons as int,
            final(result)@,
        ),
        old(result)@.len() <= final(result)@.len(),
        forall|c: int| 0 <= c < old(result)@.len() ==> final(result)@[c] == old(result)@[c],
        forall|s: Seq<Role>|
            s.len() == combined@.len() && #[trigger] spec_multiset_eq(s, combined@)
                && spec_counsellor_ok(s) && spec_confirmed_ok(s, confirmed_roles@)
                && spec_world_consistent(deck@, visible_roles@, observed_statements@, s)
                ==> exists|k: int|
                0 <= k < final(result)@.len() && (#[trigger] final(result)@[k])@ == s,
{
    let n = combined.len();
    let counts_pair = build_counts(combined);
    let keys = counts_pair.0;
    let mut counts = counts_pair.1;
    let mut current: Vec<Role> = Vec::new();
    let mut perms: Vec<Vec<Role>> = Vec::new();
    permute_multiset(&keys, &mut counts, &mut current, n, &mut perms);
    proof {
        assert forall|p: int|
            0 <= p < perms@.len() implies (#[trigger] perms@[p])@.len() == n
            && spec_multiset_eq(perms@[p]@, combined@) && spec_counsellor_ok(perms@[p]@)
            && spec_admissible(
            deck@,
            villagers as int,
            outcasts as int,
            minions as int,
            demons as int,
            perms@[p]@,
        ) && (spec_count_role(deck@, Role::Counsellor) == 0 ==> forall|g: Group|
            spec_count_group(perms@[p]@, g) == spec_quota(
                g,
                villagers as int,
                outcasts as int,
                minions as int,
                demons as int,
            )) by {
            assert forall|x: Role|
                spec_count_role(perms@[p]@, x) == spec_count_role(combined@, x) by {
                assert(spec_count_role(perms@[p]@, x) == spec_count_role(Seq::<Role>::empty(), x)
                    + spec_key_count(keys@, counts_pair.1@, x));
            }
            assert(spec_multiset_eq(perms@[p]@, combined@));
            if spec_count_role(deck@, Role::Counsellor) == 0 {
                assert forall|g: Group|
                    spec_count_group(perms@[p]@, g) == spec_quota(
                        g,
                        villagers as int,
                        outcasts as int,
                        minions as int,
                        demons as int,
                    ) by {
                    assert(spec_count_group(perms@[p]@, g) == spec_count_group(
                        Seq::<Role>::empty(),
                        g,
                    ) + spec_total_group(keys@, counts_pair.1@, g));
                    assert(spec_total_group(keys@, counts_pair.1@, g) == spec_count_group(
                        combined@,
                        g,
                    ));
                }
            }
        }
        // every qualifying seating of the multiset is among the seatings
        assert forall|s: Seq<Role>|
            s.len() == n as int && spec_multiset_eq(s, combined@)
                && #[trigger] spec_counsellor_ok(s) implies exists|c: int|
            0 <= c < perms@.len() && (#[trigger] perms@[c])@ == s by {
            assert(s.take(0) =~= Seq::<Role>::empty());
            assert(s.skip(0) =~= s);
            assert forall|x: Role|
                spec_count_role(s.skip(0), x) == spec_key_count(keys@, counts_pair.1@, x) by {
                assert(spec_count_role(s, x) == spec_count_role(combined@, x));
            }
        }
    }
    let ghost result0 = result@;
    let mut pi: usize = 0;
    while pi < perms.len()
        invariant
            pi <= perms@.len(),
            combined@.len() == visible_roles@.len(),
            confirmed_roles@.len() == visible_roles@.len(),
            observed_statements@.len() == visible_roles@.len(),
            visible_roles@.len() < usize::MAX,
            n == combined@.len(),
            result0 == old(result)@,
            result0.len() <= result@.len(),
            forall|c: int| 0 <= c < result0.len() ==> result@[c] == result0[c],
            forall|i: int|
                0 <= i < observed_statements@.len() ==> spec_stmt_wf(
                    #[trigger] observed_statements@[i],
                    visible_roles@.len() as int,
                ),
            forall|p: int|
                0 <= p < perms@.len() ==> (#[trigger] perms@[p])@.len() == n && spec_admissible(
                    deck@,
                    villagers as int,
                    outcasts as int,
                    minions as int,
                    demons as int,
                    perms@[p]@,
                ) && spec_counsellor_ok(perms@[p]@) && (spec_count_role(deck@, Role::Counsellor)
                    == 0 ==> forall|g: Group|
                    spec_count_group(perms@[p]@, g) == spec_quota(
                        g,
                        villagers as int,
                        outcasts as int,
                        minions as int,
                        demons as int,
                    )),
            forall|s: Seq<Role>|
                s.len() == n as int && spec_multiset_eq(s, combined@)
                    && #[trigger] spec_counsellor_ok(s) ==> exists|c: int|
                    0 <= c < perms@.len() && (#[trigger] perms@[c])@ == s,
            spec_results_wf(
                deck@,
                visible_roles@,
                confirmed_roles@,
                observed_statements@,
                villagers as int,
                outcasts as int,
                minions as int,
                demons as int,
                result@,
            ),
            forall|c: int|
                0 <= c < pi && spec_confirmed_ok((#[trigger] perms@[c])@, confirmed_roles@)
                    && spec_world_consistent(
                    deck@,
                    visible_roles@,
                    observed_statements@,
                    perms@[c]@,
                ) ==> exists|k: int| 0 <= k < result@.len() && (#[trigger] result@[k])@
                    == perms@[c]@,
        decreases perms@.len() - pi,
    {
        let ghost result_before = result@;
        consider_candidate(
            &perms[pi],
            deck,
            visible_roles,
            confirmed_roles,
            observed_statements,
            villagers,
            outcasts,
            minions,
            demons,
            result,
        );
        proof {
            assert forall|c: int|
                0 <= c < pi + 1 && spec_confirmed_ok((#[trigger] perms@[c])@, confirmed_roles@)
                    && spec_world_consistent(
                    deck@,
                    visible_roles@,
                    observed_statements@,
                    perms@[c]@,
                ) implies exists|k: int|
                0 <= k < result@.len() && (#[trigger] result@[k])@ == perms@[c]@ by {
                if c < pi {
                    let kw = choose|k: int|
                        0 <= k < result_before.len() && (#[trigger] result_before[k])@
                            == perms@[c]@;
                    assert(result@[kw] == result_before[kw]);
                }
            }
        }
        pi = pi + 1;
    }
    proof {
        assert forall|s: Seq<Role>|
            s.len() == combined@.len() && #[trigger] spec_multiset_eq(s, combined@)
                && spec_counsellor_ok(s) && spec_confirmed_ok(s, confirmed_roles@)
                && spec_world_consistent(deck@, visible_roles@, observed_statements@, s) implies
            exists|k: int| 0 <= k < result@.len() && (#[trigger] result@[k])@ == s by {
            let cw = choose|c: int| 0 <= c < perms@.len() && (#[trigger] perms@[c])@ == s;
        }
    }
}

/// Whether a result is listed for a world.
pub open spec fn spec_covered(res: Seq<Vec<Role>>, w: Seq<Role>) -> bool {
    exists|k: int| 0 <= k < res.len() && (#[trigger] res[k])@ == w
}

/// Every world realised by picks multiset-matching the four given seatings
/// that passes the adjacency, confirmed and consistency checks is listed.
#[verifier::opaque]
pub open spec fn spec_block_covered(
    deck: Seq<Role>,
    visible: Seq<Option<Role>>,
    confirmed: Seq<Option<Role>>,
    observed: Seq<RoleStatement>,
    vcs: Seq<Role>,
    ocs: Seq<Role>,
    mcs: Seq<Role>,
    dcs: Seq<Role>,
    res: Seq<Vec<Role>>,
) -> bool {
    forall|w: Seq<Role>, vc: Seq<Role>, oc: Seq<Role>, mc: Seq<Role>, dc: Seq<Role>|
        #![trigger spec_variant_of(deck, vc, oc, mc, dc, w)]
        w.len() == visible.len() && spec_multiset_eq(vcs, vc) && spec_multiset_eq(ocs, oc)
            && spec_multiset_eq(mcs, mc) && spec_multiset_eq(dcs, dc) && spec_variant_of(
            deck,
            vc,
            oc,
            mc,
            dc,
            w,
        ) && spec_counsellor_ok(w) && spec_confirmed_ok(w, confirmed) && spec_world_consistent(
            deck,
            visible,
            observed,
            w,
        ) ==> spec_covered(res, w)
}

/// Block coverage for every Demon pick of the list.
#[verifier::opaque]
pub open spec fn spec_mrow_covered(
    deck: Seq<Role>,
    visible: Seq<Option<Role>>,
    confirmed: Seq<Option<Role>>,
    observed: Seq<RoleStatement>,
    dcombos: Seq<Vec<Role>>,
    vcs: Seq<Role>,
    ocs: Seq<Role>,
    mcs: Seq<Role>,
    res: Seq<Vec<Role>>,
) -> bool {
    forall|c: int|
        0 <= c < dcombos.len() ==> spec_block_covered(deck, visible, confirmed, observed, vcs,
            ocs, mcs, (#[trigger] dcombos[c])@, res)
}

/// Row coverage for every Minion pick of the list.
#[verifier::opaque]
pub open spec fn spec_orow_covered(
    deck: Seq<Role>,
    visible: Seq<Option<Role>>,
    confirmed: Seq<Option<Role>>,
    observed: Seq<RoleStatement>,
    mcombos: Seq<Vec<Role>>,
    dcombos: Seq<Vec<Role>>,
    vcs: Seq<Role>,
    ocs: Seq<Role>,
    res: Seq<Vec<Role>>,
) -> bool {
    forall|c: int|
        0 <= c < mcombos.len() ==> spec_mrow_covered(deck, visible, confirmed, observed, dcombos,
            vcs, ocs, (#[trigger] mcombos[c])@, res)
}

/// Row coverage for every Outcast pick of the list.
#[verifier::opaque]
pub open spec fn spec_vrow_covered(
    deck: Seq<Role>,
    visible: Seq<Option<Role>>,
    confirmed: Seq<Option<Role>>,
    observed: Seq<RoleStatement>,
    ocombos: Seq<Vec<Role>>,
    mcombos: Seq<Vec<Role>>,
    dcombos: Seq<Vec<Role>>,
    vcs: Seq<Role>,
    res: Seq<Vec<Role>>,
) -> bool {
    forall|c: int|
        0 <= c < ocombos.len() ==> spec_orow_covered(deck, visible, confirmed, observed, mcombos,
            dcombos, vcs, (#[trigger] ocombos[c])@, res)
}

/// Growing the results keeps a world listed.
proof fn lemma_covered_mono(res1: Seq<Vec<Role>>, res2: Seq<Vec<Role>>, w: Seq<Role>)
    requires
        spec_covered(res1, w),
        res1.len() <= res2.len(),
        forall|k: int| 0 <= k < res1.len() ==> res2[k] == res1[k],
    ensures
        spec_covered(res2, w),
{
    let k = choose|k: int| 0 <= k < res1.len() && (#[trigger] res1[k])@ == w;
    assert(res2[k] == res1[k]);
}

proof fn lemma_block_covered_mono(
    deck: Seq<Role>,
    visible: Seq<Option<Role>>,
    confirmed: Seq<Option<Role>>,
    observed: Seq<RoleStatement>,
    vcs: Seq<Role>,
    ocs: Seq<Role>,
    mcs: Seq<Role>,
    dcs: Seq<Role>,
    res1: Seq<Vec<Role>>,
    res2: Seq<Vec<Role>>,
)
    requires
        spec_block_covered(deck, visible, confirmed, observed, vcs, ocs, mcs, dcs, res1),
        res1.len() <= res2.len(),
        forall|k: int| 0 <= k < res1.len() ==> res2[k] == res1[k],
    ensures
        spec_block_covered(deck, visible, confirmed, observed, vcs, ocs, mcs, dcs, res2),
{
    reveal(spec_block_covered);
    assert forall|w: Seq<Role>, vc: Seq<Role>, oc: Seq<Role>, mc: Seq<Role>, dc: Seq<Role>|
        w.len() == visible.len() && spec_multiset_eq(vcs, vc) && spec_multiset_eq(ocs, oc)
            && spec_multiset_eq(mcs, mc) && spec_multiset_eq(dcs, dc) && #[trigger] spec_variant_of(
            deck,
            vc,
            oc,
            mc,
            dc,
            w,
        ) && spec_counsellor_ok(w) && spec_confirmed_ok(w, confirmed) && spec_world_consistent(
            deck,
            visible,
            observed,
            w,
        ) implies spec_covered(res2, w) by {
        lemma_covered_mono(res1, res2, w);
    }
}

proof fn lemma_mrow_covered_mono(
    deck: Seq<Role>,
    visible: Seq<Option<Role>>,
    confirmed: Seq<Option<Role>>,
    observed: Seq<RoleStatement>,
    dcombos: Seq<Vec<Role>>,
    vcs: Seq<Role>,
    ocs: Seq<Role>,
    mcs: Seq<Role>,
    res1: Seq<Vec<Role>>,
    res2: Seq<Vec<Role>>,
)
    requires
        spec_mrow_covered(deck, visible, confirmed, observed, dcombos, vcs, ocs, mcs, res1),
        res1.len() <= res2.len(),
        forall|k: int| 0 <= k < res1.len() ==> res2[k] == res1[k],
    ensures
        spec_mrow_covered(deck, visible, confirmed, observed, dcombos, vcs, ocs, mcs, res2),
{
    reveal(spec_mrow_covered);
    assert forall|c: int|
        0 <= c < dcombos.len() implies spec_block_covered(deck, visible, confirmed, observed, vcs,
        ocs, mcs, (#[trigger] dcombos[c])@, res2) by {
        lemma_block_covered_mono(deck, visible, confirmed, observed, vcs, ocs, mcs, dcombos[c]@,
            res1, res2);
    }
}

proof fn lemma_orow_covered_mono(
    deck: Seq<Role>,
    visible: Seq<Option<Role>>,
    confirmed: Seq<Option<Role>>,
    observed: Seq<RoleStatement>,
    mcombos: Seq<Vec<Role>>,
    dcombos: Seq<Vec<Role>>,
    vcs: Seq<Role>,
    ocs: Seq<Role>,
    res1: Seq<Vec<Role>>,
    res2: Seq<Vec<Role>>,
)
    requires
        spec_orow_covered(deck, visible, confirmed, observed, mcombos, dcombos, vcs, ocs, res1),
        res1.len() <= res2.len(),
        forall|k: int| 0 <= k < res1.len() ==> res2[k] == res1[k],
    ensures
        spec_orow_covered(deck, visible, confirmed, observed, mcombos, dcombos, vcs, ocs, res2),
{
    reveal(spec_orow_covered);
    assert forall|c: int|
        0 <= c < mcombos.len() implies spec_mrow_covered(deck, visible, confirmed, observed,
        dcombos, vcs, ocs, (#[trigger] mcombos[c])@, res2) by {
        lemma_mrow_covered_mono(deck, visible, confirmed, observed, dcombos, vcs, ocs,
            mcombos[c]@, res1, res2);
    }
}

proof fn lemma_vrow_covered_mono(
    deck: Seq<Role>,
    visible: Seq<Option<Role>>,
    confirmed: Seq<Option<Role>>,
    observed: Seq<RoleStatement>,
    ocombos: Seq<Vec<Role>>,
    mcombos: Seq<Vec<Role>>,
    dcombos: Seq<Vec<Role>>,
    vcs: Seq<Role>,
    res1: Seq<Vec<Role>>,
    res2: Seq<Vec<Role>>,
)
    requires
        spec_vrow_covered(deck, visible, confirmed, observed, ocombos, mcombos, dcombos, vcs,
            res1),
        res1.len() <= res2.len(),
        forall|k: int| 0 <= k < res1.len() ==> res2[k] == res1[k],
    ensures
        spec_vrow_covered(deck, visible, confirmed, observed, ocombos, mcombos, dcombos, vcs,
            res2),
{
    reveal(spec_vrow_covered);
    assert forall|c: int|
        0 <= c < ocombos.len() implies spec_orow_covered(deck, visible, confirmed, observed,
        mcombos, dcombos, vcs, (#[trigger] ocombos[c])@, res2) by {
        lemma_orow_covered_mono(deck, visible, confirmed, observed, mcombos, dcombos, vcs,
            ocombos[c]@, res1, res2);
    }
}

/// An empty table over an empty deck is consistent: there is nothing to
/// disguise and no statement to satisfy.
proof fn lemma_empty_world_consistent(
    deck: Seq<Role>,
    visible: Seq<Option<Role>>,
    observed: Seq<RoleStatement>,
)
    requires
        visible.len() == 0,
    ensures
        spec_world_consistent(deck, visible, observed, Seq::<Role>::empty()),
{
    let cand = Seq::<Role>::empty();
    let opts = crate::corruption::spec_poison_options(cand, cand);
    assert(opts.len() == 0);
    let cur = Seq::new(cand.len(), |i: int| false);
    let configs = crate::corruption::spec_corruption_configs(cand, cand);
    assert(configs == seq![cur]);
    assert(spec_all_statements_ok(cand, cand, cand, observed, configs[0]));
    assert(spec_statements_match(cand, cand, cand, observed));
    assert(cand =~= Seq::<Role>::empty());
}

/// Enumerates exactly the assignments of true roles to seats that are
/// consistent with the deck, the quotas, the visible and confirmed locks
/// and the observed statements. Each returned seating fills the table, is
/// dealable from the deck under the quotas (with the Counsellor's
/// Villager-for-Outcast substitution), seats a Counsellor next to an
/// Outcast, matches every confirmed identity, and admits an internal
/// Wretch, disguise and corruption assignment satisfying every observed
/// statement; conversely, every seating with those properties is returned.
/// Duplicates are suppressed, and an empty deck with an empty table yields
/// the single empty world.
/// Once every variation of one pick of combinations has been processed,
/// the pick's whole block of worlds is covered.
#[verifier::rlimit(100)]
proof fn lemma_block_from_variations(
    deck: Seq<Role>,
    visible: Seq<Option<Role>>,
    confirmed: Seq<Option<Role>>,
    observed: Seq<RoleStatement>,
    vcb: Seq<Role>,
    ocb: Seq<Role>,
    mcb: Seq<Role>,
    dcb: Seq<Role>,
    onp: Seq<Role>,
    variations: Seq<Vec<Role>>,
    has_counsellor: bool,
    res: Seq<Vec<Role>>,
)
    requires
        onp == spec_filter_group_excl(deck, Group::Outcast, ocb),
        has_counsellor == mcb.contains(Role::Counsellor),
        !has_counsellor ==> variations.len() == 1 && variations[0]@ == vcb + ocb + mcb + dcb,
        has_counsellor ==> variations.len() == vcb.len() * onp.len(),
        has_counsellor ==> forall|i2: int, oi2: int|
            0 <= i2 < vcb.len() && 0 <= oi2 < onp.len() ==> (#[trigger] variations[
                spec_variant_slot(i2, oi2, onp.len() as int)
            ])@ == vcb.update(i2, onp[oi2]) + ocb + mcb + dcb,
        forall|w: Seq<Role>, c2: int|
            #![trigger spec_multiset_eq(w, variations[c2]@)]
            0 <= c2 < variations.len() && w.len() == visible.len() && spec_multiset_eq(
                w,
                variations[c2]@,
            ) && spec_counsellor_ok(w) && spec_confirmed_ok(w, confirmed)
                && spec_world_consistent(deck, visible, observed, w) ==> spec_covered(res, w),
    ensures
        spec_block_covered(deck, visible, confirmed, observed, vcb, ocb, mcb, dcb, res),
{
    reveal(spec_block_covered);
    assert forall|w: Seq<Role>, vc: Seq<Role>, oc: Seq<Role>, mc: Seq<Role>, dc: Seq<Role>|
        w.len() == visible.len() && spec_multiset_eq(vcb, vc) && spec_multiset_eq(ocb, oc)
            && spec_multiset_eq(mcb, mc) && spec_multiset_eq(dcb, dc) && #[trigger] spec_variant_of(
            deck,
            vc,
            oc,
            mc,
            dc,
            w,
        ) && spec_counsellor_ok(w) && spec_confirmed_ok(w, confirmed) && spec_world_consistent(
            deck,
            visible,
            observed,
            w,
        ) implies spec_covered(res, w) by {
        assert(mcb.contains(Role::Counsellor) == mc.contains(Role::Counsellor)) by {
            lemma_contains_iff_count(mcb, Role::Counsellor);
            lemma_contains_iff_count(mc, Role::Counsellor);
            assert(spec_count_role(mcb, Role::Counsellor) == spec_count_role(mc, Role::Counsellor));
        }
        if !mc.contains(Role::Counsellor) {
            assert forall|x: Role|
                spec_count_role(w, x) == spec_count_role(variations[0]@, x) by {
                lemma_count_role_concat(vc + oc + mc, dc, x);
                lemma_count_role_concat(vc + oc, mc, x);
                lemma_count_role_concat(vc, oc, x);
                lemma_count_role_concat(vcb + ocb + mcb, dcb, x);
                lemma_count_role_concat(vcb + ocb, mcb, x);
                lemma_count_role_concat(vcb, ocb, x);
                assert(spec_count_role(w, x) == spec_count_role(vc + oc + mc + dc, x));
                assert(variations[0]@ == vcb + ocb + mcb + dcb);
            }
            assert(spec_multiset_eq(w, variations[0]@));
            assert(spec_covered(res, w));
        } else {
            let (i, ro) = choose|i: int, ro: Role|
                #![trigger spec_multiset_eq(w, spec_counsellor_variant(vc, oc, mc, dc, i, ro))]
                0 <= i < vc.len() && ro.spec_group() == Group::Outcast && deck.contains(ro)
                    && !oc.contains(ro) && spec_multiset_eq(
                    w,
                    spec_counsellor_variant(vc, oc, mc, dc, i, ro),
                );
            lemma_contains_count_role(vc, vc[i], i, vc.len() as int);
            assert(spec_count_role(vcb, vc[i]) > 0);
            lemma_count_role_pos_index(vcb, vc[i], vcb.len() as int);
            let i2 = choose|j: int| 0 <= j < vcb.len() && vcb[j] == vc[i];
            assert(!ocb.contains(ro)) by {
                lemma_contains_iff_count(ocb, ro);
                lemma_contains_iff_count(oc, ro);
                assert(spec_count_role(ocb, ro) == spec_count_role(oc, ro));
            }
            lemma_filter_group_excl_elems(deck, Group::Outcast, ocb, deck.len() as int);
            let dj = choose|j: int| 0 <= j < deck.len() && deck[j] == ro;
            assert(deck[dj].spec_group() == Group::Outcast && !ocb.contains(deck[dj]));
            assert(spec_filter_group_excl(deck, Group::Outcast, ocb).contains(ro));
            let oi2 = choose|j: int| 0 <= j < onp.len() && onp[j] == ro;
            let ol = onp.len() as int;
            let vl = vcb.len() as int;
            let slot = spec_variant_slot(i2, oi2, ol);
            assert(0 <= slot && slot < vl * ol) by (nonlinear_arith)
                requires
                    0 <= i2 < vl,
                    0 <= oi2 < ol,
                    slot == i2 * ol + oi2,
            ;
            assert(variations[spec_variant_slot(i2, oi2, ol)]@ == vcb.update(i2, onp[oi2]) + ocb
                + mcb + dcb);
            assert(variations[slot]@ == vcb.update(i2, ro) + ocb + mcb + dcb);
            assert forall|x: Role|
                spec_count_role(w, x) == spec_count_role(variations[slot]@, x) by {
                lemma_count_role_update(vc, i, ro, x);
                lemma_count_role_update(vcb, i2, ro, x);
                lemma_count_role_concat(vc.update(i, ro) + oc + mc, dc, x);
                lemma_count_role_concat(vc.update(i, ro) + oc, mc, x);
                lemma_count_role_concat(vc.update(i, ro), oc, x);
                lemma_count_role_concat(vcb.update(i2, ro) + ocb + mcb, dcb, x);
                lemma_count_role_concat(vcb.update(i2, ro) + ocb, mcb, x);
                lemma_count_role_concat(vcb.update(i2, ro), ocb, x);
                assert(spec_count_role(w, x) == spec_count_role(
                    spec_counsellor_variant(vc, oc, mc, dc, i, ro),
                    x,
                ));
            }
            assert(spec_multiset_eq(w, variations[slot]@));
            assert(spec_covered(res, w));
        }
    }
}

/// Once every pick of Villager combinations has its rows covered, every
/// admissible world that passes the checks is listed.
#[verifier::rlimit(100)]
proof fn lemma_solve_completeness(
    deck: Seq<Role>,
    visible: Seq<Option<Role>>,
    confirmed: Seq<Option<Role>>,
    observed: Seq<RoleStatement>,
    villagers: int,
    outcasts: int,
    minions: int,
    demons: int,
    vcombos: Seq<Vec<Role>>,
    ocombos: Seq<Vec<Role>>,
    mcombos: Seq<Vec<Role>>,
    dcombos: Seq<Vec<Role>>,
    res: Seq<Vec<Role>>,
)
    requires
        forall|t: Seq<Role>|
            #[trigger] spec_group_pick(t, deck, Group::Villager, villagers) ==> exists|c: int|
                0 <= c < vcombos.len() && spec_multiset_eq(vcombos[c]@, t),
        forall|t: Seq<Role>|
            #[trigger] spec_group_pick(t, deck, Group::Outcast, outcasts) ==> exists|c: int|
                0 <= c < ocombos.len() && spec_multiset_eq(ocombos[c]@, t),
        forall|t: Seq<Role>|
            #[trigger] spec_group_pick(t, deck, Group::Minion, minions) ==> exists|c: int|
                0 <= c < mcombos.len() && spec_multiset_eq(mcombos[c]@, t),
        forall|t: Seq<Role>|
            #[trigger] spec_group_pick(t, deck, Group::Demon, demons) ==> exists|c: int|
                0 <= c < dcombos.len() && spec_multiset_eq(dcombos[c]@, t),
        forall|c: int|
            0 <= c < vcombos.len() ==> spec_vrow_covered(deck, visible, confirmed, observed,
                ocombos, mcombos, dcombos, (#[trigger] vcombos[c])@, res),
    ensures
        forall|w: Seq<Role>|
            w.len() == visible.len() && #[trigger] spec_admissible(
                deck,
                villagers,
                outcasts,
                minions,
                demons,
                w,
            ) && spec_counsellor_ok(w) && spec_confirmed_ok(w, confirmed)
                && spec_world_consistent(deck, visible, observed, w) ==> spec_covered(res, w),
{
    reveal(spec_vrow_covered);
    reveal(spec_orow_covered);
    reveal(spec_mrow_covered);
    reveal(spec_block_covered);
    assert forall|w: Seq<Role>|
        w.len() == visible.len() && #[trigger] spec_admissible(
            deck,
            villagers,
            outcasts,
            minions,
            demons,
            w,
        ) && spec_counsellor_ok(w) && spec_confirmed_ok(w, confirmed) && spec_world_consistent(
            deck,
            visible,
            observed,
            w,
        ) implies spec_covered(res, w) by {
        let (vc, oc, mc, dc) = choose|vc: Seq<Role>, oc: Seq<Role>, mc: Seq<Role>, dc: Seq<Role>|
            #![trigger spec_variant_of(deck, vc, oc, mc, dc, w)]
            spec_group_pick(vc, deck, Group::Villager, villagers) && spec_group_pick(
                oc,
                deck,
                Group::Outcast,
                outcasts,
            ) && spec_group_pick(mc, deck, Group::Minion, minions) && spec_group_pick(
                dc,
                deck,
                Group::Demon,
                demons,
            ) && spec_variant_of(deck, vc, oc, mc, dc, w);
        assert(spec_sub_multiset(vc, spec_filter_group(deck, Group::Villager)));
        assert(spec_sub_multiset(oc, spec_filter_group(deck, Group::Outcast)));
        assert(spec_sub_multiset(mc, spec_filter_group(deck, Group::Minion)));
        assert(spec_sub_multiset(dc, spec_filter_group(deck, Group::Demon)));
        let a = choose|c: int| 0 <= c < vcombos.len() && spec_multiset_eq(vcombos[c]@, vc);
        let b = choose|c: int| 0 <= c < ocombos.len() && spec_multiset_eq(ocombos[c]@, oc);
        let cm = choose|c: int| 0 <= c < mcombos.len() && spec_multiset_eq(mcombos[c]@, mc);
        let cd = choose|c: int| 0 <= c < dcombos.len() && spec_multiset_eq(dcombos[c]@, dc);
        assert(spec_vrow_covered(deck, visible, confirmed, observed, ocombos, mcombos, dcombos,
            vcombos[a]@, res));
        assert(spec_orow_covered(deck, visible, confirmed, observed, mcombos, dcombos, vcombos[a]@,
            ocombos[b]@, res));
        assert(spec_mrow_covered(deck, visible, confirmed, observed, dcombos, vcombos[a]@,
            ocombos[b]@, mcombos[cm]@, res));
        assert(spec_block_covered(deck, visible, confirmed, observed, vcombos[a]@, ocombos[b]@,
            mcombos[cm]@, dcombos[cd]@, res));
    }
}

#[verifier::rlimit(100)]
pub fn brute_force_solve(
    deck: &Vec<Role>,
    visible_roles: &Vec<Option<Role>>,
    confirmed_roles: &Vec<Option<Role>>,
    observed_statements: &Vec<RoleStatement>,
    villagers: usize,
    outcasts: usize,
    minions: usize,
    demons: usize,
) -> (r: Vec<Vec<Role>>)
    requires
        confirmed_roles@.len() == visible_roles@.len(),
        observed_statements@.len() == visible_roles@.len(),
        visible_roles@.len() < usize::MAX,
        villagers + outcasts + minions + demons == visible_roles@.len(),
        forall|i: int|
            0 <= i < observed_statements@.len() ==> spec_stmt_wf(
                #[trigger] observed_statements@[i],
                visible_roles@.len() as int,
            ),
    ensures
        spec_results_wf(
            deck@,
            visible_roles@,
            confirmed_roles@,
            observed_statements@,
            villagers as int,
            outcasts as int,
            minions as int,
            demons as int,
            r@,
        ),
        forall|w: Seq<Role>|
            w.len() == visible_roles@.len() && #[trigger] spec_admissible(
                deck@,
                villagers as int,
                outcasts as int,
                minions as int,
                demons as int,
                w,
            ) && spec_counsellor_ok(w) && spec_confirmed_ok(w, confirmed_roles@)
                && spec_world_consistent(deck@, visible_roles@, observed_statements@, w)
                ==> spec_covered(r@, w),
        (deck@.len() == 0 && visible_roles@.len() == 0) ==> r@.len() == 1 && r@[0]@.len() == 0,
{
    let n = visible_roles.len();
    if n == 0 && deck.len() == 0 {
        let mut out: Vec<Vec<Role>> = Vec::new();
        let empty_world: Vec<Role> = Vec::new();
        out.push(empty_world);
        proof {
            lemma_empty_world_consistent(deck@, visible_roles@, observed_statements@);
            assert(out@[0]@ =~= Seq::<Role>::empty());
            let e = Seq::<Role>::empty();
            assert forall|g: Group| spec_group_pick(e, deck@, g, 0) by {
                assert forall|x: Role|
                    spec_count_role(e, x) <= spec_count_role(spec_filter_group(deck@, g), x) by {
                    lemma_count_role_nonneg(spec_filter_group(deck@, g), x,
                        spec_filter_group(deck@, g).len() as int);
                }
            }
            assert((e + e + e + e).len() == 0);
            assert(spec_multiset_eq(e, e + e + e + e));
            assert(spec_variant_of(deck@, e, e, e, e, e));
            assert(spec_group_pick(e, deck@, Group::Villager, villagers as int));
            assert(spec_group_pick(e, deck@, Group::Outcast, outcasts as int));
            assert(spec_group_pick(e, deck@, Group::Minion, minions as int));
            assert(spec_group_pick(e, deck@, Group::Demon, demons as int));
            assert(spec_admissible(
                deck@,
                villagers as int,
                outcasts as int,
                minions as int,
                demons as int,
                e,
            ));
            assert forall|w: Seq<Role>|
                w.len() == visible_roles@.len() && #[trigger] spec_admissible(
                    deck@,
                    villagers as int,
                    outcasts as int,
                    minions as int,
                    demons as int,
                    w,
                ) && spec_counsellor_ok(w) && spec_confirmed_ok(w, confirmed_roles@)
                    && spec_world_consistent(deck@, visible_roles@, observed_statements@, w)
                    implies spec_covered(out@, w) by {
                assert(w =~= Seq::<Role>::empty());
                assert(out@[0]@ == w);
            }
            assert(spec_entry_ok(
                deck@,
                visible_roles@,
                confirmed_roles@,
                observed_statements@,
                villagers as int,
                outcasts as int,
                minions as int,
                demons as int,
                out@[0]@,
            ));
        }
        return out;
    }
    let combos = generate_role_combinations(deck, villagers, outcasts, minions, demons);
    let villager_combos = combos.0;
    let outcast_combos = combos.1;
    let minion_combos = combos.2;
    let demon_combos = combos.3;
    let mut result: Vec<Vec<Role>> = Vec::new();
    let mut vi: usize = 0;
    while vi < villager_combos.len()
        invariant
            vi <= villager_combos@.len(),
            confirmed_roles@.len() == visible_roles@.len(),
            observed_statements@.len() == visible_roles@.len(),
            visible_roles@.len() < usize::MAX,
            villagers + outcasts + minions + demons == visible_roles@.len(),
            forall|i: int|
                0 <= i < observed_statements@.len() ==> spec_stmt_wf(
                    #[trigger] observed_statements@[i],
                    visible_roles@.len() as int,
                ),
            forall|c: int|
                0 <= c < villager_combos@.len() ==> (#[trigger] villager_combos@[c])@.len()
                    == villagers && (forall|j: int|
                    0 <= j < villager_combos@[c]@.len() ==> (
                    #[trigger] villager_combos@[c]@[j]).spec_group() == Group::Villager
                        && deck@.contains(villager_combos@[c]@[j])),
            forall|c: int|
                0 <= c < villager_combos@.len() ==> spec_sub_multiset(
                    (#[trigger] villager_combos@[c])@,
                    spec_filter_group(deck@, Group::Villager),
                ),
            forall|c: int|
                0 <= c < outcast_combos@.len() ==> (#[trigger] outcast_combos@[c])@.len()
                    == outcasts && (forall|j: int|
                    0 <= j < outcast_combos@[c]@.len() ==> (
                    #[trigger] outcast_combos@[c]@[j]).spec_group() == Group::Outcast
                        && deck@.contains(outcast_combos@[c]@[j])),
            forall|c: int|
                0 <= c < outcast_combos@.len() ==> spec_sub_multiset(
                    (#[trigger] outcast_combos@[c])@,
                    spec_filter_group(deck@, Group::Outcast),
                ),
            forall|c: int|
                0 <= c < minion_combos@.len() ==> (#[trigger] minion_combos@[c])@.len() == minions
                    && (forall|j: int|
                    0 <= j < minion_combos@[c]@.len() ==> (
                    #[trigger] minion_combos@[c]@[j]).spec_group() == Group::Minion
                        && deck@.contains(minion_combos@[c]@[j])),
            forall|c: int|
                0 <= c < minion_combos@.len() ==> spec_sub_multiset(
                    (#[trigger] minion_combos@[c])@,
                    spec_filter_group(deck@, Group::Minion),
                ),
            forall|c: int|
                0 <= c < demon_combos@.len() ==> (#[trigger] demon_combos@[c])@.len() == demons && (
                forall|j: int|
                    0 <= j < demon_combos@[c]@.len() ==> (
                    #[trigger] demon_combos@[c]@[j]).spec_group() == Group::Demon && deck@.contains(
                        demon_combos@[c]@[j],
                    )),
            forall|c: int|
                0 <= c < demon_combos@.len() ==> spec_sub_multiset(
                    (#[trigger] demon_combos@[c])@,
                    spec_filter_group(deck@, Group::Demon),
                ),
            forall|t: Seq<Role>|
                #[trigger] spec_group_pick(t, deck@, Group::Villager, villagers as int) ==> exists|c: int|
                    0 <= c < villager_combos@.len() && spec_multiset_eq(villager_combos@[c]@, t),
            forall|t: Seq<Role>|
                #[trigger] spec_group_pick(t, deck@, Group::Outcast, outcasts as int) ==> exists|c: int|
                    0 <= c < outcast_combos@.len() && spec_multiset_eq(outcast_combos@[c]@, t),
            forall|t: Seq<Role>|
                #[trigger] spec_group_pick(t, deck@, Group::Minion, minions as int) ==> exists|c: int|
                    0 <= c < minion_combos@.len() && spec_multiset_eq(minion_combos@[c]@, t),
            forall|t: Seq<Role>|
                #[trigger] spec_group_pick(t, deck@, Group::Demon, demons as int) ==> exists|c: int|
                    0 <= c < demon_combos@.len() && spec_multiset_eq(demon_combos@[c]@, t),
            forall|c: int|
                0 <= c < vi ==> spec_vrow_covered(
                    deck@,
                    visible_roles@,
                    confirmed_roles@,
                    observed_statements@,
                    outcast_combos@,
                    minion_combos@,
                    demon_combos@,
                    (#[trigger] villager_combos@[c])@,
                    result@,
                ),
            spec_results_wf(
                deck@,
                visible_roles@,
                confirmed_roles@,
                observed_statements@,
                villagers as int,
                outcasts as int,
                minions as int,
                demons as int,
                result@,
            ),
        decreases villager_combos@.len() - vi,
    {
        let v_combo = &villager_combos[vi];
        let ghost result_vb = result@;
        proof {
            assert(forall|c: int|
                0 <= c < vi ==> spec_vrow_covered(
                    deck@,
                    visible_roles@,
                    confirmed_roles@,
                    observed_statements@,
                    outcast_combos@,
                    minion_combos@,
                    demon_combos@,
                    (#[trigger] villager_combos@[c])@,
                    result_vb,
                ));
        }
        let mut oi: usize = 0;
        while oi < outcast_combos.len()
            invariant
                oi <= outcast_combos@.len(),
                vi < villager_combos@.len(),
                confirmed_roles@.len() == visible_roles@.len(),
                observed_statements@.len() == visible_roles@.len(),
                visible_roles@.len() < usize::MAX,
                villagers + outcasts + minions + demons == visible_roles@.len(),
                forall|i: int|
                    0 <= i < observed_statements@.len() ==> spec_stmt_wf(
                        #[trigger] observed_statements@[i],
                        visible_roles@.len() as int,
                    ),
                v_combo@.len() == villagers,
                forall|j: int|
                    0 <= j < v_combo@.len() ==> (#[trigger] v_combo@[j]).spec_group()
                        == Group::Villager && deck@.contains(v_combo@[j]),
                spec_sub_multiset(
                    v_combo@,
                    spec_filter_group(deck@, Group::Villager),
                ),
                forall|c: int|
                    0 <= c < outcast_combos@.len() ==> (#[trigger] outcast_combos@[c])@.len()
                        == outcasts && (forall|j: int|
                        0 <= j < outcast_combos@[c]@.len() ==> (
                        #[trigger] outcast_combos@[c]@[j]).spec_group() == Group::Outcast
                            && deck@.contains(outcast_combos@[c]@[j])),
                forall|c: int|
                    0 <= c < outcast_combos@.len() ==> spec_sub_multiset(
                        (#[trigger] outcast_combos@[c])@,
                        spec_filter_group(deck@, Group::Outcast),
                    ),
                forall|c: int|
                    0 <= c < minion_combos@.len() ==> (#[trigger] minion_combos@[c])@.len()
                        == minions && (forall|j: int|
                        0 <= j < minion_combos@[c]@.len() ==> (
                        #[trigger] minion_combos@[c]@[j]).spec_group() == Group::Minion
                            && deck@.contains(minion_combos@[c]@[j])),
                forall|c: int|
                    0 <= c < minion_combos@.len() ==> spec_sub_multiset(
                        (#[trigger] minion_combos@[c])@,
                        spec_filter_group(deck@, Group::Minion),
                    ),
                forall|c: int|
                    0 <= c < demon_combos@.len() ==> (#[trigger] demon_combos@[c])@.len() == demons
                        && (forall|j: int|
                        0 <= j < demon_combos@[c]@.len() ==> (
                        #[trigger] demon_combos@[c]@[j]).spec_group() == Group::Demon
                            && deck@.contains(demon_combos@[c]@[j])),
                forall|c: int|
                    0 <= c < demon_combos@.len() ==> spec_sub_multiset(
                        (#[trigger] demon_combos@[c])@,
                        spec_filter_group(deck@, Group::Demon),
                    ),
                spec_results_wf(
                deck@,
                visible_roles@,
                confirmed_roles@,
                observed_statements@,
                villagers as int,
                outcasts as int,
                minions as int,
                demons as int,
                result@,
            ),
                result_vb.len() <= result@.len(),
                forall|k: int| 0 <= k < result_vb.len() ==> result@[k] == result_vb[k],
                forall|c: int|
                    0 <= c < oi ==> spec_orow_covered(
                        deck@,
                        visible_roles@,
                        confirmed_roles@,
                        observed_statements@,
                        minion_combos@,
                        demon_combos@,
                        v_combo@,
                        (#[trigger] outcast_combos@[c])@,
                        result@,
                    ),
            decreases outcast_combos@.len() - oi,
        {
            let o_combo = &outcast_combos[oi];
            let ghost result_ob = result@;
            proof {
                assert(forall|c: int|
                    0 <= c < oi ==> spec_orow_covered(
                        deck@,
                        visible_roles@,
                        confirmed_roles@,
                        observed_statements@,
                        minion_combos@,
                        demon_combos@,
                        v_combo@,
                        (#[trigger] outcast_combos@[c])@,
                        result_ob,
                    ));
            }
            let outcasts_not_in_play = filter_group_excl(deck, Group::Outcast, o_combo);
            let mut mi: usize = 0;
            while mi < minion_combos.len()
                invariant
                    mi <= minion_combos@.len(),
                    confirmed_roles@.len() == visible_roles@.len(),
                    observed_statements@.len() == visible_roles@.len(),
                    visible_roles@.len() < usize::MAX,
                    villagers + outcasts + minions + demons == visible_roles@.len(),
                    forall|i: int|
                        0 <= i < observed_statements@.len() ==> spec_stmt_wf(
                            #[trigger] observed_statements@[i],
                            visible_roles@.len() as int,
                        ),
                    v_combo@.len() == villagers,
                    forall|j: int|
                        0 <= j < v_combo@.len() ==> (#[trigger] v_combo@[j]).spec_group()
                            == Group::Villager && deck@.contains(v_combo@[j]),
                    spec_sub_multiset(
                        v_combo@,
                        spec_filter_group(deck@, Group::Villager),
                    ),
                    o_combo@.len() == outcasts,
                    forall|j: int|
                        0 <= j < o_combo@.len() ==> (#[trigger] o_combo@[j]).spec_group()
                            == Group::Outcast && deck@.contains(o_combo@[j]),
                    spec_sub_multiset(
                        o_combo@,
                        spec_filter_group(deck@, Group::Outcast),
                    ),
                    outcasts_not_in_play@ == spec_filter_group_excl(
                        deck@,
                        Group::Outcast,
                        o_combo@,
                    ),
                    forall|c: int|
                        0 <= c < minion_combos@.len() ==> (#[trigger] minion_combos@[c])@.len()
                            == minions && (forall|j: int|
                            0 <= j < minion_combos@[c]@.len() ==> (
                            #[trigger] minion_combos@[c]@[j]).spec_group() == Group::Minion
                                && deck@.contains(minion_combos@[c]@[j])),
                    forall|c: int|
                        0 <= c < minion_combos@.len() ==> spec_sub_multiset(
                            (#[trigger] minion_combos@[c])@,
                            spec_filter_group(deck@, Group::Minion),
                        ),
                    forall|c: int|
                        0 <= c < demon_combos@.len() ==> (#[trigger] demon_combos@[c])@.len()
                            == demons && (forall|j: int|
                            0 <= j < demon_combos@[c]@.len() ==> (
                            #[trigger] demon_combos@[c]@[j]).spec_group() == Group::Demon
                                && deck@.contains(demon_combos@[c]@[j])),
                    forall|c: int|
                        0 <= c < demon_combos@.len() ==> spec_sub_multiset(
                            (#[trigger] demon_combos@[c])@,
                            spec_filter_group(deck@, Group::Demon),
                        ),
                    spec_results_wf(
                deck@,
                visible_roles@,
                confirmed_roles@,
                observed_statements@,
                villagers as int,
                outcasts as int,
                minions as int,
                demons as int,
                result@,
            ),
                    result_ob.len() <= result@.len(),
                    forall|k: int| 0 <= k < result_ob.len() ==> result@[k] == result_ob[k],
                    forall|c: int|
                        0 <= c < mi ==> spec_mrow_covered(
                            deck@,
                            visible_roles@,
                            confirmed_roles@,
                            observed_statements@,
                            demon_combos@,
                            v_combo@,
                            o_combo@,
                            (#[trigger] minion_combos@[c])@,
                            result@,
                        ),
                decreases minion_combos@.len() - mi,
            {
                let m_combo = &minion_combos[mi];
                let ghost result_mb = result@;
                proof {
                    assert(forall|c: int|
                        0 <= c < mi ==> spec_mrow_covered(
                            deck@,
                            visible_roles@,
                            confirmed_roles@,
                            observed_statements@,
                            demon_combos@,
                            v_combo@,
                            o_combo@,
                            (#[trigger] minion_combos@[c])@,
                            result_mb,
                        ));
                }
                let has_counsellor = contains_role(m_combo, Role::Counsellor);
                let mut di: usize = 0;
                while di < demon_combos.len()
                    invariant
                        di <= demon_combos@.len(),
                        confirmed_roles@.len() == visible_roles@.len(),
                        observed_statements@.len() == visible_roles@.len(),
                        visible_roles@.len() < usize::MAX,
                        villagers + outcasts + minions + demons == visible_roles@.len(),
                        forall|i: int|
                            0 <= i < observed_statements@.len() ==> spec_stmt_wf(
                                #[trigger] observed_statements@[i],
                                visible_roles@.len() as int,
                            ),
                        v_combo@.len() == villagers,
                        forall|j: int|
                            0 <= j < v_combo@.len() ==> (#[trigger] v_combo@[j]).spec_group()
                                == Group::Villager && deck@.contains(v_combo@[j]),
                        spec_sub_multiset(
                            v_combo@,
                            spec_filter_group(deck@, Group::Villager),
                        ),
                        o_combo@.len() == outcasts,
                        forall|j: int|
                            0 <= j < o_combo@.len() ==> (#[trigger] o_combo@[j]).spec_group()
                                == Group::Outcast && deck@.contains(o_combo@[j]),
                        spec_sub_multiset(
                            o_combo@,
                            spec_filter_group(deck@, Group::Outcast),
                        ),
                        outcasts_not_in_play@ == spec_filter_group_excl(
                            deck@,
                            Group::Outcast,
                            o_combo@,
                        ),
                        m_combo@.len() == minions,
                        forall|j: int|
                            0 <= j < m_combo@.len() ==> (#[trigger] m_combo@[j]).spec_group()
                                == Group::Minion && deck@.contains(m_combo@[j]),
                        spec_sub_multiset(
                            m_combo@,
                            spec_filter_group(deck@, Group::Minion),
                        ),
                        has_counsellor == m_combo@.contains(Role::Counsellor),
                        forall|c: int|
                            0 <= c < demon_combos@.len() ==> (#[trigger] demon_combos@[c])@.len()
                                == demons && (forall|j: int|
                                0 <= j < demon_combos@[c]@.len() ==> (
                                #[trigger] demon_combos@[c]@[j]).spec_group() == Group::Demon
                                    && deck@.contains(demon_combos@[c]@[j])),
                        forall|c: int|
                            0 <= c < demon_combos@.len() ==> spec_sub_multiset(
                                (#[trigger] demon_combos@[c])@,
                                spec_filter_group(deck@, Group::Demon),
                            ),
                        spec_results_wf(
                deck@,
                visible_roles@,
                confirmed_roles@,
                observed_statements@,
                villagers as int,
                outcasts as int,
                minions as int,
                demons as int,
                result@,
            ),
                        result_mb.len() <= result@.len(),
                        forall|k: int| 0 <= k < result_mb.len() ==> result@[k] == result_mb[k],
                        forall|c: int|
                            0 <= c < di ==> spec_block_covered(
                                deck@,
                                visible_roles@,
                                confirmed_roles@,
                                observed_statements@,
                                v_combo@,
                                o_combo@,
                                m_combo@,
                                (#[trigger] demon_combos@[c])@,
                                result@,
                            ),
                    decreases demon_combos@.len() - di,
                {
                    let d_combo = &demon_combos[di];
                    let ghost result_db = result@;
                    proof {
                        assert(forall|c: int|
                            0 <= c < di ==> spec_block_covered(
                                deck@,
                                visible_roles@,
                                confirmed_roles@,
                                observed_statements@,
                                v_combo@,
                                o_combo@,
                                m_combo@,
                                (#[trigger] demon_combos@[c])@,
                                result_db,
                            ));
                    }
                    let variations = generate_role_variations(
                        v_combo,
                        o_combo,
                        m_combo,
                        d_combo,
                        &outcasts_not_in_play,
                        has_counsellor,
                    );
                    let ghost result_ci = result@;
                    let mut ci: usize = 0;
                    while ci < variations.len()
                        invariant
                            ci <= variations@.len(),
                            confirmed_roles@.len() == visible_roles@.len(),
                            observed_statements@.len() == visible_roles@.len(),
                            visible_roles@.len() < usize::MAX,
                            villagers + outcasts + minions + demons == visible_roles@.len(),
                            forall|i: int|
                                0 <= i < observed_statements@.len() ==> spec_stmt_wf(
                                    #[trigger] observed_statements@[i],
                                    visible_roles@.len() as int,
                                ),
                            v_combo@.len() == villagers,
                            forall|j: int|
                                0 <= j < v_combo@.len() ==> (#[trigger] v_combo@[j]).spec_group()
                                    == Group::Villager && deck@.contains(v_combo@[j]),
                            spec_sub_multiset(
                                v_combo@,
                                spec_filter_group(deck@, Group::Villager),
                            ),
                            o_combo@.len() == outcasts,
                            forall|j: int|
                                0 <= j < o_combo@.len() ==> (#[trigger] o_combo@[j]).spec_group()
                                    == Group::Outcast && deck@.contains(o_combo@[j]),
                            spec_sub_multiset(
                                o_combo@,
                                spec_filter_group(deck@, Group::Outcast),
                            ),
                            outcasts_not_in_play@ == spec_filter_group_excl(
                                deck@,
                                Group::Outcast,
                                o_combo@,
                            ),
                            m_combo@.len() == minions,
                            forall|j: int|
                                0 <= j < m_combo@.len() ==> (#[trigger] m_combo@[j]).spec_group()
                                    == Group::Minion && deck@.contains(m_combo@[j]),
                            spec_sub_multiset(
                                m_combo@,
                                spec_filter_group(deck@, Group::Minion),
                            ),
                            has_counsellor == m_combo@.contains(Role::Counsellor),
                            d_combo@.len() == demons,
                            forall|j: int|
                                0 <= j < d_combo@.len() ==> (#[trigger] d_combo@[j]).spec_group()
                                    == Group::Demon && deck@.contains(d_combo@[j]),
                            spec_sub_multiset(
                                d_combo@,
                                spec_filter_group(deck@, Group::Demon),
                            ),
                            forall|c: int|
                                0 <= c < variations@.len() ==> (#[trigger] variations@[c])@.len()
                                    == v_combo@.len() + o_combo@.len() + m_combo@.len()
                                    + d_combo@.len(),
                            !has_counsellor ==> variations@.len() == 1 && variations@[0]@
                                == v_combo@ + o_combo@ + m_combo@ + d_combo@,
                            has_counsellor ==> variations@.len() == v_combo@.len()
                                * outcasts_not_in_play@.len(),
                            has_counsellor ==> forall|i2: int, oi2: int|
                                0 <= i2 < v_combo@.len() && 0 <= oi2
                                    < outcasts_not_in_play@.len() ==> (#[trigger] variations@[
                                spec_variant_slot(i2, oi2, outcasts_not_in_play@.len() as int)
                                ])@ == v_combo@.update(i2, outcasts_not_in_play@[oi2]) + o_combo@
                                    + m_combo@ + d_combo@,
                            result_ci.len() <= result@.len(),
                            forall|k: int| 0 <= k < result_ci.len() ==> result@[k] == result_ci[k],
                            forall|w: Seq<Role>, c2: int|
                                #![trigger spec_multiset_eq(w, variations@[c2]@)]
                                0 <= c2 < ci && w.len() == visible_roles@.len()
                                    && spec_multiset_eq(w, variations@[c2]@)
                                    && spec_counsellor_ok(w) && spec_confirmed_ok(
                                    w,
                                    confirmed_roles@,
                                ) && spec_world_consistent(
                                    deck@,
                                    visible_roles@,
                                    observed_statements@,
                                    w,
                                ) ==> spec_covered(result@, w),
                            spec_results_wf(
                deck@,
                visible_roles@,
                confirmed_roles@,
                observed_statements@,
                villagers as int,
                outcasts as int,
                minions as int,
                demons as int,
                result@,
            ),
                        decreases variations@.len() - ci,
                    {
                        let combined = &variations[ci];
                        proof {
                            if spec_count_role(deck@, Role::Counsellor) == 0 {
                                if has_counsellor {
                                    let j = choose|j: int|
                                        0 <= j < m_combo@.len() && m_combo@[j] == Role::Counsellor;
                                    let dj = choose|dj: int|
                                        0 <= dj < deck@.len() && deck@[dj] == Role::Counsellor;
                                    lemma_contains_count_role(
                                        deck@,
                                        Role::Counsellor,
                                        dj,
                                        deck@.len() as int,
                                    );
                                    assert(false);
                                }
                                assert(combined@ == v_combo@ + o_combo@ + m_combo@ + d_combo@);
                                assert forall|g: Group|
                                    spec_count_group(combined@, g) == spec_quota(
                                        g,
                                        villagers as int,
                                        outcasts as int,
                                        minions as int,
                                        demons as int,
                                    ) by {
                                    lemma_count_group_concat(
                                        v_combo@ + o_combo@ + m_combo@,
                                        d_combo@,
                                        g,
                                    );
                                    lemma_count_group_concat(v_combo@ + o_combo@, m_combo@, g);
                                    lemma_count_group_concat(v_combo@, o_combo@, g);
                                    lemma_count_group_homogeneous(
                                        v_combo@,
                                        Group::Villager,
                                        g,
                                        v_combo@.len() as int,
                                    );
                                    lemma_count_group_homogeneous(
                                        o_combo@,
                                        Group::Outcast,
                                        g,
                                        o_combo@.len() as int,
                                    );
                                    lemma_count_group_homogeneous(
                                        m_combo@,
                                        Group::Minion,
                                        g,
                                        m_combo@.len() as int,
                                    );
                                    lemma_count_group_homogeneous(
                                        d_combo@,
                                        Group::Demon,
                                        g,
                                        d_combo@.len() as int,
                                    );
                                    assert(combined@ =~= (v_combo@ + o_combo@ + m_combo@)
                                        + d_combo@);
                                    assert(v_combo@ + o_combo@ + m_combo@ =~= (v_combo@ + o_combo@)
                                        + m_combo@);
                                }
                            }
                        }
                        proof {
                            let vl = v_combo@.len() as int;
                            let ol = outcasts_not_in_play@.len() as int;
                            assert forall|s2: Seq<Role>|
                                #[trigger] spec_multiset_eq(s2, combined@) implies spec_admissible(
                                deck@,
                                villagers as int,
                                outcasts as int,
                                minions as int,
                                demons as int,
                                s2,
                            ) by {
                                assert(spec_group_pick(
                                    v_combo@,
                                    deck@,
                                    Group::Villager,
                                    villagers as int,
                                ));
                                assert(spec_group_pick(
                                    o_combo@,
                                    deck@,
                                    Group::Outcast,
                                    outcasts as int,
                                ));
                                assert(spec_group_pick(
                                    m_combo@,
                                    deck@,
                                    Group::Minion,
                                    minions as int,
                                ));
                                assert(spec_group_pick(d_combo@, deck@, Group::Demon, demons as int));
                                if !has_counsellor {
                                    assert(combined@ == v_combo@ + o_combo@ + m_combo@ + d_combo@);
                                    assert(spec_multiset_eq(s2, v_combo@ + o_combo@ + m_combo@
                                        + d_combo@));
                                    assert(spec_variant_of(
                                        deck@,
                                        v_combo@,
                                        o_combo@,
                                        m_combo@,
                                        d_combo@,
                                        s2,
                                    ));
                                } else {
                                    assert((ci as int) < (vl * ol));
                                    assert(ol > 0) by (nonlinear_arith)
                                        requires
                                            0 <= ci as int,
                                            (ci as int) < (vl * ol),
                                            ol >= 0,
                                    ;
                                    let i2 = ci as int / ol;
                                    let oi2 = ci as int % ol;
                                    assert(0 <= oi2 < ol && 0 <= i2 && ci as int == i2 * ol + oi2)
                                        by (nonlinear_arith)
                                        requires
                                            ol > 0,
                                            0 <= ci as int,
                                            i2 == ci as int / ol,
                                            oi2 == ci as int % ol,
                                    ;
                                    assert(i2 < vl) by (nonlinear_arith)
                                        requires
                                            ol > 0,
                                            (ci as int) < (vl * ol),
                                            ci as int == i2 * ol + oi2,
                                            0 <= oi2 < ol,
                                            0 <= i2,
                                    ;
                                    assert(spec_variant_slot(i2, oi2, ol) == ci as int);
                                    assert(variations@[spec_variant_slot(i2, oi2, ol)]@
                                        == v_combo@.update(i2, outcasts_not_in_play@[oi2])
                                        + o_combo@ + m_combo@ + d_combo@);
                                    let ro = outcasts_not_in_play@[oi2];
                                    lemma_filter_group_excl_elems(
                                        deck@,
                                        Group::Outcast,
                                        o_combo@,
                                        deck@.len() as int,
                                    );
                                    assert(ro.spec_group() == Group::Outcast && deck@.contains(ro)
                                        && !o_combo@.contains(ro));
                                    assert(combined@ == spec_counsellor_variant(
                                        v_combo@,
                                        o_combo@,
                                        m_combo@,
                                        d_combo@,
                                        i2,
                                        ro,
                                    ));
                                    assert(spec_multiset_eq(s2, spec_counsellor_variant(
                                        v_combo@,
                                        o_combo@,
                                        m_combo@,
                                        d_combo@,
                                        i2,
                                        ro,
                                    )));
                                    assert(spec_variant_of(
                                        deck@,
                                        v_combo@,
                                        o_combo@,
                                        m_combo@,
                                        d_combo@,
                                        s2,
                                    ));
                                }
                            }
                        }
                        let ghost result_b = result@;
                        process_combined(
                            combined,
                            deck,
                            visible_roles,
                            confirmed_roles,
                            observed_statements,
                            villagers,
                            outcasts,
                            minions,
                            demons,
                            &mut result,
                        );
                        proof {
                            assert forall|w: Seq<Role>, c2: int|
                                0 <= c2 < ci + 1 && w.len() == visible_roles@.len()
                                    && #[trigger] spec_multiset_eq(w, variations@[c2]@)
                                    && spec_counsellor_ok(w) && spec_confirmed_ok(
                                    w,
                                    confirmed_roles@,
                                ) && spec_world_consistent(
                                    deck@,
                                    visible_roles@,
                                    observed_statements@,
                                    w,
                                ) implies spec_covered(result@, w) by {
                                if c2 < ci {
                                    lemma_covered_mono(result_b, result@, w);
                                } else {
                                    assert(variations@[c2]@ == combined@);
                                }
                            }
                        }
                        ci = ci + 1;
                    }
                    proof {
                        lemma_block_from_variations(
                            deck@,
                            visible_roles@,
                            confirmed_roles@,
                            observed_statements@,
                            v_combo@,
                            o_combo@,
                            m_combo@,
                            d_combo@,
                            outcasts_not_in_play@,
                            variations@,
                            has_counsellor,
                            result@,
                        );
                        assert forall|c: int|
                            0 <= c < di + 1 implies spec_block_covered(
                            deck@,
                            visible_roles@,
                            confirmed_roles@,
                            observed_statements@,
                            v_combo@,
                            o_combo@,
                            m_combo@,
                            (#[trigger] demon_combos@[c])@,
                            result@,
                        ) by {
                            if c < di {
                                lemma_block_covered_mono(
                                    deck@,
                                    visible_roles@,
                                    confirmed_roles@,
                                    observed_statements@,
                                    v_combo@,
                                    o_combo@,
                                    m_combo@,
                                    demon_combos@[c]@,
                                    result_db,
                                    result@,
                                );
                            } else {
                                assert(demon_combos@[c]@ == d_combo@);
                            }
                        }
                    }
                    di = di + 1;
                }
                proof {
                    reveal(spec_mrow_covered);
                    assert(spec_mrow_covered(
                        deck@,
                        visible_roles@,
                        confirmed_roles@,
                        observed_statements@,
                        demon_combos@,
                        v_combo@,
                        o_combo@,
                        m_combo@,
                        result@,
                    ));
                    assert forall|c: int|
                        0 <= c < mi + 1 implies spec_mrow_covered(
                        deck@,
                        visible_roles@,
                        confirmed_roles@,
                        observed_statements@,
                        demon_combos@,
                        v_combo@,
                        o_combo@,
                        (#[trigger] minion_combos@[c])@,
                        result@,
                    ) by {
                        if c < mi {
                            lemma_mrow_covered_mono(
                                deck@,
                                visible_roles@,
                                confirmed_roles@,
                                observed_statements@,
                                demon_combos@,
                                v_combo@,
                                o_combo@,
                                minion_combos@[c]@,
                                result_mb,
                                result@,
                            );
                        } else {
                            assert(minion_combos@[c]@ == m_combo@);
                        }
                    }
                }
                mi = mi + 1;
            }
            proof {
                reveal(spec_orow_covered);
                assert(spec_orow_covered(
                    deck@,
                    visible_roles@,
                    confirmed_roles@,
                    observed_statements@,
                    minion_combos@,
                    demon_combos@,
                    v_combo@,
                    o_combo@,
                    result@,
                ));
                assert forall|c: int|
                    0 <= c < oi + 1 implies spec_orow_covered(
                    deck@,
                    visible_roles@,
                    confirmed_roles@,
                    observed_statements@,
                    minion_combos@,
                    demon_combos@,
                    v_combo@,
                    (#[trigger] outcast_combos@[c])@,
                    result@,
                ) by {
                    if c < oi {
                        lemma_orow_covered_mono(
                            deck@,
                            visible_roles@,
                            confirmed_roles@,
                            observed_statements@,
                            minion_combos@,
                            demon_combos@,
                            v_combo@,
                            outcast_combos@[c]@,
                            result_ob,
                            result@,
                        );
                    } else {
                        assert(outcast_combos@[c]@ == o_combo@);
                    }
                }
            }
            oi = oi + 1;
        }
        proof {
            reveal(spec_vrow_covered);
            assert(spec_vrow_covered(
                deck@,
                visible_roles@,
                confirmed_roles@,
                observed_statements@,
                outcast_combos@,
                minion_combos@,
                demon_combos@,
                v_combo@,
                result@,
            ));
            assert forall|c: int|
                0 <= c < vi + 1 implies spec_vrow_covered(
                deck@,
                visible_roles@,
                confirmed_roles@,
                observed_statements@,
                outcast_combos@,
                minion_combos@,
                demon_combos@,
                (#[trigger] villager_combos@[c])@,
                result@,
            ) by {
                if c < vi {
                    lemma_vrow_covered_mono(
                        deck@,
                        visible_roles@,
                        confirmed_roles@,
                        observed_statements@,
                        outcast_combos@,
                        minion_combos@,
                        demon_combos@,
                        villager_combos@[c]@,
                        result_vb,
                        result@,
                    );
                } else {
                    assert(villager_combos@[c]@ == v_combo@);
                }
            }
        }
        vi = vi + 1;
    }
    proof {
        lemma_solve_completeness(
            deck@,
            visible_roles@,
            confirmed_roles@,
            observed_statements@,
            villagers as int,
            outcasts as int,
            minions as int,
            demons as int,
            villager_combos@,
            outcast_combos@,
            minion_combos@,
            demon_combos@,
            result@,
        );
    }
    result
}

/// Appending to an error list keeps its members and adds the new one.
proof fn lemma_push_contains(s: Seq<ValidationError>, x: ValidationError)
    ensures
        s.push(x).contains(x),
        forall|y: ValidationError| s.contains(y) ==> s.push(x).contains(y),
{
    assert(s.push(x)[s.len() as int] == x);
    assert forall|y: ValidationError| s.contains(y) implies s.push(x).contains(y) by {
        let j = choose|j: int| 0 <= j < s.len() && s[j] == y;
        assert(s.push(x)[j] == y);
    }
}

/// One reason a candidate world fails validation.
#[derive(Clone, Copy, Debug, PartialEq, Eq, Structural)]
pub enum ValidationError {
    /// The seat's true role differs from the confirmed identity.
    ConfirmedMismatch { seat: usize },
    /// No choice of Wretch identities, disguises and corruption satisfies
    /// the visible locks and the observed statements.
    NoConsistentAssignment,
}

/// Checks one candidate seating against the same rules the solver applies,
/// returning success exactly when the seating matches every confirmed
/// identity and admits a consistent internal assignment, and otherwise the
/// reasons it fails.
pub fn validate_candidate(
    candidate: &Vec<Role>,
    deck: &Vec<Role>,
    visible_roles: &Vec<Option<Role>>,
    confirmed_roles: &Vec<Option<Role>>,
    observed_statements: &Vec<RoleStatement>,
) -> (r: Result<(), Vec<ValidationError>>)
    requires
        candidate@.len() == visible_roles@.len(),
        confirmed_roles@.len() == visible_roles@.len(),
        observed_statements@.len() == visible_roles@.len(),
        visible_roles@.len() < usize::MAX,
        forall|i: int|
            0 <= i < observed_statements@.len() ==> spec_stmt_wf(
                #[trigger] observed_statements@[i],
                visible_roles@.len() as int,
            ),
    ensures
        (r is Ok) == (spec_confirmed_ok(candidate@, confirmed_roles@) && spec_world_consistent(
            deck@,
            visible_roles@,
            observed_statements@,
            candidate@,
        )),
        r matches Err(es) ==> es@.len() >= 1 && forall|k: int|
            0 <= k < es@.len() ==> match (#[trigger] es@[k]) {
                ValidationError::ConfirmedMismatch { seat } => seat < candidate@.len()
                    && (confirmed_roles@[seat as int] matches Some(c) && candidate@[seat as int]
                    != c),
                ValidationError::NoConsistentAssignment => !spec_world_consistent(
                    deck@,
                    visible_roles@,
                    observed_statements@,
                    candidate@,
                ),
            },
        r matches Err(es) ==> forall|i: int|
            0 <= i < candidate@.len() && ((#[trigger] confirmed_roles@[i]) matches Some(c)
                && candidate@[i] != c) ==> es@.contains(
                ValidationError::ConfirmedMismatch { seat: i as usize },
            ),
        r matches Err(es) ==> (!spec_world_consistent(
            deck@,
            visible_roles@,
            observed_statements@,
            candidate@,
        ) ==> es@.contains(ValidationError::NoConsistentAssignment)),
{
    let n = candidate.len();
    let mut errs: Vec<ValidationError> = Vec::new();
    let mut i: usize = 0;
    while i < n
        invariant
            i <= n,
            n == candidate@.len(),
            confirmed_roles@.len() == n,
            (errs@.len() == 0) == (forall|i2: int|
                0 <= i2 < i ==> ((#[trigger] confirmed_roles@[i2]) matches Some(c)
                    ==> candidate@[i2] == c)),
            forall|k: int|
                0 <= k < errs@.len() ==> match (#[trigger] errs@[k]) {
                    ValidationError::ConfirmedMismatch { seat } => seat < n
                        && (confirmed_roles@[seat as int] matches Some(c)
                        && candidate@[seat as int] != c),
                    ValidationError::NoConsistentAssignment => false,
                },
            forall|i2: int|
                0 <= i2 < i && ((#[trigger] confirmed_roles@[i2]) matches Some(c)
                    && candidate@[i2] != c) ==> errs@.contains(
                    ValidationError::ConfirmedMismatch { seat: i2 as usize },
                ),
        decreases n - i,
    {
        let bad = match confirmed_roles[i] {
            Some(c) => !(c == candidate[i]),
            None => false,
        };
        if bad {
            let ghost before = errs@;
            errs.push(ValidationError::ConfirmedMismatch { seat: i });
            proof {
                lemma_push_contains(before, ValidationError::ConfirmedMismatch { seat: i });
            }
        }
        i = i + 1;
    }
    let choices = build_choices(candidate, deck);
    proof {
        assert(view_role_lists(choices.0@).len() == choices.0@.len());
        assert(view_role_lists(choices.1@).len() == choices.1@.len());
    }
    let mut wretch_assign: Vec<Role> = Vec::new();
    let mut disguise_assign: Vec<Role> = Vec::new();
    let consistent = dfs_check(
        candidate,
        &choices.0,
        &choices.1,
        visible_roles,
        observed_statements,
        0,
        &mut wretch_assign,
        &mut disguise_assign,
    );
    proof {
        assert(consistent == spec_world_consistent(
            deck@,
            visible_roles@,
            observed_statements@,
            candidate@,
        ));
    }
    if !consistent {
        let ghost before = errs@;
        errs.push(ValidationError::NoConsistentAssignment);
        proof {
            lemma_push_contains(before, ValidationError::NoConsistentAssignment);
        }
    }
    if errs.len() == 0 {
        Ok(())
    } else {
        Err(errs)
    }
}


/// One full internal assignment of a candidate world: every seat's Wretch
/// identity and face come from the seat's choice sets, every visible lock
/// is matched, and some corruption bitmap satisfies every observed
/// statement.
pub open spec fn spec_assignment_ok(
    deck: Seq<Role>,
    visible: Seq<Option<Role>>,
    observed: Seq<RoleStatement>,
    cand: Seq<Role>,
    wr: Seq<Role>,
    dis: Seq<Role>,
) -> bool {
    &&& wr.len() == cand.len()
    &&& dis.len() == cand.len()
    &&& forall|i: int|
        0 <= i < cand.len() ==> spec_wretch_choices_at(cand, deck, i).contains(#[trigger] wr[i])
    &&& forall|i: int|
        0 <= i < cand.len() ==> spec_disguise_choices_at(cand, deck, i).contains(#[trigger] dis[i])
    &&& forall|i: int| 0 <= i < cand.len() ==> spec_vis_ok(visible[i], #[trigger] dis[i])
    &&& spec_statements_match(cand, wr, dis, observed)
}

/// A successful search from seat `pos` extends the stacks to a full
/// assignment drawn from the choice sets that matches the visible locks
/// and satisfies the statements.
proof fn lemma_dfs_extends(
    cand: Seq<Role>,
    wc: Seq<Seq<Role>>,
    dc: Seq<Seq<Role>>,
    visible: Seq<Option<Role>>,
    observed: Seq<RoleStatement>,
    pos: int,
    ws: Seq<Role>,
    ds: Seq<Role>,
)
    requires
        spec_dfs(cand, wc, dc, visible, observed, pos, ws, ds),
        0 <= pos <= cand.len(),
        ws.len() == pos,
        ds.len() == pos,
        wc.len() == cand.len(),
        dc.len() == cand.len(),
        visible.len() == cand.len(),
    ensures
        exists|wr: Seq<Role>, dis: Seq<Role>|
            {
                &&& wr.len() == cand.len()
                &&& dis.len() == cand.len()
                &&& #[trigger] wr.take(pos) == ws
                &&& #[trigger] dis.take(pos) == ds
                &&& forall|i: int| pos <= i < cand.len() ==> wc[i].contains(#[trigger] wr[i])
                &&& forall|i: int| pos <= i < cand.len() ==> dc[i].contains(#[trigger] dis[i])
                &&& forall|i: int| pos <= i < cand.len() ==> spec_vis_ok(visible[i], #[trigger] dis[i])
                &&& spec_statements_match(cand, wr, dis, observed)
            },
    decreases cand.len() - pos,
{
    if pos == cand.len() {
        assert(ws.take(pos) =~= ws);
        assert(ds.take(pos) =~= ds);
        assert({
            &&& ws.len() == cand.len()
            &&& ds.len() == cand.len()
            &&& ws.take(pos) == ws
            &&& ds.take(pos) == ds
            &&& forall|i: int| pos <= i < cand.len() ==> wc[i].contains(ws[i])
            &&& forall|i: int| pos <= i < cand.len() ==> dc[i].contains(ds[i])
            &&& forall|i: int| pos <= i < cand.len() ==> spec_vis_ok(visible[i], ds[i])
            &&& spec_statements_match(cand, ws, ds, observed)
        });
    } else {
        let (a, b) = choose|a: int, b: int|
            0 <= a < wc[pos].len() && 0 <= b < dc[pos].len() && spec_vis_ok(visible[pos], dc[pos][b])
                && spec_dfs(
                cand,
                wc,
                dc,
                visible,
                observed,
                pos + 1,
                ws.push(wc[pos][a]),
                ds.push(dc[pos][b]),
            );
        let wx = wc[pos][a];
        let dx = dc[pos][b];
        lemma_dfs_extends(cand, wc, dc, visible, observed, pos + 1, ws.push(wx), ds.push(dx));
        let (wr, dis) = choose|wr: Seq<Role>, dis: Seq<Role>|
            {
                &&& wr.len() == cand.len()
                &&& dis.len() == cand.len()
                &&& #[trigger] wr.take(pos + 1) == ws.push(wx)
                &&& #[trigger] dis.take(pos + 1) == ds.push(dx)
                &&& forall|i: int| pos + 1 <= i < cand.len() ==> wc[i].contains(#[trigger] wr[i])
                &&& forall|i: int| pos + 1 <= i < cand.len() ==> dc[i].contains(#[trigger] dis[i])
                &&& forall|i: int|
                    pos + 1 <= i < cand.len() ==> spec_vis_ok(visible[i], #[trigger] dis[i])
                &&& spec_statements_match(cand, wr, dis, observed)
            };
        assert(wr.take(pos) =~= ws) by {
            assert forall|j: int| 0 <= j < pos implies wr.take(pos)[j] == ws[j] by {
                assert(wr.take(pos + 1)[j] == wr[j]);
                assert(ws.push(wx)[j] == ws[j]);
            }
        }
        assert(dis.take(pos) =~= ds) by {
            assert forall|j: int| 0 <= j < pos implies dis.take(pos)[j] == ds[j] by {
                assert(dis.take(pos + 1)[j] == dis[j]);
                assert(ds.push(dx)[j] == ds[j]);
            }
        }
        assert(wr[pos] == wx) by {
            assert(wr.take(pos + 1)[pos] == wr[pos]);
            assert(ws.push(wx)[pos] == wx);
        }
        assert(dis[pos] == dx) by {
            assert(dis.take(pos + 1)[pos] == dis[pos]);
            assert(ds.push(dx)[pos] == dx);
        }
        assert(wc[pos].contains(wr[pos])) by {
            assert(wc[pos][a] == wr[pos]);
        }
        assert(dc[pos].contains(dis[pos])) by {
            assert(dc[pos][b] == dis[pos]);
        }
        assert({
            &&& wr.len() == cand.len()
            &&& dis.len() == cand.len()
            &&& wr.take(pos) == ws
            &&& dis.take(pos) == ds
            &&& forall|i: int| pos <= i < cand.len() ==> wc[i].contains(#[trigger] wr[i])
            &&& forall|i: int| pos <= i < cand.len() ==> dc[i].contains(#[trigger] dis[i])
            &&& forall|i: int| pos <= i < cand.len() ==> spec_vis_ok(visible[i], #[trigger] dis[i])
            &&& spec_statements_match(cand, wr, dis, observed)
        });
    }
}

/// Every consistent world admits a full internal assignment: the disguise
/// satisfying the world matches every visible lock, and some corruption
/// bitmap makes every seat's observed statement acceptable.
pub proof fn lemma_consistent_world_witness(
    deck: Seq<Role>,
    visible: Seq<Option<Role>>,
    observed: Seq<RoleStatement>,
    cand: Seq<Role>,
)
    requires
        spec_world_consistent(deck, visible, observed, cand),
        visible.len() == cand.len(),
    ensures
        exists|wr: Seq<Role>, dis: Seq<Role>|
            spec_assignment_ok(deck, visible, observed, cand, wr, dis),
{
    let wc = Seq::new(cand.len(), |i: int| spec_wretch_choices_at(cand, deck, i));
    let dc = Seq::new(cand.len(), |i: int| spec_disguise_choices_at(cand, deck, i));
    lemma_dfs_extends(cand, wc, dc, visible, observed, 0, Seq::empty(), Seq::empty());
    let (wr, dis) = choose|wr: Seq<Role>, dis: Seq<Role>|
        {
            &&& wr.len() == cand.len()
            &&& dis.len() == cand.len()
            &&& #[trigger] wr.take(0) == Seq::<Role>::empty()
            &&& #[trigger] dis.take(0) == Seq::<Role>::empty()
            &&& forall|i: int| 0 <= i < cand.len() ==> wc[i].contains(#[trigger] wr[i])
            &&& forall|i: int| 0 <= i < cand.len() ==> dc[i].contains(#[trigger] dis[i])
            &&& forall|i: int| 0 <= i < cand.len() ==> spec_vis_ok(visible[i], #[trigger] dis[i])
            &&& spec_statements_match(cand, wr, dis, observed)
        };
    assert forall|i: int|
        0 <= i < cand.len() implies spec_wretch_choices_at(cand, deck, i).contains(
        #[trigger] wr[i],
    ) by {
        assert(wc[i] == spec_wretch_choices_at(cand, deck, i));
    }
    assert forall|i: int|
        0 <= i < cand.len() implies spec_disguise_choices_at(cand, deck, i).contains(
        #[trigger] dis[i],
    ) by {
        assert(dc[i] == spec_disguise_choices_at(cand, deck, i));
    }
    assert(spec_assignment_ok(deck, visible, observed, cand, wr, dis));
}

/// When no seating at all is consistent with the observations, the
/// solver's contract leaves it no world to emit: its result is empty.
pub proof fn lemma_no_world_no_results(
    deck: Seq<Role>,
    visible: Seq<Option<Role>>,
    confirmed: Seq<Option<Role>>,
    observed: Seq<RoleStatement>,
    villagers: int,
    outcasts: int,
    minions: int,
    demons: int,
    res: Seq<Vec<Role>>,
)
    requires
        spec_results_wf(deck, visible, confirmed, observed, villagers, outcasts, minions, demons,
            res),
        forall|w: Seq<Role>| !spec_world_consistent(deck, visible, observed, w),
    ensures
        res.len() == 0,
{
    if res.len() > 0 {
        assert(spec_entry_ok(deck, visible, confirmed, observed, villagers, outcasts, minions,
            demons, res[0]@));
        assert(!spec_world_consistent(deck, visible, observed, res[0]@));
    }
}

/// Every world the solver's contract admits meets the validator's success
/// condition: re-validating a solver result succeeds.
pub proof fn lemma_solver_world_validates(
    deck: Seq<Role>,
    visible: Seq<Option<Role>>,
    confirmed: Seq<Option<Role>>,
    observed: Seq<RoleStatement>,
    villagers: int,
    outcasts: int,
    minions: int,
    demons: int,
    res: Seq<Vec<Role>>,
    k: int,
)
    requires
        spec_results_wf(deck, visible, confirmed, observed, villagers, outcasts, minions, demons,
            res),
        0 <= k < res.len(),
    ensures
        spec_confirmed_ok(res[k]@, confirmed),
        spec_world_consistent(deck, visible, observed, res[k]@),
{
    assert(spec_entry_ok(deck, visible, confirmed, observed, villagers, outcasts, minions, demons,
        res[k]@));
}

/// Solving is deterministic as a set: any two results that meet the
/// solver's contract for the same input list exactly the same worlds,
/// whatever order they were found in. Membership is pinned both ways: a
/// listed world is admissible, passes the Counsellor rule, matches the
/// confirmed identities and is consistent, and every such world is listed.
pub proof fn lemma_solve_set_deterministic(
    deck: Seq<Role>,
    visible: Seq<Option<Role>>,
    confirmed: Seq<Option<Role>>,
    observed: Seq<RoleStatement>,
    villagers: int,
    outcasts: int,
    minions: int,
    demons: int,
    r1: Seq<Vec<Role>>,
    r2: Seq<Vec<Role>>,
)
    requires
        spec_results_wf(deck, visible, confirmed, observed, villagers, outcasts, minions, demons,
            r1),
        spec_results_wf(deck, visible, confirmed, observed, villagers, outcasts, minions, demons,
            r2),
        forall|w: Seq<Role>|
            w.len() == visible.len() && #[trigger] spec_admissible(
                deck,
                villagers,
                outcasts,
                minions,
                demons,
                w,
            ) && spec_counsellor_ok(w) && spec_confirmed_ok(w, confirmed)
                && spec_world_consistent(deck, visible, observed, w) ==> spec_covered(r1, w),
        forall|w: Seq<Role>|
            w.len() == visible.len() && #[trigger] spec_admissible(
                deck,
                villagers,
                outcasts,
                minions,
                demons,
                w,
            ) && spec_counsellor_ok(w) && spec_confirmed_ok(w, confirmed)
                && spec_world_consistent(deck, visible, observed, w) ==> spec_covered(r2, w),
    ensures
        forall|w: Seq<Role>| spec_covered(r1, w) == spec_covered(r2, w),
{
    assert forall|w: Seq<Role>| spec_covered(r1, w) == spec_covered(r2, w) by {
        if spec_covered(r1, w) {
            let k = choose|k: int| 0 <= k < r1.len() && (#[trigger] r1[k])@ == w;
            assert(spec_entry_ok(deck, visible, confirmed, observed, villagers, outcasts, minions,
                demons, r1[k]@));
            assert(spec_covered(r2, w));
        }
        if spec_covered(r2, w) {
            let k = choose|k: int| 0 <= k < r2.len() && (#[trigger] r2[k])@ == w;
            assert(spec_entry_ok(deck, visible, confirmed, observed, villagers, outcasts, minions,
                demons, r2[k]@));
            assert(spec_covered(r1, w));
        }
    }
}

} // verus!
