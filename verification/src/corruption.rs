//! The corruption engine: enumerates every corruption bitmap the
//! corruption-producing roles can elect, and the Alchemist clearing pass
//! that prunes a bitmap and records how many corruptions each Alchemist
//! cleared.

use vstd::prelude::*;

use crate::geometry::{neighbor_indexes, spec_left, spec_right};
use crate::roles::{Group, Role};

verus! {

/// The sequence of per-seat views of a list of election lists.
pub open spec fn view_lists(v: Seq<Vec<usize>>) -> Seq<Seq<usize>> {
    Seq::new(v.len(), |i: int| v[i]@)
}

/// The sequence of per-seat views of a list of corruption bitmaps.
pub open spec fn view_configs(v: Seq<Vec<bool>>) -> Seq<Seq<bool>> {
    Seq::new(v.len(), |i: int| v[i]@)
}

/// Appending one election list appends its view.
proof fn lemma_view_lists_push(prev: Seq<Vec<usize>>, e: Vec<usize>)
    ensures
        view_lists(prev.push(e)) =~= view_lists(prev).push(e@),
{
    assert forall|c: int| 0 <= c < view_lists(prev.push(e)).len() implies view_lists(prev.push(e))[c]
        == view_lists(prev).push(e@)[c] by {
        assert(view_lists(prev.push(e))[c] == prev.push(e)[c]@);
        if c < prev.len() {
            assert(view_lists(prev)[c] == prev[c]@);
        }
    }
}

/// The election lists contributed by Pooka seats among the first `k` seats:
/// one independent single-choice election per eligible Villager neighbour,
/// counter-clockwise neighbour first.
pub open spec fn spec_pooka_options_upto(s: Seq<Role>, w: Seq<Role>, k: int) -> Seq<Seq<usize>>
    decreases k,
{
    if k <= 0 {
        Seq::empty()
    } else {
        let prev = spec_pooka_options_upto(s, w, k - 1);
        if s[k - 1] == Role::Pooka {
            let n = s.len() as int;
            let l = spec_left(n, k - 1, 1);
            let r = spec_right(n, k - 1, 1);
            let with_l = if w[l].spec_group() == Group::Villager {
                prev.push(Seq::empty().push(l as usize))
            } else {
                prev
            };
            if w[r].spec_group() == Group::Villager {
                with_l.push(Seq::empty().push(r as usize))
            } else {
                with_l
            }
        } else {
            prev
        }
    }
}

/// The Villager-group neighbours a Poisoner at seat `i` may elect,
/// counter-clockwise neighbour first.
pub open spec fn spec_poisoner_eligible(w: Seq<Role>, n: int, i: int) -> Seq<usize> {
    let l = spec_left(n, i, 1);
    let r = spec_right(n, i, 1);
    let el0: Seq<usize> = Seq::empty();
    let el1 = if w[l].spec_group() == Group::Villager {
        el0.push(l as usize)
    } else {
        el0
    };
    if w[r].spec_group() == Group::Villager {
        el1.push(r as usize)
    } else {
        el1
    }
}

/// The election lists contributed by Poisoner seats among the first `k`
/// seats: one election over the eligible Villager neighbours, when any
/// exists.
pub open spec fn spec_poisoner_options_upto(s: Seq<Role>, w: Seq<Role>, k: int) -> Seq<Seq<usize>>
    decreases k,
{
    if k <= 0 {
        Seq::empty()
    } else {
        let prev = spec_poisoner_options_upto(s, w, k - 1);
        if s[k - 1] == Role::Poisoner {
            let eligible = spec_poisoner_eligible(w, s.len() as int, k - 1);
            if eligible.len() > 0 {
                prev.push(eligible)
            } else {
                prev
            }
        } else {
            prev
        }
    }
}

/// The Villager seats among the first `k` seats, in seat order.
pub open spec fn spec_villager_seats_upto(w: Seq<Role>, k: int) -> Seq<usize>
    decreases k,
{
    if k <= 0 {
        Seq::empty()
    } else {
        let prev = spec_villager_seats_upto(w, k - 1);
        if w[k - 1].spec_group() == Group::Villager {
            prev.push((k - 1) as usize)
        } else {
            prev
        }
    }
}

/// The election lists contributed by PlagueDoctor seats among the first `k`
/// seats: one election over every Villager seat, when any exists.
pub open spec fn spec_plague_options_upto(s: Seq<Role>, w: Seq<Role>, k: int) -> Seq<Seq<usize>>
    decreases k,
{
    if k <= 0 {
        Seq::empty()
    } else {
        let prev = spec_plague_options_upto(s, w, k - 1);
        if s[k - 1] == Role::PlagueDoctor {
            let eligible = spec_villager_seats_upto(w, w.len() as int);
            if eligible.len() > 0 {
                prev.push(eligible)
            } else {
                prev
            }
        } else {
            prev
        }
    }
}

/// All election lists, in elector priority order: Pooka first, then
/// Poisoner, then PlagueDoctor, each in seat order.
pub open spec fn spec_poison_options(s: Seq<Role>, w: Seq<Role>) -> Seq<Seq<usize>> {
    let k = s.len() as int;
    spec_pooka_options_upto(s, w, k) + spec_poisoner_options_upto(s, w, k)
        + spec_plague_options_upto(s, w, k)
}

/// Every target in every election list is a seat of a table of size `n`.
pub open spec fn spec_options_wf(opts: Seq<Seq<usize>>, n: int) -> bool {
    forall|i: int, t: int|
        0 <= i < opts.len() && 0 <= t < opts[i].len() ==> (#[trigger] opts[i][t]) < n
}

/// Whether an elector still has a target that is not already corrupted.
pub open spec fn spec_any_fresh(opt: Seq<usize>, cur: Seq<bool>) -> bool {
    exists|t: int| 0 <= t < opt.len() && !cur[opt[t] as int]
}

/// The corruption bitmaps produced from election list `idx` onward, given
/// the corruption accumulated so far: the Cartesian product of each
/// elector's fresh choices, skipping an elector with no fresh target.
pub open spec fn spec_combine(opts: Seq<Seq<usize>>, idx: int, cur: Seq<bool>) -> Seq<Seq<bool>>
    decreases opts.len() - idx, opts[idx].len() + 1,
{
    if idx < 0 || idx >= opts.len() {
        seq![cur]
    } else if spec_any_fresh(opts[idx], cur) {
        spec_branches(opts, idx, cur, opts[idx].len() as int)
    } else {
        spec_combine(opts, idx + 1, cur)
    }
}

/// The bitmaps produced by the first `k` targets of election list `idx`:
/// for each fresh target, all bitmaps that follow from corrupting it.
pub open spec fn spec_branches(opts: Seq<Seq<usize>>, idx: int, cur: Seq<bool>, k: int) -> Seq<
    Seq<bool>,
>
    decreases opts.len() - idx, k,
{
    if idx < 0 || idx >= opts.len() || k <= 0 {
        Seq::empty()
    } else {
        let rest = spec_branches(opts, idx, cur, k - 1);
        let t = opts[idx][k - 1] as int;
        if !cur[t] {
            rest + spec_combine(opts, idx + 1, cur.update(t, true))
        } else {
            rest
        }
    }
}

/// Every bitmap that the product emits keeps the table size.
pub proof fn lemma_combine_lens(opts: Seq<Seq<usize>>, idx: int, cur: Seq<bool>, n: int)
    requires
        spec_options_wf(opts, n),
        cur.len() == n,
    ensures
        forall|c: int|
            0 <= c < spec_combine(opts, idx, cur).len() ==> (#[trigger] spec_combine(
                opts,
                idx,
                cur,
            )[c]).len() == n,
        spec_combine(opts, idx, cur).len() >= 1,
    decreases opts.len() - idx, opts[idx].len() + 1,
{
    if idx < 0 || idx >= opts.len() {
    } else if spec_any_fresh(opts[idx], cur) {
        let t0 = choose|t: int| 0 <= t < opts[idx].len() && !cur[opts[idx][t] as int];
        let klen = opts[idx].len() as int;
        lemma_branches_lens(opts, idx, cur, klen, n);
        lemma_branches_fresh_nonempty(opts, idx, cur, klen, n, t0);
        assert(spec_combine(opts, idx, cur) == spec_branches(opts, idx, cur, klen));
        assert forall|c: int| 0 <= c < spec_combine(opts, idx, cur).len() implies (
        #[trigger] spec_combine(opts, idx, cur)[c]).len() == n by {
            assert(spec_combine(opts, idx, cur)[c] == spec_branches(opts, idx, cur, klen)[c]);
        }
    } else {
        lemma_combine_lens(opts, idx + 1, cur, n);
    }
}

/// Every bitmap a branch pass emits keeps the table size.
proof fn lemma_branches_lens(opts: Seq<Seq<usize>>, idx: int, cur: Seq<bool>, k: int, n: int)
    requires
        spec_options_wf(opts, n),
        cur.len() == n,
        0 <= idx < opts.len() ==> k <= opts[idx].len(),
    ensures
        forall|c: int|
            0 <= c < spec_branches(opts, idx, cur, k).len() ==> (#[trigger] spec_branches(
                opts,
                idx,
                cur,
                k,
            )[c]).len() == n,
    decreases opts.len() - idx, k,
{
    if idx < 0 || idx >= opts.len() || k <= 0 {
    } else {
        lemma_branches_lens(opts, idx, cur, k - 1, n);
        let t = opts[idx][k - 1] as int;
        let rest = spec_branches(opts, idx, cur, k - 1);
        assert(0 <= t < n);
        if !cur[t] {
            let next = cur.update(t, true);
            assert(next.len() == n);
            lemma_combine_lens(opts, idx + 1, next, n);
            let sub = spec_combine(opts, idx + 1, next);
            assert(spec_branches(opts, idx, cur, k) == rest + sub);
            assert forall|c: int| 0 <= c < spec_branches(opts, idx, cur, k).len() implies (
            #[trigger] spec_branches(opts, idx, cur, k)[c]).len() == n by {
                if c < rest.len() {
                    assert(spec_branches(opts, idx, cur, k)[c] == rest[c]);
                } else {
                    assert(spec_branches(opts, idx, cur, k)[c] == sub[c - rest.len()]);
                }
            }
        } else {
            assert(spec_branches(opts, idx, cur, k) == rest);
        }
    }
}

/// An elector with no fresh target left contributes nothing through the
/// branch pass.
proof fn lemma_branches_no_fresh(opts: Seq<Seq<usize>>, idx: int, cur: Seq<bool>, k: int)
    requires
        forall|t: int| 0 <= t < k ==> 0 <= idx < opts.len() ==> cur[opts[idx][t] as int],
    ensures
        spec_branches(opts, idx, cur, k).len() == 0,
    decreases opts.len() - idx, k,
{
    if idx < 0 || idx >= opts.len() || k <= 0 {
    } else {
        lemma_branches_no_fresh(opts, idx, cur, k - 1);
    }
}

/// A branch pass that still has a fresh target ahead emits at least one
/// bitmap.
proof fn lemma_branches_fresh_nonempty(
    opts: Seq<Seq<usize>>,
    idx: int,
    cur: Seq<bool>,
    k: int,
    n: int,
    t0: int,
)
    requires
        spec_options_wf(opts, n),
        cur.len() == n,
        0 <= idx < opts.len(),
        0 <= t0 < k,
        k <= opts[idx].len(),
        !cur[opts[idx][t0] as int],
    ensures
        spec_branches(opts, idx, cur, k).len() >= 1,
    decreases opts.len() - idx, k,
{
    let t = opts[idx][k - 1] as int;
    if t0 == k - 1 {
        lemma_combine_lens(opts, idx + 1, cur.update(t, true), n);
    } else {
        lemma_branches_fresh_nonempty(opts, idx, cur, k - 1, n, t0);
    }
}

/// All corruption bitmaps a candidate world must be tested against.
pub open spec fn spec_corruption_configs(s: Seq<Role>, w: Seq<Role>) -> Seq<Seq<bool>> {
    spec_combine(spec_poison_options(s, w), 0, Seq::new(s.len(), |i: int| false))
}

/// Builds the election lists of every corruption-producing seat, in
/// priority order.
fn build_poison_options(true_roles: &Vec<Role>, wretch_assign: &Vec<Role>) -> (opts: Vec<
    Vec<usize>,
>)
    requires
        wretch_assign@.len() == true_roles@.len(),
    ensures
        view_lists(opts@) == spec_poison_options(true_roles@, wretch_assign@),
        spec_options_wf(view_lists(opts@), true_roles@.len() as int),
{
    let n = true_roles.len();
    let mut opts: Vec<Vec<usize>> = Vec::new();
    let mut i: usize = 0;
    while i < n
        invariant
            i <= n,
            n == true_roles@.len(),
            n == wretch_assign@.len(),
            view_lists(opts@) =~= spec_pooka_options_upto(true_roles@, wretch_assign@, i as int),
            forall|a: int, t: int|
                0 <= a < opts@.len() && 0 <= t < opts@[a]@.len() ==> (#[trigger] opts@[a]@[t]) < n,
        decreases n - i,
    {
        if true_roles[i] == Role::Pooka {
            let idx = neighbor_indexes(n, i, 1);
            if wretch_assign[idx[0]].group() == Group::Villager {
                let mut e: Vec<usize> = Vec::new();
                e.push(idx[0]);
                opts.push(e);
            }
            if wretch_assign[idx[1]].group() == Group::Villager {
                let mut e: Vec<usize> = Vec::new();
                e.push(idx[1]);
                opts.push(e);
            }
            proof {
                assert(view_lists(opts@) =~= spec_pooka_options_upto(
                    true_roles@,
                    wretch_assign@,
                    i as int + 1,
                ));
            }
        }
        i = i + 1;
    }
    let ghost pooka = view_lists(opts@);
    let mut i: usize = 0;
    while i < n
        invariant
            i <= n,
            n == true_roles@.len(),
            n == wretch_assign@.len(),
            pooka == spec_pooka_options_upto(true_roles@, wretch_assign@, n as int),
            view_lists(opts@) =~= pooka + spec_poisoner_options_upto(
                true_roles@,
                wretch_assign@,
                i as int,
            ),
            forall|a: int, t: int|
                0 <= a < opts@.len() && 0 <= t < opts@[a]@.len() ==> (#[trigger] opts@[a]@[t]) < n,
        decreases n - i,
    {
        if true_roles[i] == Role::Poisoner {
            let idx = neighbor_indexes(n, i, 1);
            proof {
                let nn = n as int;
                assert(idx@[0] == spec_left(nn, i as int, 1) as usize);
                assert(idx@[1] == spec_right(nn, i as int, 1) as usize);
            }
            let mut e: Vec<usize> = Vec::new();
            if wretch_assign[idx[0]].group() == Group::Villager {
                e.push(idx[0]);
            }
            if wretch_assign[idx[1]].group() == Group::Villager {
                e.push(idx[1]);
            }
            proof {
                assert(e@ =~= spec_poisoner_eligible(wretch_assign@, n as int, i as int));
            }
            let ghost prev_opts = opts@;
            let ghost ev = e;
            if e.len() > 0 {
                opts.push(e);
            }
            proof {
                let up1 = spec_poisoner_options_upto(true_roles@, wretch_assign@, i as int + 1);
                let up0 = spec_poisoner_options_upto(true_roles@, wretch_assign@, i as int);
                let el = spec_poisoner_eligible(wretch_assign@, n as int, i as int);
                assert(up1 == if el.len() > 0 { up0.push(el) } else { up0 });
                if el.len() > 0 {
                    lemma_view_lists_push(prev_opts, ev);
                    assert((pooka + up0).push(el) =~= pooka + up0.push(el));
                }
                assert(view_lists(opts@) =~= pooka + up1);
            }
        }
        i = i + 1;
    }
    let ghost pooka_poisoner = view_lists(opts@);
    // the Villager seats, shared by every PlagueDoctor elector
    let mut villagers: Vec<usize> = Vec::new();
    let mut j: usize = 0;
    while j < n
        invariant
            j <= n,
            n == wretch_assign@.len(),
            villagers@ =~= spec_villager_seats_upto(wretch_assign@, j as int),
            forall|t: int| 0 <= t < villagers@.len() ==> (#[trigger] villagers@[t]) < n,
        decreases n - j,
    {
        if wretch_assign[j].group() == Group::Villager {
            villagers.push(j);
        }
        j = j + 1;
    }
    let mut i: usize = 0;
    while i < n
        invariant
            i <= n,
            n == true_roles@.len(),
            n == wretch_assign@.len(),
            pooka_poisoner == spec_pooka_options_upto(true_roles@, wretch_assign@, n as int)
                + spec_poisoner_options_upto(true_roles@, wretch_assign@, n as int),
            villagers@ == spec_villager_seats_upto(wretch_assign@, n as int),
            forall|t: int| 0 <= t < villagers@.len() ==> (#[trigger] villagers@[t]) < n,
            view_lists(opts@) =~= pooka_poisoner + spec_plague_options_upto(
                true_roles@,
                wretch_assign@,
                i as int,
            ),
            forall|a: int, t: int|
                0 <= a < opts@.len() && 0 <= t < opts@[a]@.len() ==> (#[trigger] opts@[a]@[t]) < n,
        decreases n - i,
    {
        if true_roles[i] == Role::PlagueDoctor {
            let ghost prev_opts = opts@;
            if villagers.len() > 0 {
                let e = villagers.clone();
                proof {
                    assert(e@ =~= villagers@);
                }
                let ghost ev = e;
                opts.push(e);
                proof {
                    lemma_view_lists_push(prev_opts, ev);
                }
            }
            proof {
                let up1 = spec_plague_options_upto(true_roles@, wretch_assign@, i as int + 1);
                let up0 = spec_plague_options_upto(true_roles@, wretch_assign@, i as int);
                let el = spec_villager_seats_upto(wretch_assign@, n as int);
                assert(up1 == if el.len() > 0 { up0.push(el) } else { up0 });
                if el.len() > 0 {
                    assert((pooka_poisoner + up0).push(el) =~= pooka_poisoner + up0.push(el));
                }
                assert(view_lists(opts@) =~= pooka_poisoner + up1);
            }
        }
        i = i + 1;
    }
    proof {
        assert(view_lists(opts@) =~= spec_poison_options(true_roles@, wretch_assign@));
    }
    opts
}

/// Walks the Cartesian product of the election lists, appending each
/// resulting bitmap to `result`.
fn combine_configs(
    opts: &Vec<Vec<usize>>,
    idx: usize,
    cur: &Vec<bool>,
    result: &mut Vec<Vec<bool>>,
)
    requires
        idx <= opts@.len(),
        spec_options_wf(view_lists(opts@), cur@.len() as int),
    ensures
        view_configs(final(result)@) == view_configs(old(result)@) + spec_combine(
            view_lists(opts@),
            idx as int,
            cur@,
        ),
    decreases opts@.len() - idx,
{
    let ghost vopts = view_lists(opts@);
    if idx == opts.len() {
        result.push(cur.clone());
        proof {
            assert(view_configs(result@) =~= view_configs(old(result)@) + spec_combine(
                vopts,
                idx as int,
                cur@,
            ));
        }
        return ;
    }
    let total = opts.len();
    let opt = &opts[idx];
    proof {
        assert(opt@ == vopts[idx as int]);
    }
    let mut any = false;
    let mut k: usize = 0;
    while k < opt.len()
        invariant
            k <= opt@.len(),
            idx < total,
            total == opts@.len(),
            opt@ == view_lists(opts@)[idx as int],
            spec_options_wf(view_lists(opts@), cur@.len() as int),
            any == exists|t: int| 0 <= t < k && !cur@[opt@[t] as int],
            view_configs(result@) =~= view_configs(old(result)@) + spec_branches(
                view_lists(opts@),
                idx as int,
                cur@,
                k as int,
            ),
        decreases opt@.len() - k,
    {
        let t = opt[k];
        proof {
            assert(opt@[k as int] < cur@.len());
        }
        if !cur[t] {
            any = true;
            let mut next = cur.clone();
            next.set(t, true);
            combine_configs(opts, idx + 1, &next, result);
        }
        k = k + 1;
        proof {
            assert(view_configs(result@) =~= view_configs(old(result)@) + spec_branches(
                view_lists(opts@),
                idx as int,
                cur@,
                k as int,
            ));
        }
    }
    proof {
        assert(any == spec_any_fresh(view_lists(opts@)[idx as int], cur@));
    }
    if !any {
        proof {
            lemma_branches_no_fresh(view_lists(opts@), idx as int, cur@, opt@.len() as int);
        }
        combine_configs(opts, idx + 1, cur, result);
        proof {
            assert(view_configs(result@) =~= view_configs(old(result)@) + spec_combine(
                view_lists(opts@),
                idx as int,
                cur@,
            ));
        }
    }
}

/// Enumerates every corruption bitmap that the corruption-producing roles in
/// a candidate world can elect: each Pooka corrupts its Villager neighbours,
/// each Poisoner one Villager neighbour, each PlagueDoctor any Villager
/// seat, and electors are combined as a Cartesian product that skips targets
/// already corrupted. At least one bitmap always comes back, and each has
/// one flag per seat.
pub fn execute_corruption(true_roles: &Vec<Role>, wretch_assign: &Vec<Role>) -> (r: Vec<Vec<bool>>)
    requires
        wretch_assign@.len() == true_roles@.len(),
    ensures
        view_configs(r@) == spec_corruption_configs(true_roles@, wretch_assign@),
        r@.len() >= 1,
        forall|c: int| 0 <= c < r@.len() ==> (#[trigger] r@[c])@.len() == true_roles@.len(),
{
    let n = true_roles.len();
    let opts = build_poison_options(true_roles, wretch_assign);
    let mut cur: Vec<bool> = Vec::new();
    let mut i: usize = 0;
    while i < n
        invariant
            i <= n,
            cur@ =~= Seq::new(i as nat, |j: int| false),
        decreases n - i,
    {
        cur.push(false);
        i = i + 1;
    }
    proof {
        assert(cur@ =~= Seq::new(true_roles@.len(), |j: int| false));
    }
    let mut result: Vec<Vec<bool>> = Vec::new();
    combine_configs(&opts, 0, &cur, &mut result);
    proof {
        lemma_combine_lens(view_lists(opts@), 0, cur@, n as int);
        assert(view_configs(result@) =~= spec_corruption_configs(true_roles@, wretch_assign@));
        assert forall|c: int| 0 <= c < result@.len() implies (#[trigger] result@[c])@.len()
            == true_roles@.len() by {
            assert(view_configs(result@)[c] == result@[c]@);
        }
        assert(result@.len() == view_configs(result@).len());
    }
    result
}

/// One clearing step: if seat `j` is corrupted, clear it and count it.
pub open spec fn spec_clear_one(st: (Seq<bool>, int), j: int) -> (Seq<bool>, int) {
    if st.0[j] {
        (st.0.update(j, false), st.1 + 1)
    } else {
        st
    }
}

/// The Alchemist at seat `i` clears its neighbours at offsets 1 and 2,
/// counter-clockwise before clockwise, nearer ring first; an offset past the
/// table size is skipped.
pub open spec fn spec_clear_seat(corr: Seq<bool>, i: int) -> (Seq<bool>, int) {
    let n = corr.len() as int;
    let st1 = spec_clear_one(
        spec_clear_one((corr, 0), spec_left(n, i, 1)),
        spec_right(n, i, 1),
    );
    if 2 <= n {
        spec_clear_one(spec_clear_one(st1, spec_left(n, i, 2)), spec_right(n, i, 2))
    } else {
        st1
    }
}

/// The corruption bitmap and per-seat cleared counts after the Alchemist
/// clearing pass has run over the first `k` seats: a seat whose face is an
/// uncorrupted, truthful Alchemist clears its nearby corruptions and records
/// how many it cleared.
pub open spec fn spec_uncorrupt_upto(s: Seq<Role>, dis: Seq<Role>, corr: Seq<bool>, k: int) -> (
    Seq<bool>,
    Seq<usize>,
)
    decreases k,
{
    if k <= 0 {
        (corr, Seq::empty())
    } else {
        let prev = spec_uncorrupt_upto(s, dis, corr, k - 1);
        if dis[k - 1] == Role::Alchemist && !prev.0[k - 1] && !s[k - 1].spec_lying() {
            let step = spec_clear_seat(prev.0, k - 1);
            (step.0, prev.1.push(step.1 as usize))
        } else {
            (prev.0, prev.1.push(0))
        }
    }
}

/// The corruption bitmap and per-seat cleared counts after the full
/// Alchemist clearing pass.
pub open spec fn spec_uncorrupt(s: Seq<Role>, dis: Seq<Role>, corr: Seq<bool>) -> (
    Seq<bool>,
    Seq<usize>,
)
{
    spec_uncorrupt_upto(s, dis, corr, s.len() as int)
}

/// The clearing pass never changes the size of the bitmap.
pub proof fn lemma_uncorrupt_lens(s: Seq<Role>, dis: Seq<Role>, corr: Seq<bool>, k: int)
    requires
        corr.len() == s.len(),
        0 <= k <= s.len(),
    ensures
        spec_uncorrupt_upto(s, dis, corr, k).0.len() == s.len(),
        spec_uncorrupt_upto(s, dis, corr, k).1.len() == k,
    decreases k,
{
    if k > 0 {
        lemma_uncorrupt_lens(s, dis, corr, k - 1);
    }
}

/// One executable clearing step over the bitmap, returning the updated
/// cleared count.
fn clear_one(c: &mut Vec<bool>, cleared: usize, j: usize) -> (r: usize)
    requires
        j < old(c)@.len(),
        cleared < 100,
    ensures
        final(c)@ == spec_clear_one((old(c)@, cleared as int), j as int).0,
        r as int == spec_clear_one((old(c)@, cleared as int), j as int).1,
{
    if c[j] {
        c.set(j, false);
        cleared + 1
    } else {
        cleared
    }
}

/// Runs the Alchemist clearing pass once over a corruption bitmap,
/// returning the pruned bitmap and, for every seat, the number of
/// corruptions its Alchemist cleared.
pub fn execute_uncorruption(
    true_roles: &Vec<Role>,
    disguised_roles: &Vec<Role>,
    corruption: &Vec<bool>,
) -> (r: (Vec<bool>, Vec<usize>))
    requires
        disguised_roles@.len() == true_roles@.len(),
        corruption@.len() == true_roles@.len(),
    ensures
        (r.0@, r.1@) == spec_uncorrupt(true_roles@, disguised_roles@, corruption@),
        r.0@.len() == true_roles@.len(),
        r.1@.len() == true_roles@.len(),
{
    let n = true_roles.len();
    let mut c: Vec<bool> = corruption.clone();
    let mut cl: Vec<usize> = Vec::new();
    let mut i: usize = 0;
    while i < n
        invariant
            i <= n,
            n == true_roles@.len(),
            n == disguised_roles@.len(),
            n == corruption@.len(),
            c@ == spec_uncorrupt_upto(true_roles@, disguised_roles@, corruption@, i as int).0,
            cl@ == spec_uncorrupt_upto(true_roles@, disguised_roles@, corruption@, i as int).1,
            c@.len() == n,
        decreases n - i,
    {
        if disguised_roles[i] == Role::Alchemist && !c[i] && !true_roles[i].lying() {
            let mut cleared: usize = 0;
            let idx1 = neighbor_indexes(n, i, 1);
            cleared = clear_one(&mut c, cleared, idx1[0]);
            cleared = clear_one(&mut c, cleared, idx1[1]);
            if 2 <= n {
                let idx2 = neighbor_indexes(n, i, 2);
                cleared = clear_one(&mut c, cleared, idx2[0]);
                cleared = clear_one(&mut c, cleared, idx2[1]);
            }
            cl.push(cleared);
        } else {
            cl.push(0);
        }
        i = i + 1;
    }
    proof {
        lemma_uncorrupt_lens(true_roles@, disguised_roles@, corruption@, n as int);
    }
    (c, cl)
}



/// Every election target is a seat of the table whose Wretch-resolved
/// identity is Villager-group.
pub open spec fn spec_option_targets_ok(opts: Seq<Seq<usize>>, w: Seq<Role>) -> bool {
    forall|i: int, t: int|
        0 <= i < opts.len() && 0 <= t < opts[i].len() ==> ((#[trigger] opts[i][t]) as int) < w.len()
            && w[opts[i][t] as int].spec_group() == Group::Villager
}

/// Whether one election list holds only Villager-group seats of the table.
pub open spec fn spec_list_targets_ok(e: Seq<usize>, w: Seq<Role>) -> bool {
    forall|t: int|
        0 <= t < e.len() ==> ((#[trigger] e[t]) as int) < w.len() && w[e[t] as int].spec_group()
            == Group::Villager
}

proof fn lemma_targets_ok_push(opts: Seq<Seq<usize>>, e: Seq<usize>, w: Seq<Role>)
    requires
        spec_option_targets_ok(opts, w),
        spec_list_targets_ok(e, w),
    ensures
        spec_option_targets_ok(opts.push(e), w),
{
    assert forall|i: int, t: int|
        0 <= i < opts.push(e).len() && 0 <= t < opts.push(e)[i].len() implies ((
    #[trigger] opts.push(e)[i][t]) as int) < w.len() && w[opts.push(e)[i][t] as int].spec_group()
        == Group::Villager by {
        if i < opts.len() {
            assert(opts.push(e)[i] == opts[i]);
            assert(opts[i][t] == opts[i][t]);
        } else {
            assert(opts.push(e)[i] == e);
            assert(e[t] == e[t]);
        }
    }
}

proof fn lemma_pooka_targets_ok(s: Seq<Role>, w: Seq<Role>, k: int)
    requires
        w.len() == s.len(),
        0 < s.len() <= usize::MAX,
        0 <= k <= s.len(),
    ensures
        spec_option_targets_ok(spec_pooka_options_upto(s, w, k), w),
    decreases k,
{
    if k > 0 {
        lemma_pooka_targets_ok(s, w, k - 1);
        let prev = spec_pooka_options_upto(s, w, k - 1);
        if s[k - 1] == Role::Pooka {
            let n = s.len() as int;
            assert(0 <= spec_left(n, k - 1, 1) < n) by (nonlinear_arith)
                requires
                    n > 0,
            ;
            assert(0 <= spec_right(n, k - 1, 1) < n) by (nonlinear_arith)
                requires
                    n > 0,
            ;
            let l = spec_left(n, k - 1, 1);
            let r = spec_right(n, k - 1, 1);
            let le = Seq::<usize>::empty().push(l as usize);
            let re = Seq::<usize>::empty().push(r as usize);
            let with_l = if w[l].spec_group() == Group::Villager {
                prev.push(le)
            } else {
                prev
            };
            if w[l].spec_group() == Group::Villager {
                assert(spec_list_targets_ok(le, w)) by {
                    assert(le[0] == l as usize);
                }
                lemma_targets_ok_push(prev, le, w);
            }
            if w[r].spec_group() == Group::Villager {
                assert(spec_list_targets_ok(re, w)) by {
                    assert(re[0] == r as usize);
                }
                lemma_targets_ok_push(with_l, re, w);
            }
        }
    }
}

proof fn lemma_poisoner_targets_ok(s: Seq<Role>, w: Seq<Role>, k: int)
    requires
        w.len() == s.len(),
        0 < s.len() <= usize::MAX,
        0 <= k <= s.len(),
    ensures
        spec_option_targets_ok(spec_poisoner_options_upto(s, w, k), w),
    decreases k,
{
    if k > 0 {
        lemma_poisoner_targets_ok(s, w, k - 1);
        let prev = spec_poisoner_options_upto(s, w, k - 1);
        if s[k - 1] == Role::Poisoner {
            let n = s.len() as int;
            assert(0 <= spec_left(n, k - 1, 1) < n) by (nonlinear_arith)
                requires
                    n > 0,
            ;
            assert(0 <= spec_right(n, k - 1, 1) < n) by (nonlinear_arith)
                requires
                    n > 0,
            ;
            let l = spec_left(n, k - 1, 1);
            let r = spec_right(n, k - 1, 1);
            let el = spec_poisoner_eligible(w, n, k - 1);
            assert forall|t: int|
                0 <= t < el.len() implies ((#[trigger] el[t]) as int) < w.len() && w[
            el[t] as int].spec_group() == Group::Villager by {
                let el0: Seq<usize> = Seq::empty();
                let el1 = if w[l].spec_group() == Group::Villager {
                    el0.push(l as usize)
                } else {
                    el0
                };
                if t < el1.len() {
                    assert(el[t] == el1[t]);
                    assert(el1[t] == l as usize);
                } else {
                    assert(el[t] == r as usize);
                }
            }
            if el.len() > 0 {
                lemma_targets_ok_push(prev, el, w);
            }
        }
    }
}

proof fn lemma_villager_seats_ok(w: Seq<Role>, k: int)
    requires
        0 <= k <= w.len() <= usize::MAX,
    ensures
        spec_list_targets_ok(spec_villager_seats_upto(w, k), w),
    decreases k,
{
    if k > 0 {
        lemma_villager_seats_ok(w, k - 1);
        let prev = spec_villager_seats_upto(w, k - 1);
        let cur = spec_villager_seats_upto(w, k);
        assert forall|t: int|
            0 <= t < cur.len() implies ((#[trigger] cur[t]) as int) < w.len() && w[
        cur[t] as int].spec_group() == Group::Villager by {
            if t < prev.len() {
                assert(cur[t] == prev[t]);
                assert(prev[t] == prev[t]);
            } else {
                assert(cur[t] == (k - 1) as usize);
            }
        }
    }
}

proof fn lemma_plague_targets_ok(s: Seq<Role>, w: Seq<Role>, k: int)
    requires
        w.len() == s.len(),
        s.len() <= usize::MAX,
        0 <= k <= s.len(),
    ensures
        spec_option_targets_ok(spec_plague_options_upto(s, w, k), w),
    decreases k,
{
    if k > 0 {
        lemma_plague_targets_ok(s, w, k - 1);
        let prev = spec_plague_options_upto(s, w, k - 1);
        if s[k - 1] == Role::PlagueDoctor {
            let el = spec_villager_seats_upto(w, w.len() as int);
            lemma_villager_seats_ok(w, w.len() as int);
            if el.len() > 0 {
                lemma_targets_ok_push(prev, el, w);
            }
        }
    }
}

proof fn lemma_concat_targets_ok(a: Seq<Seq<usize>>, b: Seq<Seq<usize>>, w: Seq<Role>)
    requires
        spec_option_targets_ok(a, w),
        spec_option_targets_ok(b, w),
    ensures
        spec_option_targets_ok(a + b, w),
{
    assert forall|i: int, t: int|
        0 <= i < (a + b).len() && 0 <= t < (a + b)[i].len() implies (((#[trigger] (a + b)[i][t]) as int)
        < w.len() && w[(a + b)[i][t] as int].spec_group() == Group::Villager) by {
        if i < a.len() {
            assert((a + b)[i] == a[i]);
            assert(a[i][t] == a[i][t]);
        } else {
            assert((a + b)[i] == b[i - a.len()]);
            assert(b[i - a.len()][t] == b[i - a.len()][t]);
        }
    }
}

/// All election lists together target Villager-group seats only.
proof fn lemma_poison_options_targets_ok(s: Seq<Role>, w: Seq<Role>)
    requires
        w.len() == s.len(),
        s.len() <= usize::MAX,
    ensures
        spec_option_targets_ok(spec_poison_options(s, w), w),
{
    let k = s.len() as int;
    if s.len() == 0 {
        assert(spec_poison_options(s, w).len() == 0);
    } else {
        lemma_pooka_targets_ok(s, w, k);
        lemma_poisoner_targets_ok(s, w, k);
        lemma_plague_targets_ok(s, w, k);
        lemma_concat_targets_ok(
            spec_pooka_options_upto(s, w, k),
            spec_poisoner_options_upto(s, w, k),
            w,
        );
        lemma_concat_targets_ok(
            spec_pooka_options_upto(s, w, k) + spec_poisoner_options_upto(s, w, k),
            spec_plague_options_upto(s, w, k),
            w,
        );
    }
}

proof fn lemma_combine_villager_only(
    opts: Seq<Seq<usize>>,
    idx: int,
    cur: Seq<bool>,
    w: Seq<Role>,
)
    requires
        spec_option_targets_ok(opts, w),
        cur.len() == w.len(),
        forall|j: int| 0 <= j < w.len() && #[trigger] cur[j] ==> w[j].spec_group() == Group::Villager,
    ensures
        forall|c: int, j: int|
            0 <= c < spec_combine(opts, idx, cur).len() && 0 <= j < w.len() && (
            #[trigger] spec_combine(opts, idx, cur)[c][j]) ==> w[j].spec_group() == Group::Villager,
    decreases opts.len() - idx, opts[idx].len() + 1,
{
    if idx < 0 || idx >= opts.len() {
        assert forall|c: int, j: int|
            0 <= c < spec_combine(opts, idx, cur).len() && 0 <= j < w.len() && (
        #[trigger] spec_combine(opts, idx, cur)[c][j]) implies w[j].spec_group()
            == Group::Villager by {
            assert(spec_combine(opts, idx, cur)[c] == cur);
            assert(cur[j] == spec_combine(opts, idx, cur)[c][j]);
        }
    } else if spec_any_fresh(opts[idx], cur) {
        let klen = opts[idx].len() as int;
        lemma_branches_villager_only(opts, idx, cur, w, klen);
        assert forall|c: int, j: int|
            0 <= c < spec_combine(opts, idx, cur).len() && 0 <= j < w.len() && (
        #[trigger] spec_combine(opts, idx, cur)[c][j]) implies w[j].spec_group()
            == Group::Villager by {
            assert(spec_combine(opts, idx, cur)[c] == spec_branches(opts, idx, cur, klen)[c]);
            assert(spec_branches(opts, idx, cur, klen)[c][j] == spec_combine(opts, idx, cur)[c][j]);
        }
    } else {
        lemma_combine_villager_only(opts, idx + 1, cur, w);
        assert forall|c: int, j: int|
            0 <= c < spec_combine(opts, idx, cur).len() && 0 <= j < w.len() && (
        #[trigger] spec_combine(opts, idx, cur)[c][j]) implies w[j].spec_group()
            == Group::Villager by {
            assert(spec_combine(opts, idx, cur)[c] == spec_combine(opts, idx + 1, cur)[c]);
            assert(spec_combine(opts, idx + 1, cur)[c][j] == spec_combine(opts, idx, cur)[c][j]);
        }
    }
}

proof fn lemma_branches_villager_only(
    opts: Seq<Seq<usize>>,
    idx: int,
    cur: Seq<bool>,
    w: Seq<Role>,
    k: int,
)
    requires
        spec_option_targets_ok(opts, w),
        cur.len() == w.len(),
        forall|j: int| 0 <= j < w.len() && #[trigger] cur[j] ==> w[j].spec_group() == Group::Villager,
        0 <= idx < opts.len() ==> k <= opts[idx].len(),
    ensures
        forall|c: int, j: int|
            0 <= c < spec_branches(opts, idx, cur, k).len() && 0 <= j < w.len() && (
            #[trigger] spec_branches(opts, idx, cur, k)[c][j]) ==> w[j].spec_group()
                == Group::Villager,
    decreases opts.len() - idx, k,
{
    if idx < 0 || idx >= opts.len() || k <= 0 {
    } else {
        lemma_branches_villager_only(opts, idx, cur, w, k - 1);
        let rest = spec_branches(opts, idx, cur, k - 1);
        let t = opts[idx][k - 1] as int;
        assert(opts[idx][k - 1] == opts[idx][k - 1]);
        if !cur[t] {
            let next = cur.update(t, true);
            assert forall|j: int|
                0 <= j < w.len() && #[trigger] next[j] implies w[j].spec_group()
                == Group::Villager by {
                if j != t {
                    assert(cur[j]);
                }
            }
            lemma_combine_villager_only(opts, idx + 1, next, w);
            let sub = spec_combine(opts, idx + 1, next);
            assert forall|c: int, j: int|
                0 <= c < spec_branches(opts, idx, cur, k).len() && 0 <= j < w.len() && (
            #[trigger] spec_branches(opts, idx, cur, k)[c][j]) implies w[j].spec_group()
                == Group::Villager by {
                if c < rest.len() {
                    assert(spec_branches(opts, idx, cur, k)[c] == rest[c]);
                    assert(rest[c][j] == spec_branches(opts, idx, cur, k)[c][j]);
                } else {
                    assert(spec_branches(opts, idx, cur, k)[c] == sub[c - rest.len()]);
                    assert(sub[c - rest.len()][j] == spec_branches(opts, idx, cur, k)[c][j]);
                }
            }
        } else {
            assert(spec_branches(opts, idx, cur, k) == rest);
        }
    }
}

/// Only Villager-group seats are ever corrupted: every bitmap the engine
/// can emit marks seats whose Wretch-resolved identity is a Villager.
pub proof fn lemma_corruption_hits_villagers_only(s: Seq<Role>, w: Seq<Role>)
    requires
        w.len() == s.len(),
        s.len() <= usize::MAX,
    ensures
        forall|c: int, j: int|
            0 <= c < spec_corruption_configs(s, w).len() && 0 <= j < s.len() && (
            #[trigger] spec_corruption_configs(s, w)[c][j]) ==> w[j].spec_group()
                == Group::Villager,
{
    lemma_poison_options_targets_ok(s, w);
    lemma_combine_villager_only(
        spec_poison_options(s, w),
        0,
        Seq::new(s.len(), |i: int| false),
        w,
    );
}

} // verus!
