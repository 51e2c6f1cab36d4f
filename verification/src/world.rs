//! Candidate-world consistency: the Wretch and disguise choice sets each
//! seat allows, and the search that decides whether some choice of Wretch
//! identities, disguises and corruption bitmap satisfies every observed
//! statement.

use vstd::prelude::*;

use crate::corruption::{
    execute_corruption, execute_uncorruption, spec_corruption_configs, spec_uncorrupt,
    view_configs,
};
use crate::roles::{Alignment, Group, Role};
use crate::semantics::{can_produce_statement, spec_can_produce};
use crate::statements::{spec_stmt_wf, RoleStatement};

verus! {

/// The sequence of per-seat views of a list of role lists.
pub open spec fn view_role_lists(v: Seq<Vec<Role>>) -> Seq<Seq<Role>> {
    Seq::new(v.len(), |i: int| v[i]@)
}

/// Appending one role list appends its view.
pub proof fn lemma_view_role_lists_push(prev: Seq<Vec<Role>>, e: Vec<Role>)
    ensures
        view_role_lists(prev.push(e)) =~= view_role_lists(prev).push(e@),
{
    assert forall|c: int|
        0 <= c < view_role_lists(prev.push(e)).len() implies view_role_lists(prev.push(e))[c]
        == view_role_lists(prev).push(e@)[c] by {
        assert(view_role_lists(prev.push(e))[c] == prev.push(e)[c]@);
        if c < prev.len() {
            assert(view_role_lists(prev)[c] == prev[c]@);
        }
    }
}

/// The roles of group `g` among the first `k` entries, in order.
pub open spec fn spec_filter_group_upto(s: Seq<Role>, g: Group, k: int) -> Seq<Role>
    decreases k,
{
    if k <= 0 {
        Seq::empty()
    } else {
        let prev = spec_filter_group_upto(s, g, k - 1);
        if s[k - 1].spec_group() == g {
            prev.push(s[k - 1])
        } else {
            prev
        }
    }
}

/// The roles of group `g` in a seating, in order.
pub open spec fn spec_filter_group(s: Seq<Role>, g: Group) -> Seq<Role> {
    spec_filter_group_upto(s, g, s.len() as int)
}

/// The non-Evil roles among the first `k` entries, in order.
pub open spec fn spec_filter_non_evil_upto(s: Seq<Role>, k: int) -> Seq<Role>
    decreases k,
{
    if k <= 0 {
        Seq::empty()
    } else {
        let prev = spec_filter_non_evil_upto(s, k - 1);
        if !s[k - 1].spec_is_evil() {
            prev.push(s[k - 1])
        } else {
            prev
        }
    }
}

/// The non-Evil roles in a deck, in order.
pub open spec fn spec_filter_non_evil(s: Seq<Role>) -> Seq<Role> {
    spec_filter_non_evil_upto(s, s.len() as int)
}

/// The roles of group `g` among the first `k` entries that do not occur in
/// `excl`, in order.
pub open spec fn spec_filter_group_excl_upto(s: Seq<Role>, g: Group, excl: Seq<Role>, k: int) -> Seq<
    Role,
>
    decreases k,
{
    if k <= 0 {
        Seq::empty()
    } else {
        let prev = spec_filter_group_excl_upto(s, g, excl, k - 1);
        if s[k - 1].spec_group() == g && !excl.contains(s[k - 1]) {
            prev.push(s[k - 1])
        } else {
            prev
        }
    }
}

/// The roles of group `g` in a deck that do not occur in `excl`, in order.
pub open spec fn spec_filter_group_excl(s: Seq<Role>, g: Group, excl: Seq<Role>) -> Seq<Role> {
    spec_filter_group_excl_upto(s, g, excl, s.len() as int)
}

/// Collects the roles of group `g` in a list.
pub fn filter_group(s: &Vec<Role>, g: Group) -> (r: Vec<Role>)
    ensures
        r@ == spec_filter_group(s@, g),
{
    let mut r: Vec<Role> = Vec::new();
    let mut i: usize = 0;
    while i < s.len()
        invariant
            i <= s@.len(),
            r@ =~= spec_filter_group_upto(s@, g, i as int),
        decreases s@.len() - i,
    {
        if s[i].group() == g {
            r.push(s[i]);
        }
        i = i + 1;
    }
    r
}

/// Collects the non-Evil roles in a list.
pub fn filter_non_evil(s: &Vec<Role>) -> (r: Vec<Role>)
    ensures
        r@ == spec_filter_non_evil(s@),
{
    let mut r: Vec<Role> = Vec::new();
    let mut i: usize = 0;
    while i < s.len()
        invariant
            i <= s@.len(),
            r@ =~= spec_filter_non_evil_upto(s@, i as int),
        decreases s@.len() - i,
    {
        if !(s[i].alignment() == Alignment::Evil) {
            r.push(s[i]);
        }
        i = i + 1;
    }
    r
}

/// Whether a list holds a given role.
pub fn contains_role(s: &Vec<Role>, x: Role) -> (r: bool)
    ensures
        r == s@.contains(x),
{
    let mut i: usize = 0;
    while i < s.len()
        invariant
            i <= s@.len(),
            forall|j: int| 0 <= j < i ==> s@[j] != x,
        decreases s@.len() - i,
    {
        if s[i] == x {
            return true;
        }
        i = i + 1;
    }
    false
}

/// Collects the roles of group `g` in a list that do not occur in `excl`.
pub fn filter_group_excl(s: &Vec<Role>, g: Group, excl: &Vec<Role>) -> (r: Vec<Role>)
    ensures
        r@ == spec_filter_group_excl(s@, g, excl@),
{
    let mut r: Vec<Role> = Vec::new();
    let mut i: usize = 0;
    while i < s.len()
        invariant
            i <= s@.len(),
            r@ =~= spec_filter_group_excl_upto(s@, g, excl@, i as int),
        decreases s@.len() - i,
    {
        if s[i].group() == g && !contains_role(excl, s[i]) {
            r.push(s[i]);
        }
        i = i + 1;
    }
    r
}

/// Copies a role list.
pub fn copy_roles(s: &Vec<Role>) -> (r: Vec<Role>)
    ensures
        r@ == s@,
{
    let mut r: Vec<Role> = Vec::new();
    let mut i: usize = 0;
    while i < s.len()
        invariant
            i <= s@.len(),
            r@ =~= s@.subrange(0, i as int),
        decreases s@.len() - i,
    {
        r.push(s[i]);
        i = i + 1;
    }
    proof {
        assert(r@ =~= s@);
    }
    r
}

/// The Wretch identities seat `i` may assume: the seat's own role, except
/// that a Wretch may assume any Minion-group role of the deck.
pub open spec fn spec_wretch_choices_at(cand: Seq<Role>, deck: Seq<Role>, i: int) -> Seq<Role> {
    if cand[i] == Role::Wretch {
        spec_filter_group(deck, Group::Minion)
    } else {
        Seq::empty().push(cand[i])
    }
}

/// The faces seat `i` may show: its own role for most roles; any Villager
/// role of the deck not already in play for a Demon; any non-Evil deck role
/// for a Minion; any Villager role in play for the DoppelGanger.
pub open spec fn spec_disguise_choices_at(cand: Seq<Role>, deck: Seq<Role>, i: int) -> Seq<Role> {
    if cand[i].spec_group() == Group::Demon {
        spec_filter_group_excl(deck, Group::Villager, cand)
    } else if cand[i].spec_group() == Group::Minion {
        spec_filter_non_evil(deck)
    } else if cand[i] == Role::DoppelGanger {
        spec_filter_group(cand, Group::Villager)
    } else {
        Seq::empty().push(cand[i])
    }
}

/// Builds, for every seat, the Wretch identities and the faces the seat may
/// take in the candidate world.
pub fn build_choices(candidate: &Vec<Role>, deck: &Vec<Role>) -> (r: (Vec<Vec<Role>>, Vec<
    Vec<Role>,
>))
    ensures
        view_role_lists(r.0@) == Seq::new(candidate@.len(), |i: int| spec_wretch_choices_at(
            candidate@,
            deck@,
            i,
        )),
        view_role_lists(r.1@) == Seq::new(candidate@.len(), |i: int| spec_disguise_choices_at(
            candidate@,
            deck@,
            i,
        )),
{
    let n = candidate.len();
    let deck_minions = filter_group(deck, Group::Minion);
    let deck_non_evil = filter_non_evil(deck);
    let villagers_not_in_play = filter_group_excl(deck, Group::Villager, candidate);
    let villagers_in_play = filter_group(candidate, Group::Villager);
    let mut wc: Vec<Vec<Role>> = Vec::new();
    let mut dc: Vec<Vec<Role>> = Vec::new();
    let mut i: usize = 0;
    while i < n
        invariant
            i <= n,
            n == candidate@.len(),
            deck_minions@ == spec_filter_group(deck@, Group::Minion),
            deck_non_evil@ == spec_filter_non_evil(deck@),
            villagers_not_in_play@ == spec_filter_group_excl(deck@, Group::Villager, candidate@),
            villagers_in_play@ == spec_filter_group(candidate@, Group::Villager),
            view_role_lists(wc@) =~= Seq::new(i as nat, |j: int| spec_wretch_choices_at(
                candidate@,
                deck@,
                j,
            )),
            view_role_lists(dc@) =~= Seq::new(i as nat, |j: int| spec_disguise_choices_at(
                candidate@,
                deck@,
                j,
            )),
        decreases n - i,
    {
        let ghost prev_wc = wc@;
        let ghost prev_dc = dc@;
        let w_choice: Vec<Role> = if candidate[i] == Role::Wretch {
            copy_roles(&deck_minions)
        } else {
            let mut v: Vec<Role> = Vec::new();
            v.push(candidate[i]);
            v
        };
        let ghost wv = w_choice;
        proof {
            assert(wv@ == spec_wretch_choices_at(candidate@, deck@, i as int));
        }
        wc.push(w_choice);
        let d_choice: Vec<Role> = if candidate[i].group() == Group::Demon {
            copy_roles(&villagers_not_in_play)
        } else if candidate[i].group() == Group::Minion {
            copy_roles(&deck_non_evil)
        } else if candidate[i] == Role::DoppelGanger {
            copy_roles(&villagers_in_play)
        } else {
            let mut v: Vec<Role> = Vec::new();
            v.push(candidate[i]);
            v
        };
        let ghost dv = d_choice;
        proof {
            assert(dv@ == spec_disguise_choices_at(candidate@, deck@, i as int));
        }
        dc.push(d_choice);
        proof {
            lemma_view_role_lists_push(prev_wc, wv);
            lemma_view_role_lists_push(prev_dc, dv);
            assert(view_role_lists(wc@) =~= Seq::new((i + 1) as nat, |j: int|
                spec_wretch_choices_at(candidate@, deck@, j)));
            assert(view_role_lists(dc@) =~= Seq::new((i + 1) as nat, |j: int|
                spec_disguise_choices_at(candidate@, deck@, j)));
        }
        i = i + 1;
    }
    proof {
        assert(view_role_lists(wc@) =~= Seq::new(candidate@.len(), |j: int| spec_wretch_choices_at(
            candidate@,
            deck@,
            j,
        )));
        assert(view_role_lists(dc@) =~= Seq::new(candidate@.len(), |j: int|
            spec_disguise_choices_at(candidate@, deck@, j)));
    }
    (wc, dc)
}

/// Whether a seat's speaker lies: its true role lies by default, or the
/// seat is corrupted.
pub open spec fn spec_lying_flag(true_role: Role, corrupted: bool) -> bool {
    true_role.spec_lying() || corrupted
}

/// Whether, under one corruption bitmap, every seat with an observed
/// statement could have produced it: the bitmap first passes through the
/// Alchemist clearing, then each seat speaks as its face, on the branch its
/// true role and corruption select, over the Wretch-resolved world.
pub open spec fn spec_all_statements_ok(
    cand: Seq<Role>,
    wr: Seq<Role>,
    dis: Seq<Role>,
    observed: Seq<RoleStatement>,
    config: Seq<bool>,
) -> bool {
    let unc = spec_uncorrupt(cand, dis, config);
    forall|i: int|
        0 <= i < cand.len() ==> ((#[trigger] observed[i]) is NoStatement || spec_can_produce(
            dis[i],
            spec_lying_flag(cand[i], unc.0[i]),
            wr,
            dis,
            unc.0,
            unc.1,
            i,
            observed[i],
        ))
}

/// Whether some corruption bitmap of the candidate world satisfies every
/// observed statement.
pub open spec fn spec_statements_match(
    cand: Seq<Role>,
    wr: Seq<Role>,
    dis: Seq<Role>,
    observed: Seq<RoleStatement>,
) -> bool {
    let configs = spec_corruption_configs(cand, wr);
    exists|ci: int|
        0 <= ci < configs.len() && spec_all_statements_ok(cand, wr, dis, observed, configs[ci])
}

/// Tests a fully resolved candidate world against the observed statements,
/// trying every corruption bitmap the world admits.
pub fn statements_match(
    candidate: &Vec<Role>,
    wretch_assign: &Vec<Role>,
    disguise_assign: &Vec<Role>,
    observed_statements: &Vec<RoleStatement>,
) -> (r: bool)
    requires
        candidate@.len() < usize::MAX,
        wretch_assign@.len() == candidate@.len(),
        disguise_assign@.len() == candidate@.len(),
        observed_statements@.len() == candidate@.len(),
        forall|i: int|
            0 <= i < candidate@.len() ==> spec_stmt_wf(
                #[trigger] observed_statements@[i],
                candidate@.len() as int,
            ),
    ensures
        r == spec_statements_match(candidate@, wretch_assign@, disguise_assign@,
            observed_statements@),
{
    let n = candidate.len();
    let configs = execute_corruption(candidate, wretch_assign);
    let ghost sconfigs = spec_corruption_configs(candidate@, wretch_assign@);
    let mut ci: usize = 0;
    while ci < configs.len()
        invariant
            ci <= configs@.len(),
            n == candidate@.len() < usize::MAX,
            wretch_assign@.len() == n,
            disguise_assign@.len() == n,
            observed_statements@.len() == n,
            forall|i: int|
                0 <= i < n ==> spec_stmt_wf(#[trigger] observed_statements@[i], n as int),
            view_configs(configs@) == sconfigs,
            sconfigs == spec_corruption_configs(candidate@, wretch_assign@),
            forall|c2: int| 0 <= c2 < configs@.len() ==> (#[trigger] configs@[c2])@.len() == n,
            forall|c2: int|
                0 <= c2 < ci ==> !spec_all_statements_ok(
                    candidate@,
                    wretch_assign@,
                    disguise_assign@,
                    observed_statements@,
                    sconfigs[c2],
                ),
        decreases configs@.len() - ci,
    {
        let config = &configs[ci];
        proof {
            assert(config@ == sconfigs[ci as int]);
        }
        let unc = execute_uncorruption(candidate, disguise_assign, config);
        let corr = unc.0;
        let cleared = unc.1;
        let mut all_ok = true;
        let mut i: usize = 0;
        while i < n
            invariant
                i <= n,
                n == candidate@.len() < usize::MAX,
                wretch_assign@.len() == n,
                disguise_assign@.len() == n,
                observed_statements@.len() == n,
                corr@.len() == n,
                cleared@.len() == n,
                forall|i2: int|
                    0 <= i2 < n ==> spec_stmt_wf(#[trigger] observed_statements@[i2], n as int),
                (corr@, cleared@) == spec_uncorrupt(candidate@, disguise_assign@, config@),
                all_ok == forall|i2: int|
                    0 <= i2 < i ==> ((#[trigger] observed_statements@[i2]) is NoStatement
                        || spec_can_produce(
                        disguise_assign@[i2],
                        spec_lying_flag(candidate@[i2], corr@[i2]),
                        wretch_assign@,
                        disguise_assign@,
                        corr@,
                        cleared@,
                        i2,
                        observed_statements@[i2],
                    )),
            decreases n - i,
        {
            let skip = match &observed_statements[i] {
                RoleStatement::NoStatement => true,
                _ => false,
            };
            if !skip {
                let lying = candidate[i].lying() || corr[i];
                let ok = can_produce_statement(
                    disguise_assign[i],
                    lying,
                    wretch_assign,
                    disguise_assign,
                    &corr,
                    &cleared,
                    i,
                    &observed_statements[i],
                );
                if !ok {
                    all_ok = false;
                }
            }
            i = i + 1;
        }
        if all_ok {
            proof {
                assert(spec_all_statements_ok(
                    candidate@,
                    wretch_assign@,
                    disguise_assign@,
                    observed_statements@,
                    sconfigs[ci as int],
                ));
            }
            return true;
        }
        proof {
            assert(!spec_all_statements_ok(
                candidate@,
                wretch_assign@,
                disguise_assign@,
                observed_statements@,
                sconfigs[ci as int],
            ));
        }
        ci = ci + 1;
    }
    proof {
        assert(configs@.len() == sconfigs.len());
    }
    false
}

/// Whether a face is allowed by an observer's lock on the seat.
pub open spec fn spec_vis_ok(vis: Option<Role>, d: Role) -> bool {
    match vis {
        Some(v) => v == d,
        None => true,
    }
}

/// Whether, from seat `pos` on, the remaining seats can pick a Wretch
/// identity and a face from their choice sets, respecting the visible
/// locks, so that the completed world satisfies every observed statement.
/// The stacks `ws` and `ds` hold the choices of the seats before `pos`.
pub open spec fn spec_dfs(
    cand: Seq<Role>,
    wc: Seq<Seq<Role>>,
    dc: Seq<Seq<Role>>,
    visible: Seq<Option<Role>>,
    observed: Seq<RoleStatement>,
    pos: int,
    ws: Seq<Role>,
    ds: Seq<Role>,
) -> bool
    decreases cand.len() - pos,
{
    if pos < 0 || pos >= cand.len() {
        spec_statements_match(cand, ws, ds, observed)
    } else {
        exists|a: int, b: int|
            0 <= a < wc[pos].len() && 0 <= b < dc[pos].len() && spec_vis_ok(
                visible[pos],
                dc[pos][b],
            ) && spec_dfs(
                cand,
                wc,
                dc,
                visible,
                observed,
                pos + 1,
                ws.push(wc[pos][a]),
                ds.push(dc[pos][b]),
            )
    }
}

/// Depth-first search through the Wretch and disguise choices of the seats
/// from `pos` on, testing each completed world against the observed
/// statements.
pub fn dfs_check(
    candidate: &Vec<Role>,
    wretch_choices: &Vec<Vec<Role>>,
    disguise_choices: &Vec<Vec<Role>>,
    visible_roles: &Vec<Option<Role>>,
    observed_statements: &Vec<RoleStatement>,
    pos: usize,
    wretch_assign: &mut Vec<Role>,
    disguise_assign: &mut Vec<Role>,
) -> (r: bool)
    requires
        candidate@.len() < usize::MAX,
        wretch_choices@.len() == candidate@.len(),
        disguise_choices@.len() == candidate@.len(),
        visible_roles@.len() == candidate@.len(),
        observed_statements@.len() == candidate@.len(),
        pos <= candidate@.len(),
        old(wretch_assign)@.len() == pos,
        old(disguise_assign)@.len() == pos,
        forall|i: int|
            0 <= i < candidate@.len() ==> spec_stmt_wf(
                #[trigger] observed_statements@[i],
                candidate@.len() as int,
            ),
    ensures
        final(wretch_assign)@ == old(wretch_assign)@,
        final(disguise_assign)@ == old(disguise_assign)@,
        r == spec_dfs(
            candidate@,
            view_role_lists(wretch_choices@),
            view_role_lists(disguise_choices@),
            visible_roles@,
            observed_statements@,
            pos as int,
            old(wretch_assign)@,
            old(disguise_assign)@,
        ),
    decreases candidate@.len() - pos,
{
    let n = candidate.len();
    let ghost wcv = view_role_lists(wretch_choices@);
    let ghost dcv = view_role_lists(disguise_choices@);
    let ghost ws0 = wretch_assign@;
    let ghost ds0 = disguise_assign@;
    if pos == n {
        return statements_match(candidate, wretch_assign, disguise_assign, observed_statements);
    }
    let wn = wretch_choices[pos].len();
    let dn = disguise_choices[pos].len();
    proof {
        assert(wcv[pos as int] == wretch_choices@[pos as int]@);
        assert(dcv[pos as int] == disguise_choices@[pos as int]@);
    }
    let mut a: usize = 0;
    while a < wn
        invariant
            a <= wn,
            pos < n,
            n == candidate@.len() < usize::MAX,
            wretch_choices@.len() == n,
            disguise_choices@.len() == n,
            visible_roles@.len() == n,
            observed_statements@.len() == n,
            forall|i: int|
                0 <= i < n ==> spec_stmt_wf(#[trigger] observed_statements@[i], n as int),
            wcv == view_role_lists(wretch_choices@),
            dcv == view_role_lists(disguise_choices@),
            wn == wcv[pos as int].len(),
            dn == dcv[pos as int].len(),
            wretch_assign@ == ws0,
            disguise_assign@ == ds0,
            ws0 == old(wretch_assign)@,
            ds0 == old(disguise_assign)@,
            ws0.len() == pos,
            ds0.len() == pos,
            forall|a2: int, b2: int|
                0 <= a2 < a && 0 <= b2 < dn ==> !(spec_vis_ok(
                    visible_roles@[pos as int],
                    dcv[pos as int][b2],
                ) && spec_dfs(
                    candidate@,
                    wcv,
                    dcv,
                    visible_roles@,
                    observed_statements@,
                    pos as int + 1,
                    ws0.push(wcv[pos as int][a2]),
                    ds0.push(dcv[pos as int][b2]),
                )),
        decreases wn - a,
    {
        let w_choice = wretch_choices[pos][a];
        proof {
            assert(w_choice == wcv[pos as int][a as int]);
        }
        wretch_assign.push(w_choice);
        let mut b: usize = 0;
        while b < dn
            invariant
                b <= dn,
                a < wn,
                pos < n,
                n == candidate@.len() < usize::MAX,
                wretch_choices@.len() == n,
                disguise_choices@.len() == n,
                visible_roles@.len() == n,
                observed_statements@.len() == n,
                forall|i: int|
                    0 <= i < n ==> spec_stmt_wf(#[trigger] observed_statements@[i], n as int),
                wcv == view_role_lists(wretch_choices@),
                dcv == view_role_lists(disguise_choices@),
                wn == wcv[pos as int].len(),
                dn == dcv[pos as int].len(),
                w_choice == wcv[pos as int][a as int],
                wretch_assign@ == ws0.push(wcv[pos as int][a as int]),
                disguise_assign@ == ds0,
                ws0 == old(wretch_assign)@,
                ds0 == old(disguise_assign)@,
                ws0.len() == pos,
                ds0.len() == pos,
                forall|b2: int|
                    0 <= b2 < b ==> !(spec_vis_ok(visible_roles@[pos as int], dcv[pos as int][b2])
                        && spec_dfs(
                        candidate@,
                        wcv,
                        dcv,
                        visible_roles@,
                        observed_statements@,
                        pos as int + 1,
                        ws0.push(wcv[pos as int][a as int]),
                        ds0.push(dcv[pos as int][b2]),
                    )),
            decreases dn - b,
        {
            let d_choice = disguise_choices[pos][b];
            proof {
                assert(d_choice == dcv[pos as int][b as int]);
            }
            let allowed = match &visible_roles[pos] {
                Some(v) => *v == d_choice,
                None => true,
            };
            if allowed {
                disguise_assign.push(d_choice);
                let found = dfs_check(
                    candidate,
                    wretch_choices,
                    disguise_choices,
                    visible_roles,
                    observed_statements,
                    pos + 1,
                    wretch_assign,
                    disguise_assign,
                );
                disguise_assign.pop();
                proof {
                    assert(disguise_assign@ =~= ds0);
                }
                if found {
                    wretch_assign.pop();
                    proof {
                        assert(wretch_assign@ =~= ws0);
                        assert(spec_vis_ok(visible_roles@[pos as int], dcv[pos as int][b as int]));
                        assert(spec_dfs(
                            candidate@,
                            wcv,
                            dcv,
                            visible_roles@,
                            observed_statements@,
                            pos as int + 1,
                            ws0.push(wcv[pos as int][a as int]),
                            ds0.push(dcv[pos as int][b as int]),
                        ));
                    }
                    return true;
                }
            }
            b = b + 1;
        }
        wretch_assign.pop();
        proof {
            assert(wretch_assign@ =~= ws0);
        }
        a = a + 1;
    }
    proof {
        assert(!spec_dfs(
            candidate@,
            wcv,
            dcv,
            visible_roles@,
            observed_statements@,
            pos as int,
            ws0,
            ds0,
        ));
    }
    false
}

/// Whether some choice of Wretch identities and disguises allowed by the
/// candidate world and the deck, respecting the visible locks, satisfies
/// every observed statement.
pub open spec fn spec_world_consistent(
    deck: Seq<Role>,
    visible: Seq<Option<Role>>,
    observed: Seq<RoleStatement>,
    cand: Seq<Role>,
) -> bool {
    spec_dfs(
        cand,
        Seq::new(cand.len(), |i: int| spec_wretch_choices_at(cand, deck, i)),
        Seq::new(cand.len(), |i: int| spec_disguise_choices_at(cand, deck, i)),
        visible,
        observed,
        0,
        Seq::empty(),
        Seq::empty(),
    )
}

} // verus!
