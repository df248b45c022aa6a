use vstd::prelude::*;

use crate::scan::DiceToken;

verus! {

/// The largest number of dice one result may pool; with at most 65535 per die
/// the totals stay far inside `u128`.
pub const MAX_DICE: u128 = 0x1_0000_0000_0000_0000_0000_0000;

/// All dice of one face count rolled for one command.
pub struct RollSet {
    faces: u16,
    multiplier: u128,
    total: u128,
    results: Vec<u128>,
}

pub struct RollSetView {
    pub faces: nat,
    pub multiplier: nat,
    pub total: nat,
    /// Each die's result, in the order rolled.
    pub results: Seq<u128>,
}

impl View for RollSet {
    type V = RollSetView;

    closed spec fn view(&self) -> RollSetView {
        RollSetView {
            faces: self.faces as nat,
            multiplier: self.multiplier as nat,
            total: self.total as nat,
            results: self.results@,
        }
    }
}

pub open spec fn sum_of(s: Seq<u128>) -> nat
    decreases s.len(),
{
    if s.len() == 0 {
        0
    } else {
        sum_of(s.drop_last()) + s.last() as nat
    }
}

/// Every result lies between one and `faces`.
pub open spec fn within_faces(s: Seq<u128>, faces: nat) -> bool {
    forall|i: int| 0 <= i < s.len() ==> 1 <= #[trigger] s[i] && s[i] <= faces
}

impl RollSetView {
    /// One result per die, the total their sum, each within the faces.
    pub open spec fn wf(self) -> bool {
        &&& 1 <= self.faces <= 65535
        &&& self.multiplier == self.results.len()
        &&& self.total == sum_of(self.results)
        &&& within_faces(self.results, self.faces)
    }
}

/// The pooled outcome of one command: one set per face count, in the order in
/// which the face counts first appeared, and the grand total.
pub struct RollResult {
    rolls: Vec<RollSet>,
    total: u128,
}

pub struct RollResultView {
    pub groups: Seq<RollSetView>,
    pub total: nat,
}

impl View for RollResult {
    type V = RollResultView;

    closed spec fn view(&self) -> RollResultView {
        RollResultView { groups: self.rolls@.map_values(|g: RollSet| g@), total: self.total as nat }
    }
}

pub open spec fn groups_total(gs: Seq<RollSetView>) -> nat
    decreases gs.len(),
{
    if gs.len() == 0 {
        0
    } else {
        groups_total(gs.drop_last()) + gs.last().total
    }
}

/// How many dice the sets hold together.
pub open spec fn groups_count(gs: Seq<RollSetView>) -> nat
    decreases gs.len(),
{
    if gs.len() == 0 {
        0
    } else {
        groups_count(gs.drop_last()) + gs.last().results.len()
    }
}

pub open spec fn has_faces(gs: Seq<RollSetView>, faces: nat) -> bool {
    exists|i: int| 0 <= i < gs.len() && #[trigger] gs[i].faces == faces
}

impl RollResultView {
    pub open spec fn wf(self) -> bool {
        &&& forall|i: int| 0 <= i < self.groups.len() ==> (#[trigger] self.groups[i]).wf()
        &&& forall|i: int, j: int|
            0 <= i < j < self.groups.len() ==> (#[trigger] self.groups[i]).faces
                != (#[trigger] self.groups[j]).faces
        &&& self.total == groups_total(self.groups)
        &&& groups_count(self.groups) <= MAX_DICE
    }

    pub open spec fn dice_count(self) -> nat {
        groups_count(self.groups)
    }
}

/// `r` after the dice of `t`, which came up `draws`, are pooled into it: into
/// the set of their face count where there is one, else into a new set at the
/// end.
pub open spec fn recorded(r: RollResultView, t: DiceToken, draws: Seq<u128>) -> RollResultView {
    if has_faces(r.groups, t.faces as nat) {
        let i = choose|i: int| 0 <= i < r.groups.len() && #[trigger] r.groups[i].faces == t.faces as nat;
        let g = r.groups[i];
        RollResultView {
            groups: r.groups.update(
                i,
                RollSetView {
                    faces: g.faces,
                    multiplier: g.multiplier + t.multiplier as nat,
                    total: g.total + sum_of(draws),
                    results: g.results + draws,
                },
            ),
            total: r.total + sum_of(draws),
        }
    } else {
        RollResultView {
            groups: r.groups.push(
                RollSetView {
                    faces: t.faces as nat,
                    multiplier: t.multiplier as nat,
                    total: sum_of(draws),
                    results: draws,
                },
            ),
            total: r.total + sum_of(draws),
        }
    }
}

proof fn lemma_sum_concat(a: Seq<u128>, b: Seq<u128>)
    ensures
        sum_of(a + b) == sum_of(a) + sum_of(b),
    decreases b.len(),
{
    if b.len() == 0 {
        assert(a + b =~= a);
    } else {
        lemma_sum_concat(a, b.drop_last());
        assert((a + b).drop_last() =~= a + b.drop_last());
    }
}

/// Results within `[1, faces]` sum to between their count and `faces` times it.
pub proof fn lemma_sum_bounds(s: Seq<u128>, faces: nat)
    requires
        within_faces(s, faces),
    ensures
        s.len() <= sum_of(s) <= faces * s.len(),
    decreases s.len(),
{
    if s.len() > 0 {
        let p = s.drop_last();
        assert(within_faces(p, faces)) by {
            assert forall|i: int| 0 <= i < p.len() implies 1 <= #[trigger] p[i] && p[i] <= faces by {
                assert(p[i] == s[i]);
            }
        }
        lemma_sum_bounds(p, faces);
        assert(faces * p.len() + faces == faces * s.len()) by (nonlinear_arith)
            requires
                p.len() + 1 == s.len(),
        ;
    }
}

proof fn lemma_groups_update(gs: Seq<RollSetView>, i: int, g: RollSetView)
    requires
        0 <= i < gs.len(),
    ensures
        groups_total(gs.update(i, g)) + gs[i].total == groups_total(gs) + g.total,
        groups_count(gs.update(i, g)) + gs[i].results.len() == groups_count(gs) + g.results.len(),
    decreases gs.len(),
{
    let u = gs.update(i, g);
    if i < gs.len() - 1 {
        lemma_groups_update(gs.drop_last(), i, g);
        assert(u.drop_last() =~= gs.drop_last().update(i, g));
    } else {
        assert(u.drop_last() =~= gs.drop_last());
    }
}

proof fn lemma_groups_total_bound(gs: Seq<RollSetView>)
    requires
        forall|i: int| 0 <= i < gs.len() ==> (#[trigger] gs[i]).wf(),
    ensures
        groups_total(gs) <= 65535 * groups_count(gs),
    decreases gs.len(),
{
    if gs.len() > 0 {
        let g = gs.last();
        assert(g.wf());
        lemma_groups_total_bound(gs.drop_last());
        lemma_sum_bounds(g.results, g.faces);
        assert(g.faces * g.results.len() <= 65535 * g.results.len()) by (nonlinear_arith)
            requires
                g.faces <= 65535,
        ;
    }
}

proof fn lemma_groups_member(gs: Seq<RollSetView>, i: int)
    requires
        0 <= i < gs.len(),
    ensures
        gs[i].total <= groups_total(gs),
        gs[i].results.len() <= groups_count(gs),
    decreases gs.len(),
{
    if i < gs.len() - 1 {
        lemma_groups_member(gs.drop_last(), i);
    }
}

impl RollSet {
    pub fn faces(&self) -> (r: u16)
        ensures
            r == self@.faces,
    {
        self.faces
    }

    /// How many dice of these faces were rolled.
    pub fn multiplier(&self) -> (r: u128)
        ensures
            r == self@.multiplier,
    {
        self.multiplier
    }

    pub fn total(&self) -> (r: u128)
        ensures
            r == self@.total,
    {
        self.total
    }

    /// Each die's result, in the order rolled.
    pub fn results(&self) -> (r: &Vec<u128>)
        ensures
            r@ == self@.results,
    {
        &self.results
    }
}

impl RollResult {
    /// A result with no dice in it.
    pub fn new() -> (r: RollResult)
        ensures
            r@.wf(),
            r@.groups.len() == 0,
            r@.total == 0,
    {
        let r = RollResult { rolls: Vec::new(), total: 0 };
        assert(r@.groups =~= Seq::<RollSetView>::empty());
        r
    }

    /// The grand total over all sets.
    pub fn total(&self) -> (r: u128)
        ensures
            r == self@.total,
    {
        self.total
    }

    /// The sets, in the order in which their face counts first appeared.
    pub fn rolls(&self) -> (r: &Vec<RollSet>)
        ensures
            r@.map_values(|g: RollSet| g@) == self@.groups,
    {
        &self.rolls
    }

    /// Pools the dice of `token`, which came up `draws`.
    pub fn record(&mut self, token: DiceToken, draws: &Vec<u128>)
        requires
            old(self)@.wf(),
            1 <= token.faces,
            draws@.len() == token.multiplier,
            within_faces(draws@, token.faces as nat),
            old(self)@.dice_count() + draws@.len() <= MAX_DICE,
        ensures
            final(self)@.wf(),
            final(self)@ == recorded(old(self)@, token, draws@),
            final(self)@.dice_count() == old(self)@.dice_count() + draws@.len(),
    {
        let ghost old_view = self@;
        let mut sum: u128 = 0;
        let mut k: usize = 0;
        while k < draws.len()
            invariant
                k <= draws@.len(),
                within_faces(draws@, token.faces as nat),
                token.faces <= 65535,
                sum == sum_of(draws@.take(k as int)),
                sum <= 65535 * k,
            decreases draws@.len() - k,
        {
            assert(draws@.take(k + 1).drop_last() =~= draws@.take(k as int));
            assert(draws@[k as int] <= 65535);
            sum = sum + draws[k];
            k = k + 1;
        }
        assert(draws@.take(k as int) =~= draws@);
        proof {
            lemma_sum_bounds(draws@, token.faces as nat);
            lemma_groups_total_bound(old_view.groups);
            assert(token.faces * draws@.len() <= 65535 * draws@.len()) by (nonlinear_arith)
                requires
                    token.faces <= 65535,
            ;
        }
        let mut j: usize = 0;
        while j < self.rolls.len() && self.rolls[j].faces != token.faces
            invariant
                self@ == old_view,
                j <= self.rolls@.len(),
                forall|i: int| 0 <= i < j ==> self@.groups[i].faces != token.faces as nat,
            decreases self.rolls@.len() - j,
        {
            j = j + 1;
        }
        if j < self.rolls.len() {
            let mut g = self.rolls.remove(j);
            let ghost g_old = g@;
            assert(g_old == old_view.groups[j as int]);
            proof {
                lemma_groups_member(old_view.groups, j as int);
            }
            let mut k: usize = 0;
            while k < draws.len()
                invariant
                    k <= draws@.len(),
                    g.results@ == g_old.results + draws@.take(k as int),
                    g.faces == g_old.faces,
                    g.multiplier == g_old.multiplier,
                    g.total == g_old.total,
                decreases draws@.len() - k,
            {
                g.results.push(draws[k]);
                k = k + 1;
                assert(g.results@ =~= g_old.results + draws@.take(k as int));
            }
            assert(draws@.take(k as int) =~= draws@);
            g.multiplier = g.multiplier + token.multiplier as u128;
            g.total = g.total + sum;
            let ghost g_new = g@;
            self.rolls.insert(j, g);
            self.total = self.total + sum;
            proof {
                let gs = old_view.groups;
                assert(has_faces(gs, token.faces as nat));
                let i = choose|i: int| 0 <= i < gs.len() && #[trigger] gs[i].faces == token.faces as nat;
                assert(i == j);
                lemma_sum_concat(g_old.results, draws@);
                lemma_groups_update(gs, j as int, g_new);
                assert(self@.groups =~= gs.update(j as int, g_new));
                assert(within_faces(g_new.results, g_new.faces)) by {
                    assert forall|x: int| 0 <= x < g_new.results.len() implies 1 <= #[trigger] g_new.results[x] && g_new.results[x] <= g_new.faces by {
                        if x < g_old.results.len() {
                            assert(g_new.results[x] == g_old.results[x]);
                        } else {
                            assert(g_new.results[x] == draws@[x - g_old.results.len()]);
                        }
                    }
                }
                assert(g_new.wf());
            }
        } else {
            let mut results: Vec<u128> = Vec::new();
            let mut k: usize = 0;
            while k < draws.len()
                invariant
                    k <= draws@.len(),
                    results@ == draws@.take(k as int),
                decreases draws@.len() - k,
            {
                results.push(draws[k]);
                k = k + 1;
                assert(results@ =~= draws@.take(k as int));
            }
            assert(draws@.take(k as int) =~= draws@);
            let g = RollSet { faces: token.faces, multiplier: token.multiplier as u128, total: sum, results };
            let ghost g_new = g@;
            self.rolls.push(g);
            self.total = self.total + sum;
            proof {
                let gs = old_view.groups;
                assert(!has_faces(gs, token.faces as nat));
                assert(self@.groups =~= gs.push(g_new));
                assert(self@.groups.drop_last() =~= gs);
            }
        }
    }
}

} // verus!
