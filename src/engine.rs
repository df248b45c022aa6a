use vstd::prelude::*;

use rand::rngs::ThreadRng;
use rand::Rng;

use crate::roll::{recorded, within_faces, RollResult, RollResultView};
use crate::scan::DiceToken;

verus! {

#[verifier::external_type_specification]
#[verifier::external_body]
pub struct ExThreadRng(rand::rngs::ThreadRng);

/// Relies on rand::thread_rng: it hands out the calling thread's generator.
/// Nothing is promised of the generator's state.
pub assume_specification[ rand::thread_rng ]() -> rand::rngs::ThreadRng;

/// Relies on rand's Rng::gen_range: a draw from the inclusive range
/// `1..=faces` lies within that range. It panics only on an empty range,
/// which `1 <= faces` rules out.
#[verifier::external_body]
fn draw_die(rng: &mut ThreadRng, faces: u16) -> (r: u16)
    requires
        1 <= faces,
    ensures
        1 <= r <= faces,
{
    rng.gen_range(1..=faces)
}

/// Rolls the dice of `token`: one result per die, each between one and the
/// faces.
pub fn roll_token(rng: &mut ThreadRng, token: DiceToken) -> (r: Vec<u128>)
    requires
        1 <= token.faces,
    ensures
        r@.len() == token.multiplier,
        within_faces(r@, token.faces as nat),
{
    let mut out: Vec<u128> = Vec::new();
    let mut k: u16 = 0;
    while k < token.multiplier
        invariant
            1 <= token.faces,
            k <= token.multiplier,
            out@.len() == k,
            within_faces(out@, token.faces as nat),
        decreases token.multiplier - k,
    {
        let d = draw_die(rng, token.faces);
        out.push(d as u128);
        k = k + 1;
    }
    out
}

/// Draws that dice `tokens` could come up: one sequence per token, one result
/// per die, each between one and the faces.
pub open spec fn fair_draws(tokens: Seq<DiceToken>, d: Seq<Seq<u128>>) -> bool {
    &&& d.len() == tokens.len()
    &&& forall|i: int|
        0 <= i < d.len() ==> (#[trigger] d[i]).len() == tokens[i].multiplier && within_faces(
            d[i],
            tokens[i].faces as nat,
        )
}

pub open spec fn empty_result() -> RollResultView {
    RollResultView { groups: Seq::empty(), total: 0 }
}

/// The result of pooling `tokens`, in order, where token `i` came up `d[i]`.
pub open spec fn tallied(tokens: Seq<DiceToken>, d: Seq<Seq<u128>>) -> RollResultView
    decreases tokens.len(),
{
    if tokens.len() == 0 || d.len() == 0 {
        empty_result()
    } else {
        recorded(tallied(tokens.drop_last(), d.drop_last()), tokens.last(), d.last())
    }
}

pub open spec fn all_faced(tokens: Seq<DiceToken>) -> bool {
    forall|i: int| 0 <= i < tokens.len() ==> 1 <= (#[trigger] tokens[i]).faces
}

/// Rolls every token and pools the dice by face count.
pub fn roll_all(rng: &mut ThreadRng, tokens: &Vec<DiceToken>) -> (r: RollResult)
    requires
        all_faced(tokens@),
    ensures
        r@.wf(),
        exists|d: Seq<Seq<u128>>| fair_draws(tokens@, d) && r@ == tallied(tokens@, d),
{
    let mut res = RollResult::new();
    let ghost mut d: Seq<Seq<u128>> = Seq::empty();
    let mut i: usize = 0;
    assert(res@.groups =~= empty_result().groups);
    assert(res@ == tallied(tokens@.take(0), d));
    while i < tokens.len()
        invariant
            all_faced(tokens@),
            i <= tokens@.len(),
            res@.wf(),
            res@.dice_count() <= 65535 * i,
            fair_draws(tokens@.take(i as int), d),
            res@ == tallied(tokens@.take(i as int), d),
        decreases tokens@.len() - i,
    {
        let t = tokens[i];
        assert(1 <= tokens@[i as int].faces);
        let draws = roll_token(rng, t);
        res.record(t, &draws);
        proof {
            let d2 = d.push(draws@);
            assert(tokens@.take(i + 1).drop_last() =~= tokens@.take(i as int));
            assert(d2.drop_last() =~= d);
            assert(fair_draws(tokens@.take(i + 1), d2)) by {
                assert forall|x: int| 0 <= x < d2.len() implies (#[trigger] d2[x]).len()
                    == tokens@.take(i + 1)[x].multiplier && within_faces(
                    d2[x],
                    tokens@.take(i + 1)[x].faces as nat,
                ) by {
                    if x < i {
                        assert(d2[x] == d[x]);
                        assert(tokens@.take(i + 1)[x] == tokens@.take(i as int)[x]);
                    }
                }
            }
            d = d2;
        }
        i = i + 1;
    }
    assert(tokens@.take(i as int) =~= tokens@);
    res
}

} // verus!
