use vstd::prelude::*;

use crate::roll::{RollResult, RollResultView, RollSet, RollSetView};
use crate::text::push_char;

verus! {

pub open spec fn digit_char(d: nat) -> char {
    ((d + 48) as u8) as char
}

/// The decimal digits of `n`, without leading zeros.
pub open spec fn decimal(n: nat) -> Seq<char>
    decreases n,
{
    if n < 10 {
        seq![digit_char(n)]
    } else {
        decimal(n / 10).push(digit_char(n % 10))
    }
}

/// Appends the decimal digits of `n`.
pub fn push_decimal(out: &mut String, n: u128)
    ensures
        final(out)@ == old(out)@ + decimal(n as nat),
    decreases n,
{
    if n >= 10 {
        push_decimal(out, n / 10);
    }
    let d = (n % 10) as u8;
    push_char(out, (d + 48) as char);
}

/// Each result on a line of its own.
pub open spec fn results_text(rs: Seq<u128>) -> Seq<char>
    decreases rs.len(),
{
    if rs.len() == 0 {
        Seq::empty()
    } else {
        results_text(rs.drop_last()) + "\n  "@ + decimal(rs.last() as nat)
    }
}

/// The results of a set are listed when there are two to nine of them; from
/// ten on one line stands in for them.
pub open spec fn listing(rs: Seq<u128>) -> Seq<char> {
    if 1 < rs.len() && rs.len() < 10 {
        results_text(rs)
    } else if rs.len() >= 10 {
        "\n  >: | Thats a lot of dice, you'll just have to trust me."@
    } else {
        Seq::empty()
    }
}

/// A line `<multiplier> x d<faces> - <total>`, then the listing.
pub open spec fn group_text(g: RollSetView) -> Seq<char> {
    "\n "@ + decimal(g.multiplier) + " x d"@ + decimal(g.faces) + " - "@ + decimal(g.total)
        + listing(g.results)
}

pub open spec fn groups_text(gs: Seq<RollSetView>) -> Seq<char>
    decreases gs.len(),
{
    if gs.len() == 0 {
        Seq::empty()
    } else {
        groups_text(gs.drop_last()) + group_text(gs.last())
    }
}

/// `Result: <total>.` unless there is exactly one set.
pub open spec fn header(r: RollResultView) -> Seq<char> {
    if r.groups.len() == 1 {
        Seq::empty()
    } else {
        "Result: "@ + decimal(r.total) + "."@
    }
}

/// The display text of a result: the header, then each set in order.
pub open spec fn rendered(r: RollResultView) -> Seq<char> {
    header(r) + groups_text(r.groups)
}

impl RollSet {
    /// Appends the display text of this set.
    pub fn push_text(&self, out: &mut String)
        ensures
            final(out)@ == old(out)@ + group_text(self@),
    {
        let ghost start = out@;
        out.append("\n ");
        push_decimal(out, self.multiplier());
        out.append(" x d");
        push_decimal(out, self.faces() as u128);
        out.append(" - ");
        push_decimal(out, self.total());
        let rs = self.results();
        let ghost before = out@;
        if 1 < rs.len() && rs.len() < 10 {
            let mut i: usize = 0;
            while i < rs.len()
                invariant
                    i <= rs@.len(),
                    out@ == before + results_text(rs@.take(i as int)),
                decreases rs@.len() - i,
            {
                assert(rs@.take(i + 1).drop_last() =~= rs@.take(i as int));
                out.append("\n  ");
                push_decimal(out, rs[i]);
                i = i + 1;
                assert(out@ =~= before + results_text(rs@.take(i as int)));
            }
            assert(rs@.take(i as int) =~= rs@);
        } else if rs.len() >= 10 {
            out.append("\n  >: | Thats a lot of dice, you'll just have to trust me.");
        }
        assert(out@ =~= start + group_text(self@));
    }
}

impl RollResult {
    /// The display text of this result.
    pub fn to_string(&self) -> (r: String)
        ensures
            r@ == rendered(self@),
    {
        let mut out = String::new();
        let rolls = self.rolls();
        let ghost gs = self@.groups;
        assert(rolls@.len() == gs.len());
        if rolls.len() != 1 {
            out.append("Result: ");
            push_decimal(&mut out, self.total());
            out.append(".");
        }
        assert(out@ =~= header(self@));
        let mut i: usize = 0;
        while i < rolls.len()
            invariant
                i <= rolls@.len(),
                rolls@.map_values(|g: RollSet| g@) == gs,
                out@ == header(self@) + groups_text(gs.take(i as int)),
            decreases rolls@.len() - i,
        {
            assert(gs.take(i + 1).drop_last() =~= gs.take(i as int));
            assert(rolls@[i as int]@ == gs[i as int]);
            rolls[i].push_text(&mut out);
            i = i + 1;
            assert(out@ =~= header(self@) + groups_text(gs.take(i as int)));
        }
        assert(gs.take(i as int) =~= gs);
        out
    }
}

} // verus!
