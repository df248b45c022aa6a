use vstd::prelude::*;

use crate::command::is_roll_of;
use crate::engine::{empty_result, fair_draws, tallied};
use crate::render::{decimal, digit_char};
use crate::roll::{has_faces, lemma_sum_bounds, recorded, RollResultView};
use crate::sanitize::{
    cleaned, is_digit, is_plain, is_tidy, lemma_after_command_at, lemma_filtered_unchanged,
    lemma_squeezed_unchanged, sanitized,
};
use crate::scan::{
    all_digits, closed_pair, count_of, digit_value, digits_value, scan_from, scanned,
    start_state, step, DiceToken, NumError, ParseErrorView, ScanState,
};

verus! {

proof fn lemma_digit_char(d: nat)
    requires
        d < 10,
    ensures
        is_digit(digit_char(d)),
        digit_value(digit_char(d)) == d,
{
}

/// Decimal text is a non-empty run of digits that reads back as its number.
pub proof fn lemma_decimal_reads_back(n: nat)
    ensures
        decimal(n).len() > 0,
        all_digits(decimal(n)),
        digits_value(decimal(n)) == n,
    decreases n,
{
    if n < 10 {
        lemma_digit_char(n);
        assert(decimal(n).drop_last() =~= Seq::<char>::empty());
        assert(digits_value(decimal(n).drop_last()) == 0);
        assert(decimal(n).last() == digit_char(n));
    } else {
        assert((n / 10) * 10 + n % 10 == n) by (nonlinear_arith);
        lemma_decimal_reads_back(n / 10);
        lemma_digit_char(n % 10);
        let s = decimal(n);
        assert(s.drop_last() =~= decimal(n / 10));
        assert(s.last() == digit_char(n % 10));
        assert(digits_value(s) == digits_value(decimal(n / 10)) * 10 + digit_value(digit_char(n % 10)));
        assert forall|i: int| 0 <= i < s.len() implies is_digit(#[trigger] s[i]) by {
            if i < s.len() - 1 {
                assert(s[i] == decimal(n / 10)[i]);
            }
        }
    }
}

proof fn lemma_scan_multiplier_digits(st: ScanState, ds: Seq<char>, rest: Seq<char>)
    requires
        st.error is None,
        !st.seeking_faces,
        all_digits(ds),
    ensures
        scan_from(st, ds + rest) == scan_from(
            ScanState { multiplier: st.multiplier + ds, ..st },
            rest,
        ),
    decreases ds.len(),
{
    if ds.len() == 0 {
        assert(ds + rest =~= rest);
        assert(st.multiplier + ds =~= st.multiplier);
    } else {
        assert(is_digit(ds[0]));
        let st2 = step(st, ds[0]);
        assert((ds + rest).drop_first() =~= ds.drop_first() + rest);
        assert((ds + rest)[0] == ds[0]);
        let tail = ds.drop_first();
        assert(all_digits(tail)) by {
            assert forall|i: int| 0 <= i < tail.len() implies is_digit(#[trigger] tail[i]) by {
                assert(tail[i] == ds[i + 1]);
            }
        }
        lemma_scan_multiplier_digits(st2, tail, rest);
        assert(st.multiplier.push(ds[0]) + tail =~= st.multiplier + ds);
    }
}

proof fn lemma_scan_faces_digits(st: ScanState, ds: Seq<char>, rest: Seq<char>)
    requires
        st.error is None,
        st.seeking_faces,
        all_digits(ds),
    ensures
        scan_from(st, ds + rest) == scan_from(ScanState { faces: st.faces + ds, ..st }, rest),
    decreases ds.len(),
{
    if ds.len() == 0 {
        assert(ds + rest =~= rest);
        assert(st.faces + ds =~= st.faces);
    } else {
        assert(is_digit(ds[0]));
        let st2 = step(st, ds[0]);
        assert((ds + rest).drop_first() =~= ds.drop_first() + rest);
        assert((ds + rest)[0] == ds[0]);
        let tail = ds.drop_first();
        assert(all_digits(tail)) by {
            assert forall|i: int| 0 <= i < tail.len() implies is_digit(#[trigger] tail[i]) by {
                assert(tail[i] == ds[i + 1]);
            }
        }
        lemma_scan_faces_digits(st2, tail, rest);
        assert(st.faces.push(ds[0]) + tail =~= st.faces + ds);
    }
}

/// The text `<m>d<f>` of two counts.
pub open spec fn dice_text(m: nat, f: nat) -> Seq<char> {
    decimal(m) + seq!['d'] + decimal(f)
}

proof fn lemma_dice_text_scans(m: nat, f: nat)
    requires
        1 <= m <= 65535,
        1 <= f <= 65535,
    ensures
        scanned(dice_text(m, f)).error is None,
        scanned(dice_text(m, f)).tokens == seq![DiceToken { multiplier: m as u16, faces: f as u16 }],
{
    let dm = decimal(m);
    let df = decimal(f);
    lemma_decimal_reads_back(m);
    lemma_decimal_reads_back(f);
    let rest = seq!['d'] + df;
    assert(dice_text(m, f) =~= dm + rest);
    lemma_scan_multiplier_digits(start_state(), dm, rest);
    let st1 = ScanState { multiplier: start_state().multiplier + dm, ..start_state() };
    assert(st1.multiplier =~= dm);
    assert(rest.drop_first() =~= df);
    let st2 = step(st1, 'd');
    assert(st2.seeking_faces && st2.multiplier == dm && st2.faces.len() == 0);
    assert(df =~= df + Seq::<char>::empty());
    lemma_scan_faces_digits(st2, df, Seq::empty());
    let st3 = ScanState { faces: st2.faces + df, ..st2 };
    assert(st3.faces =~= df);
    assert(count_of(dm) == Ok::<u16, NumError>(m as u16));
    assert(count_of(df) == Ok::<u16, NumError>(f as u16));
    assert(closed_pair(dm, df) == Ok::<DiceToken, ParseErrorView>(
        DiceToken { multiplier: m as u16, faces: f as u16 },
    ));
    assert(Seq::<DiceToken>::empty().push(DiceToken { multiplier: m as u16, faces: f as u16 })
        =~= seq![DiceToken { multiplier: m as u16, faces: f as u16 }]);
}

proof fn lemma_dice_text_clean(m: nat, f: nat)
    ensures
        cleaned(dice_text(m, f)) == dice_text(m, f),
{
    lemma_decimal_reads_back(m);
    lemma_decimal_reads_back(f);
    let t = dice_text(m, f);
    let dm = decimal(m);
    assert forall|i: int| 0 <= i < t.len() implies is_plain(#[trigger] t[i]) && t[i] != ' ' by {
        if i < dm.len() {
            assert(t[i] == dm[i]);
        } else if i > dm.len() {
            assert(t[i] == decimal(f)[i - dm.len() - 1]);
        }
    }
    lemma_filtered_unchanged(t);
    assert(is_tidy(t));
    lemma_squeezed_unchanged(t);
}

/// A command `<word> <m>d<f>`, with both counts from one to 65535, reads
/// without error, and every roll of it is one set of `m` dice of `f` faces
/// whose total lies between `m` and `m * f`.
pub proof fn lemma_single_group(word: Seq<char>, m: nat, f: nat, v: RollResultView)
    requires
        1 <= m <= 65535,
        1 <= f <= 65535,
        forall|i: int| 0 <= i < word.len() ==> word[i] != ' ',
    ensures
        scanned(sanitized(word + seq![' '] + dice_text(m, f))).error is None,
        is_roll_of(word + seq![' '] + dice_text(m, f), Ok(v)) ==> {
            &&& v.groups.len() == 1
            &&& v.groups[0].multiplier == m
            &&& v.groups[0].faces == f
            &&& m <= v.groups[0].total <= m * f
            &&& v.total == v.groups[0].total
        },
{
    let raw = word + seq![' '] + dice_text(m, f);
    lemma_after_command_at(raw, word.len() as int);
    assert(raw.subrange(word.len() as int + 1, raw.len() as int) =~= dice_text(m, f));
    lemma_dice_text_clean(m, f);
    lemma_dice_text_scans(m, f);
    let tokens = seq![DiceToken { multiplier: m as u16, faces: f as u16 }];
    if is_roll_of(raw, Ok(v)) {
        let d = choose|d: Seq<Seq<u128>>| fair_draws(tokens, d) && v == tallied(tokens, d);
        assert(tokens.drop_last() =~= Seq::<DiceToken>::empty());
        assert(tallied(tokens.drop_last(), d.drop_last()) == empty_result());
        assert(d[0] == d.last());
        lemma_sum_bounds(d[0], f);
        assert(f * m == m * f) by (nonlinear_arith);
    }
}

/// Dice of one face count pool into one set whether they are written as one
/// group or as two: `<a>d<f> <b>d<f>` and `<a+b>d<f>` give the same face count
/// and multiplier, whatever the draws.
pub proof fn lemma_split_groups_pool(
    a: u16,
    b: u16,
    f: u16,
    d1: Seq<Seq<u128>>,
    d2: Seq<Seq<u128>>,
)
    requires
        1 <= f,
        a + b <= 65535,
        fair_draws(
            seq![DiceToken { multiplier: a, faces: f }, DiceToken { multiplier: b, faces: f }],
            d1,
        ),
        fair_draws(seq![DiceToken { multiplier: (a + b) as u16, faces: f }], d2),
    ensures
        ({
            let r1 = tallied(
                seq![DiceToken { multiplier: a, faces: f }, DiceToken { multiplier: b, faces: f }],
                d1,
            );
            let r2 = tallied(seq![DiceToken { multiplier: (a + b) as u16, faces: f }], d2);
            &&& r1.groups.len() == 1
            &&& r2.groups.len() == 1
            &&& r1.groups[0].faces == r2.groups[0].faces == f
            &&& r1.groups[0].multiplier == r2.groups[0].multiplier == a + b
        }),
{
    let t1 = seq![DiceToken { multiplier: a, faces: f }, DiceToken { multiplier: b, faces: f }];
    let t2 = seq![DiceToken { multiplier: (a + b) as u16, faces: f }];
    assert(t1.drop_last() =~= seq![DiceToken { multiplier: a, faces: f }]);
    assert(t1.drop_last().drop_last() =~= Seq::<DiceToken>::empty());
    assert(t2.drop_last() =~= Seq::<DiceToken>::empty());
    let first = recorded(empty_result(), t1[0], d1[0]);
    assert(tallied(t1.drop_last(), d1.drop_last()) == first) by {
        assert(d1.drop_last().last() == d1[0]);
        assert(tallied(t1.drop_last().drop_last(), d1.drop_last().drop_last()) == empty_result());
    }
    assert(first.groups.len() == 1 && first.groups[0].faces == f as nat);
    assert(first.groups[0].multiplier == a as nat);
    assert(has_faces(first.groups, f as nat));
    assert(t1.last() == t1[1] && d1.last() == d1[1]);
    let r1 = recorded(first, t1[1], d1[1]);
    assert(tallied(t1, d1) == r1);
    let i = choose|i: int| 0 <= i < first.groups.len() && #[trigger] first.groups[i].faces == f as nat;
    assert(i == 0);
    assert(r1.groups.len() == 1);
    assert(r1.groups[0].multiplier == a + b);
    assert(t2.last() == t2[0] && d2.last() == d2[0]);
    assert(tallied(t2.drop_last(), d2.drop_last()) == empty_result());
}

} // verus!
