use vstd::prelude::*;

use crate::engine::{all_faced, fair_draws, roll_all, tallied};
use crate::render::rendered;
use crate::roll::{RollResult, RollResultView};
use crate::sanitize::{after_command, sanitize, sanitized, strip_command};
use crate::scan::{
    closed_pair, count_of, scan, scan_from, scanned, start_state, step, with_pair, NumError,
    ParseError, ParseErrorView, ScanState,
};
use crate::text::{chars_of, push_char};

verus! {

impl NumError {
    /// Why the digits could not be read, in words.
    pub fn message(&self) -> (r: &'static str)
        ensures
            r@ == num_message(*self),
    {
        match self {
            NumError::Empty => "cannot parse integer from empty string",
            NumError::TooLarge => "number too large to fit in target type",
            NumError::Zero => "number would be zero for non-zero type",
        }
    }
}

pub open spec fn num_message(e: NumError) -> Seq<char> {
    match e {
        NumError::Empty => "cannot parse integer from empty string"@,
        NumError::TooLarge => "number too large to fit in target type"@,
        NumError::Zero => "number would be zero for non-zero type"@,
    }
}

/// The message for a command whose dice could not all be read: what failed and
/// why, the operand as it was typed, and the dice that were read before.
pub open spec fn failure_text(e: ParseErrorView, operand: Seq<char>, valid: Seq<char>) -> Seq<char> {
    match e {
        ParseErrorView::EmptyInput => "```\nThere are no dice to roll in '"@ + operand + "'.```"@,
        ParseErrorView::BadMultiplier { multiplier, faces, reason } => "```\n'"@ + multiplier
            + "' cannot be parsed as a multiplier, but d'"@ + faces
            + "' looks like a nice dice string, in '"@ + operand + "':\n\n  ERROR: "@
            + num_message(reason) + " \n VALID DICE: "@ + valid + "```"@,
        ParseErrorView::BadFaces { multiplier, faces, reason } => "```\nThe multiplier '"@
            + multiplier + "' looks right to me, but d'"@ + faces
            + "' cannot be parsed as a dice string, in '"@ + operand + "':\n\n  ERROR: "@
            + num_message(reason) + " \n VALID DICE: "@ + valid + "```"@,
        ParseErrorView::BadBoth { multiplier, faces, multiplier_reason, faces_reason } => "```\nNeither '"@
            + multiplier + "' nor '"@ + faces + "' make a parsable dice roll, in '"@ + operand
            + "':\n "@ + num_message(multiplier_reason) + " \n\n  ERROR: "@ + num_message(
            faces_reason,
        ) + " \n VALID DICE: "@ + valid + "```"@,
    }
}

/// Builds the message of `failure_text`.
pub fn failure_message(e: &ParseError, operand: &str, valid: &str) -> (r: String)
    ensures
        r@ == failure_text(e@, operand@, valid@),
{
    let mut out = String::new();
    match e {
        ParseError::EmptyInput => {
            out.append("```\nThere are no dice to roll in '");
            out.append(operand);
            out.append("'.```");
        },
        ParseError::BadMultiplier { multiplier, faces, reason } => {
            out.append("```\n'");
            out.append(multiplier.as_str());
            out.append("' cannot be parsed as a multiplier, but d'");
            out.append(faces.as_str());
            out.append("' looks like a nice dice string, in '");
            out.append(operand);
            out.append("':\n\n  ERROR: ");
            out.append(reason.message());
            out.append(" \n VALID DICE: ");
            out.append(valid);
            out.append("```");
        },
        ParseError::BadFaces { multiplier, faces, reason } => {
            out.append("```\nThe multiplier '");
            out.append(multiplier.as_str());
            out.append("' looks right to me, but d'");
            out.append(faces.as_str());
            out.append("' cannot be parsed as a dice string, in '");
            out.append(operand);
            out.append("':\n\n  ERROR: ");
            out.append(reason.message());
            out.append(" \n VALID DICE: ");
            out.append(valid);
            out.append("```");
        },
        ParseError::BadBoth { multiplier, faces, multiplier_reason, faces_reason } => {
            out.append("```\nNeither '");
            out.append(multiplier.as_str());
            out.append("' nor '");
            out.append(faces.as_str());
            out.append("' make a parsable dice roll, in '");
            out.append(operand);
            out.append("':\n ");
            out.append(multiplier_reason.message());
            out.append(" \n\n  ERROR: ");
            out.append(faces_reason.message());
            out.append(" \n VALID DICE: ");
            out.append(valid);
            out.append("```");
        },
    }
    assert(out@ =~= failure_text(e@, operand@, valid@));
    out
}

proof fn lemma_with_pair_faced(st: ScanState, then_faces: bool)
    requires
        all_faced(st.tokens),
    ensures
        all_faced(with_pair(st, then_faces).tokens),
{
    let r = with_pair(st, then_faces);
    match closed_pair(st.multiplier, st.faces) {
        Ok(t) => {
            assert(count_of(st.faces) == Ok::<u16, NumError>(t.faces));
            assert forall|i: int| 0 <= i < r.tokens.len() implies 1 <= (#[trigger] r.tokens[i]).faces by {
                if i < st.tokens.len() {
                    assert(r.tokens[i] == st.tokens[i]);
                }
            }
        },
        Err(_) => {},
    }
}

/// Every die group that a scan reads has at least one face.
proof fn lemma_scan_faced(st: ScanState, rest: Seq<char>)
    requires
        all_faced(st.tokens),
    ensures
        all_faced(scan_from(st, rest).tokens),
    decreases rest.len(),
{
    if st.error is None {
        if rest.len() == 0 {
            lemma_with_pair_faced(st, false);
        } else {
            lemma_with_pair_faced(st, true);
            lemma_with_pair_faced(st, false);
            lemma_scan_faced(step(st, rest[0]), rest.drop_first());
        }
    }
}

/// What rolling the command line `raw` may give: where its dice all read, a
/// pooled result of some fair draws of them; where a pair failed, the message
/// for that failure, listing some fair draws of the dice read before it.
pub open spec fn is_roll_of(raw: Seq<char>, r: Result<RollResultView, Seq<char>>) -> bool {
    let st = scanned(sanitized(raw));
    match st.error {
        None => match r {
            Ok(v) => exists|d: Seq<Seq<u128>>| fair_draws(st.tokens, d) && v == tallied(st.tokens, d),
            Err(_) => false,
        },
        Some(e) => match r {
            Ok(_) => false,
            Err(m) => exists|d: Seq<Seq<u128>>|
                fair_draws(st.tokens, d) && m == failure_text(
                    e,
                    after_command(raw),
                    rendered(tallied(st.tokens, d)),
                ),
        },
    }
}

/// Rolls the dice that the command line `raw` names.
pub fn roll_command(raw: &str) -> (r: Result<RollResult, String>)
    ensures
        match r {
            Ok(res) => res@.wf() && is_roll_of(raw@, Ok(res@)),
            Err(m) => is_roll_of(raw@, Err(m@)),
        },
{
    let clean = sanitize(raw);
    let found = scan(clean.as_str());
    proof {
        lemma_scan_faced(start_state(), clean@);
    }
    let mut rng = rand::thread_rng();
    let res = roll_all(&mut rng, &found.tokens);
    match found.error {
        None => Ok(res),
        Some(e) => {
            let operand = strip_command(raw);
            let valid = res.to_string();
            Err(failure_message(&e, operand.as_str(), valid.as_str()))
        },
    }
}

/// Text that names dice to roll after a command word.
pub trait Rollable {
    spec fn content(&self) -> Seq<char>;

    /// Rolls the dice that the text names.
    fn roll(&self) -> (r: Result<RollResult, String>)
        ensures
            match r {
                Ok(res) => res@.wf() && is_roll_of(self.content(), Ok(res@)),
                Err(m) => is_roll_of(self.content(), Err(m@)),
            },
    ;
}

impl Rollable for str {
    open spec fn content(&self) -> Seq<char> {
        self@
    }

    fn roll(&self) -> (r: Result<RollResult, String>) {
        roll_command(self)
    }
}

/// The whole command: the display text of the roll, or the message of why the
/// dice could not be read.
pub fn evaluate(raw: &str) -> (r: Result<String, String>)
    ensures
        match r {
            Ok(s) => exists|v: RollResultView| v.wf() && is_roll_of(raw@, Ok(v)) && s@ == rendered(v),
            Err(m) => is_roll_of(raw@, Err(m@)),
        },
{
    match roll_command(raw) {
        Ok(res) => Ok(res.to_string()),
        Err(m) => Err(m),
    }
}

/// `s` with every question mark removed.
pub open spec fn without_questions(s: Seq<char>) -> Seq<char>
    decreases s.len(),
{
    if s.len() == 0 {
        s
    } else if s.last() == '?' {
        without_questions(s.drop_last())
    } else {
        without_questions(s.drop_last()).push(s.last())
    }
}

/// The reply to `!ami <words>?` from the user `name`: the words, without their
/// question marks, affirmed.
pub fn affirmation(name: &str, content: &str) -> (r: String)
    ensures
        r@ == "`Yes, "@ + name@ + ", you are "@ + without_questions(after_command(content@))
            + ".`"@,
{
    let rest = strip_command(content);
    let v = chars_of(rest.as_str());
    let mut out = String::new();
    out.append("`Yes, ");
    out.append(name);
    out.append(", you are ");
    let ghost start = out@;
    let mut i: usize = 0;
    while i < v.len()
        invariant
            i <= v@.len(),
            out@ == start + without_questions(v@.take(i as int)),
        decreases v@.len() - i,
    {
        assert(v@.take(i + 1).drop_last() =~= v@.take(i as int));
        if v[i] != '?' {
            push_char(&mut out, v[i]);
        }
        i = i + 1;
        assert(out@ =~= start + without_questions(v@.take(i as int)));
    }
    assert(v@.take(i as int) =~= v@);
    out.append(".`");
    out
}

} // verus!
