use vstd::prelude::*;

use crate::sanitize::is_digit;
use crate::text::{chars_of, string_of};

verus! {

/// Why a run of digits is not a usable count.
#[derive(Clone, Copy, Debug, PartialEq, Eq, Structural)]
pub enum NumError {
    /// There were no digits at all.
    Empty,
    /// The number does not fit in 16 bits.
    TooLarge,
    /// The number is zero.
    Zero,
}

/// One `<multiplier>d<faces>` group of dice, both counts at least one.
#[derive(Clone, Copy, Debug, PartialEq, Eq, Structural)]
pub struct DiceToken {
    pub multiplier: u16,
    pub faces: u16,
}

/// Why a pair of buffers could not be read as dice.
pub enum ParseError {
    /// No dice at all were written.
    EmptyInput,
    /// The faces were read, the multiplier was not.
    BadMultiplier { multiplier: String, faces: String, reason: NumError },
    /// The multiplier was read, the faces were not.
    BadFaces { multiplier: String, faces: String, reason: NumError },
    /// Neither was read.
    BadBoth {
        multiplier: String,
        faces: String,
        multiplier_reason: NumError,
        faces_reason: NumError,
    },
}

pub enum ParseErrorView {
    EmptyInput,
    BadMultiplier { multiplier: Seq<char>, faces: Seq<char>, reason: NumError },
    BadFaces { multiplier: Seq<char>, faces: Seq<char>, reason: NumError },
    BadBoth {
        multiplier: Seq<char>,
        faces: Seq<char>,
        multiplier_reason: NumError,
        faces_reason: NumError,
    },
}

impl View for ParseError {
    type V = ParseErrorView;

    open spec fn view(&self) -> ParseErrorView {
        match self {
            ParseError::EmptyInput => ParseErrorView::EmptyInput,
            ParseError::BadMultiplier { multiplier, faces, reason } => ParseErrorView::BadMultiplier {
                multiplier: multiplier@,
                faces: faces@,
                reason: *reason,
            },
            ParseError::BadFaces { multiplier, faces, reason } => ParseErrorView::BadFaces {
                multiplier: multiplier@,
                faces: faces@,
                reason: *reason,
            },
            ParseError::BadBoth { multiplier, faces, multiplier_reason, faces_reason } => {
                ParseErrorView::BadBoth {
                    multiplier: multiplier@,
                    faces: faces@,
                    multiplier_reason: *multiplier_reason,
                    faces_reason: *faces_reason,
                }
            },
        }
    }
}

pub open spec fn digit_value(c: char) -> nat {
    ((c as u32) - ('0' as u32)) as nat
}

pub open spec fn all_digits(s: Seq<char>) -> bool {
    forall|i: int| 0 <= i < s.len() ==> is_digit(#[trigger] s[i])
}

/// The number that the decimal digits `s` write.
pub open spec fn digits_value(s: Seq<char>) -> nat
    decreases s.len(),
{
    if s.len() == 0 {
        0
    } else {
        digits_value(s.drop_last()) * 10 + digit_value(s.last())
    }
}

/// The count that the digits `s` give: at least one, at most 65535.
pub open spec fn count_of(s: Seq<char>) -> Result<u16, NumError> {
    if s.len() == 0 {
        Err(NumError::Empty)
    } else if digits_value(s) > 65535 {
        Err(NumError::TooLarge)
    } else if digits_value(s) == 0 {
        Err(NumError::Zero)
    } else {
        Ok(digits_value(s) as u16)
    }
}

proof fn lemma_digits_value_grows(s: Seq<char>, i: int)
    requires
        0 <= i <= s.len(),
    ensures
        digits_value(s.take(i)) <= digits_value(s),
    decreases s.len() - i,
{
    if i < s.len() {
        lemma_digits_value_grows(s, i + 1);
        assert(s.take(i + 1).drop_last() =~= s.take(i));
    } else {
        assert(s.take(i) =~= s);
    }
}

/// Reads a run of decimal digits as a count.
pub fn parse_count(v: &Vec<char>) -> (r: Result<u16, NumError>)
    requires
        all_digits(v@),
    ensures
        r == count_of(v@),
{
    if v.len() == 0 {
        return Err(NumError::Empty);
    }
    let mut acc: u32 = 0;
    let mut i: usize = 0;
    while i < v.len()
        invariant
            all_digits(v@),
            i <= v@.len(),
            acc == digits_value(v@.take(i as int)),
            acc <= 65535,
        decreases v@.len() - i,
    {
        assert(v@.take(i + 1).drop_last() =~= v@.take(i as int));
        assert(is_digit(v@[i as int]));
        let d = (v[i] as u32) - ('0' as u32);
        let next = acc * 10 + d;
        if next > 65535 {
            proof {
                lemma_digits_value_grows(v@, i + 1);
            }
            return Err(NumError::TooLarge);
        }
        acc = next;
        i = i + 1;
    }
    assert(v@.take(i as int) =~= v@);
    if acc == 0 {
        Err(NumError::Zero)
    } else {
        Ok(acc as u16)
    }
}

/// The two buffers read as dice, or why they cannot be.
pub open spec fn closed_pair(m: Seq<char>, f: Seq<char>) -> Result<DiceToken, ParseErrorView> {
    match (count_of(m), count_of(f)) {
        (Ok(a), Ok(b)) => Ok(DiceToken { multiplier: a, faces: b }),
        (Err(e), Ok(_)) => Err(ParseErrorView::BadMultiplier { multiplier: m, faces: f, reason: e }),
        (Ok(_), Err(e)) => Err(ParseErrorView::BadFaces { multiplier: m, faces: f, reason: e }),
        (Err(e1), Err(e2)) => Err(
            ParseErrorView::BadBoth {
                multiplier: m,
                faces: f,
                multiplier_reason: e1,
                faces_reason: e2,
            },
        ),
    }
}

/// Where the scanner stands between two characters.
pub struct ScanState {
    /// A `d` was read and the faces are being read.
    pub seeking_faces: bool,
    pub multiplier: Seq<char>,
    pub faces: Seq<char>,
    /// The dice read so far.
    pub tokens: Seq<DiceToken>,
    /// Set once a pair fails; the scan stops there.
    pub error: Option<ParseErrorView>,
}

pub open spec fn start_state() -> ScanState {
    ScanState {
        seeking_faces: false,
        multiplier: Seq::empty(),
        faces: Seq::empty(),
        tokens: Seq::empty(),
        error: None,
    }
}

/// Closes the pending pair. After a `d` the next pair starts with the implied
/// multiplier one and its faces are sought at once.
pub open spec fn with_pair(st: ScanState, then_faces: bool) -> ScanState {
    match closed_pair(st.multiplier, st.faces) {
        Ok(t) => ScanState {
            seeking_faces: then_faces,
            multiplier: if then_faces {
                seq!['1']
            } else {
                Seq::empty()
            },
            faces: Seq::empty(),
            tokens: st.tokens.push(t),
            error: None,
        },
        Err(e) => ScanState { error: Some(e), ..st },
    }
}

/// One character read. While seeking a multiplier, digits collect and a `d`
/// turns to the faces (the multiplier is one if none was written); anything
/// else is passed over. While seeking faces, digits collect, a `d` closes the
/// pair and starts the next, and anything else closes the pair, unless no
/// face digit has come yet (as in `1d 20`).
pub open spec fn step(st: ScanState, c: char) -> ScanState {
    if !st.seeking_faces {
        if is_digit(c) {
            ScanState { multiplier: st.multiplier.push(c), ..st }
        } else if c == 'd' {
            ScanState {
                seeking_faces: true,
                multiplier: if st.multiplier.len() == 0 {
                    seq!['1']
                } else {
                    st.multiplier
                },
                ..st
            }
        } else {
            st
        }
    } else {
        if is_digit(c) {
            ScanState { faces: st.faces.push(c), ..st }
        } else if c == 'd' {
            with_pair(st, true)
        } else if st.faces.len() == 0 {
            st
        } else {
            with_pair(st, false)
        }
    }
}

/// The end of the text: a pending pair is closed, and a text without dice
/// is an error.
pub open spec fn finished(st: ScanState) -> ScanState {
    let st2 = if st.seeking_faces || st.multiplier.len() > 0 {
        with_pair(st, false)
    } else {
        st
    };
    if st2.error is None && st2.tokens.len() == 0 {
        ScanState { error: Some(ParseErrorView::EmptyInput), ..st2 }
    } else {
        st2
    }
}

pub open spec fn scan_from(st: ScanState, rest: Seq<char>) -> ScanState
    decreases rest.len(),
{
    if st.error is Some {
        st
    } else if rest.len() == 0 {
        finished(st)
    } else {
        scan_from(step(st, rest[0]), rest.drop_first())
    }
}

/// The whole scan of `s`: the dice read, and the error that stopped it, if any.
pub open spec fn scanned(s: Seq<char>) -> ScanState {
    scan_from(start_state(), s)
}

/// What a scan produced: every die group read, and the error that ended the
/// scan early, if one did.
pub struct Scan {
    pub tokens: Vec<DiceToken>,
    pub error: Option<ParseError>,
}

pub open spec fn error_view(e: &Option<ParseError>) -> Option<ParseErrorView> {
    match e {
        Some(x) => Some(x@),
        None => None,
    }
}

/// Reads the pending pair of buffers as dice.
pub fn close_pair(m: &Vec<char>, f: &Vec<char>) -> (r: Result<DiceToken, ParseError>)
    requires
        all_digits(m@),
        all_digits(f@),
    ensures
        match r {
            Ok(t) => closed_pair(m@, f@) == Ok::<DiceToken, ParseErrorView>(t),
            Err(e) => closed_pair(m@, f@) == Err::<DiceToken, ParseErrorView>(e@),
        },
{
    match (parse_count(m), parse_count(f)) {
        (Ok(a), Ok(b)) => Ok(DiceToken { multiplier: a, faces: b }),
        (Err(e), Ok(_)) => Err(
            ParseError::BadMultiplier { multiplier: string_of(m), faces: string_of(f), reason: e },
        ),
        (Ok(_), Err(e)) => Err(
            ParseError::BadFaces { multiplier: string_of(m), faces: string_of(f), reason: e },
        ),
        (Err(e1), Err(e2)) => Err(
            ParseError::BadBoth {
                multiplier: string_of(m),
                faces: string_of(f),
                multiplier_reason: e1,
                faces_reason: e2,
            },
        ),
    }
}

pub open spec fn live_state(
    seeking_faces: bool,
    m: Seq<char>,
    f: Seq<char>,
    tokens: Seq<DiceToken>,
) -> ScanState {
    ScanState { seeking_faces, multiplier: m, faces: f, tokens, error: None }
}

/// Reads dice notation: the groups written, in order, up to the first pair that
/// cannot be read.
pub fn scan(s: &str) -> (r: Scan)
    ensures
        r.tokens@ == scanned(s@).tokens,
        error_view(&r.error) == scanned(s@).error,
{
    let v = chars_of(s);
    let mut seeking_faces = false;
    let mut m: Vec<char> = Vec::new();
    let mut f: Vec<char> = Vec::new();
    let mut tokens: Vec<DiceToken> = Vec::new();
    let mut i: usize = 0;
    assert(v@.skip(0) =~= s@);
    while i < v.len()
        invariant
            i <= v@.len(),
            all_digits(m@),
            all_digits(f@),
            scan_from(live_state(seeking_faces, m@, f@, tokens@), v@.skip(i as int)) == scanned(s@),
        decreases v@.len() - i,
    {
        let c = v[i];
        let ghost st = live_state(seeking_faces, m@, f@, tokens@);
        assert(v@.skip(i as int).drop_first() =~= v@.skip(i + 1));
        assert(scan_from(st, v@.skip(i as int)) == scan_from(step(st, c), v@.skip(i + 1)));
        let is_d = '0' <= c && c <= '9';
        if !seeking_faces {
            if is_d {
                m.push(c);
            } else if c == 'd' {
                seeking_faces = true;
                if m.len() == 0 {
                    m.push('1');
                    assert(m@ =~= seq!['1']);
                }
            }
        } else if is_d {
            f.push(c);
        } else if c == 'd' || f.len() > 0 {
            match close_pair(&m, &f) {
                Ok(t) => {
                    tokens.push(t);
                    f = Vec::new();
                    m = Vec::new();
                    if c == 'd' {
                        m.push('1');
                        assert(m@ =~= seq!['1']);
                    } else {
                        seeking_faces = false;
                    }
                },
                Err(e) => {
                    return Scan { tokens, error: Some(e) };
                },
            }
        }
        assert(all_digits(m@));
        assert(step(st, c) == live_state(seeking_faces, m@, f@, tokens@));
        i = i + 1;
    }
    let ghost st = live_state(seeking_faces, m@, f@, tokens@);
    assert(scan_from(st, v@.skip(i as int)) == finished(st));
    if seeking_faces || m.len() > 0 {
        match close_pair(&m, &f) {
            Ok(t) => {
                tokens.push(t);
            },
            Err(e) => {
                return Scan { tokens, error: Some(e) };
            },
        }
    }
    if tokens.len() == 0 {
        return Scan { tokens, error: Some(ParseError::EmptyInput) };
    }
    Scan { tokens, error: None }
}

} // verus!
