use vstd::prelude::*;

use crate::text::{chars_of, string_of};

verus! {

/// What follows the first space of `s`: the operand of a command such as
/// `!roll 2d6`. Without a space there is no operand.
pub open spec fn after_command(s: Seq<char>) -> Seq<char>
    decreases s.len(),
{
    if s.len() == 0 {
        s
    } else if s[0] == ' ' {
        s.drop_first()
    } else {
        after_command(s.drop_first())
    }
}

pub open spec fn is_digit(c: char) -> bool {
    '0' <= c && c <= '9'
}

/// Characters that dice notation is made of: digits, spaces and the letter d in
/// either case.
pub open spec fn is_kept(c: char) -> bool {
    is_digit(c) || c == ' ' || c == 'd' || c == 'D'
}

pub open spec fn folded(c: char) -> char {
    if c == 'D' {
        'd'
    } else {
        c
    }
}

/// The kept characters of `s`, in order, with `D` lowered to `d`.
pub open spec fn filtered(s: Seq<char>) -> Seq<char>
    decreases s.len(),
{
    if s.len() == 0 {
        s
    } else if is_kept(s.last()) {
        filtered(s.drop_last()).push(folded(s.last()))
    } else {
        filtered(s.drop_last())
    }
}

/// `s` with no space at either end and every run of spaces between other
/// characters shrunk to one space.
pub open spec fn squeezed(s: Seq<char>) -> Seq<char>
    decreases s.len(),
{
    if s.len() == 0 {
        s
    } else if s.last() == ' ' {
        squeezed(s.drop_last())
    } else {
        let p = s.drop_last();
        if p.len() > 0 && p.last() == ' ' && squeezed(p).len() > 0 {
            squeezed(p).push(' ').push(s.last())
        } else {
            squeezed(p).push(s.last())
        }
    }
}

/// An operand reduced to dice notation.
pub open spec fn cleaned(s: Seq<char>) -> Seq<char> {
    squeezed(filtered(s))
}

/// A whole command line reduced to the dice notation of its operand.
pub open spec fn sanitized(raw: Seq<char>) -> Seq<char> {
    cleaned(after_command(raw))
}

pub(crate) proof fn lemma_after_command_at(s: Seq<char>, i: int)
    requires
        0 <= i < s.len(),
        s[i] == ' ',
        forall|j: int| 0 <= j < i ==> s[j] != ' ',
    ensures
        after_command(s) == s.subrange(i + 1, s.len() as int),
    decreases i,
{
    if i > 0 {
        lemma_after_command_at(s.drop_first(), i - 1);
        assert(s.drop_first().subrange(i, s.len() - 1) =~= s.subrange(i + 1, s.len() as int));
    } else {
        assert(s.drop_first() =~= s.subrange(1, s.len() as int));
    }
}

proof fn lemma_after_command_none(s: Seq<char>)
    requires
        forall|j: int| 0 <= j < s.len() ==> s[j] != ' ',
    ensures
        after_command(s).len() == 0,
    decreases s.len(),
{
    if s.len() > 0 {
        lemma_after_command_none(s.drop_first());
    }
}

/// The text after the first space of `s`; empty where `s` has no space.
pub fn strip_command(s: &str) -> (r: String)
    ensures
        r@ == after_command(s@),
{
    let v = chars_of(s);
    let mut i: usize = 0;
    while i < v.len() && v[i] != ' '
        invariant
            v@ == s@,
            i <= v@.len(),
            forall|j: int| 0 <= j < i ==> v@[j] != ' ',
        decreases v@.len() - i,
    {
        i = i + 1;
    }
    let mut rest: Vec<char> = Vec::new();
    if i < v.len() {
        proof {
            lemma_after_command_at(s@, i as int);
        }
        let mut k: usize = i + 1;
        while k < v.len()
            invariant
                v@ == s@,
                i < k <= v@.len(),
                rest@ == v@.subrange(i + 1, k as int),
            decreases v@.len() - k,
        {
            rest.push(v[k]);
            k = k + 1;
            assert(rest@ =~= v@.subrange(i + 1, k as int));
        }
    } else {
        proof {
            lemma_after_command_none(s@);
        }
        assert(rest@ =~= after_command(s@));
    }
    string_of(&rest)
}

/// No space at either end and no two spaces side by side.
pub open spec fn is_tidy(t: Seq<char>) -> bool {
    t.len() == 0 || (t[0] != ' ' && t.last() != ' ' && forall|i: int|
        0 <= i < t.len() - 1 ==> !(#[trigger] t[i] == ' ' && t[i + 1] == ' '))
}

/// Characters that filtering leaves as they are.
pub open spec fn is_plain(c: char) -> bool {
    is_kept(c) && c != 'D'
}

proof fn lemma_filtered_plain(s: Seq<char>)
    ensures
        forall|i: int| 0 <= i < filtered(s).len() ==> is_plain(#[trigger] filtered(s)[i]),
    decreases s.len(),
{
    if s.len() > 0 {
        lemma_filtered_plain(s.drop_last());
        let q = filtered(s.drop_last());
        assert forall|i: int| 0 <= i < filtered(s).len() implies is_plain(#[trigger] filtered(s)[i]) by {
            if i < q.len() {
                assert(is_plain(q[i]));
            }
        }
    }
}

pub(crate) proof fn lemma_filtered_unchanged(t: Seq<char>)
    requires
        forall|i: int| 0 <= i < t.len() ==> is_plain(#[trigger] t[i]),
    ensures
        filtered(t) == t,
    decreases t.len(),
{
    if t.len() > 0 {
        lemma_filtered_unchanged(t.drop_last());
        assert(t.drop_last().push(t.last()) =~= t);
    }
}

proof fn lemma_squeezed_plain(s: Seq<char>)
    requires
        forall|i: int| 0 <= i < s.len() ==> is_plain(#[trigger] s[i]),
    ensures
        forall|i: int| 0 <= i < squeezed(s).len() ==> is_plain(#[trigger] squeezed(s)[i]),
    decreases s.len(),
{
    if s.len() > 0 {
        lemma_squeezed_plain(s.drop_last());
        let q = squeezed(s.drop_last());
        assert forall|i: int| 0 <= i < squeezed(s).len() implies is_plain(#[trigger] squeezed(s)[i]) by {
            if i < q.len() {
                assert(is_plain(q[i]));
            }
        }
    }
}

proof fn lemma_squeezed_tidy(s: Seq<char>)
    ensures
        is_tidy(squeezed(s)),
    decreases s.len(),
{
    if s.len() > 0 {
        let p = s.drop_last();
        lemma_squeezed_tidy(p);
        let q = squeezed(p);
        let r = squeezed(s);
        if s.last() != ' ' {
            assert forall|i: int| 0 <= i < r.len() - 1 implies !(#[trigger] r[i] == ' ' && r[i + 1] == ' ') by {
                if i < q.len() - 1 {
                    assert(r[i] == q[i] && r[i + 1] == q[i + 1]);
                }
            }
        }
    }
}

pub(crate) proof fn lemma_squeezed_unchanged(t: Seq<char>)
    requires
        is_tidy(t),
    ensures
        squeezed(t) == t,
    decreases t.len(),
{
    if t.len() > 0 {
        let p = t.drop_last();
        if p.len() > 0 && p.last() == ' ' {
            let q = p.drop_last();
            assert(t[t.len() - 2] == ' ');
            assert(q.len() > 0) by {
                if q.len() == 0 {
                    assert(t[0] == ' ');
                }
            }
            assert(q.last() == t[t.len() - 3]);
            assert(is_tidy(q)) by {
                assert forall|i: int| 0 <= i < q.len() - 1 implies !(#[trigger] q[i] == ' ' && q[i + 1] == ' ') by {
                    assert(q[i] == t[i] && q[i + 1] == t[i + 1]);
                }
                assert(q[0] == t[0]);
            }
            lemma_squeezed_unchanged(q);
            assert(squeezed(p) == squeezed(q));
            assert(q.push(' ').push(t.last()) =~= t);
        } else {
            assert(is_tidy(p)) by {
                assert forall|i: int| 0 <= i < p.len() - 1 implies !(#[trigger] p[i] == ' ' && p[i + 1] == ' ') by {
                    assert(p[i] == t[i] && p[i + 1] == t[i + 1]);
                }
                if p.len() > 0 {
                    assert(p[0] == t[0]);
                }
            }
            lemma_squeezed_unchanged(p);
            assert(p.push(t.last()) =~= t);
        }
    }
}

/// Cleaning is idempotent: cleaned text holds nothing that cleaning would
/// remove or change.
pub proof fn lemma_cleaned_idempotent(s: Seq<char>)
    ensures
        cleaned(cleaned(s)) == cleaned(s),
{
    let f = filtered(s);
    lemma_filtered_plain(s);
    lemma_squeezed_plain(f);
    lemma_filtered_unchanged(squeezed(f));
    lemma_squeezed_tidy(f);
    lemma_squeezed_unchanged(squeezed(f));
}

/// The kept characters of `v`, with `D` lowered to `d`.
fn filter_chars(v: &Vec<char>) -> (r: Vec<char>)
    ensures
        r@ == filtered(v@),
{
    let mut out: Vec<char> = Vec::new();
    let mut i: usize = 0;
    while i < v.len()
        invariant
            i <= v@.len(),
            out@ == filtered(v@.take(i as int)),
        decreases v@.len() - i,
    {
        let c = v[i];
        assert(v@.take(i + 1).drop_last() =~= v@.take(i as int));
        if ('0' <= c && c <= '9') || c == ' ' || c == 'd' {
            out.push(c);
        } else if c == 'D' {
            out.push('d');
        }
        i = i + 1;
    }
    assert(v@.take(i as int) =~= v@);
    out
}

/// `v` without spaces at its ends and with each run of spaces shrunk to one.
fn squeeze_chars(v: &Vec<char>) -> (r: Vec<char>)
    ensures
        r@ == squeezed(v@),
{
    let mut out: Vec<char> = Vec::new();
    let mut i: usize = 0;
    while i < v.len()
        invariant
            i <= v@.len(),
            out@ == squeezed(v@.take(i as int)),
        decreases v@.len() - i,
    {
        let c = v[i];
        let ghost p = v@.take(i as int);
        assert(v@.take(i + 1).drop_last() =~= p);
        if c != ' ' {
            if i > 0 && v[i - 1] == ' ' && out.len() > 0 {
                out.push(' ');
            }
            out.push(c);
        }
        i = i + 1;
    }
    assert(v@.take(i as int) =~= v@);
    out
}

/// An operand reduced to dice notation: digits, `d` and single inner spaces.
pub fn clean_operand(s: &str) -> (r: String)
    ensures
        r@ == cleaned(s@),
{
    let v = chars_of(s);
    let f = filter_chars(&v);
    let q = squeeze_chars(&f);
    string_of(&q)
}

/// The dice notation of a command line: its operand, cleaned.
pub fn sanitize(raw: &str) -> (r: String)
    ensures
        r@ == sanitized(raw@),
{
    let operand = strip_command(raw);
    clean_operand(operand.as_str())
}

/// Text that carries a command word followed by its operand.
pub trait Contentful {
    spec fn content(&self) -> Seq<char>;

    /// The text after the command word.
    fn strip_command(&self) -> (r: String)
        ensures
            r@ == after_command(self.content()),
    ;
}

impl Contentful for str {
    open spec fn content(&self) -> Seq<char> {
        self@
    }

    fn strip_command(&self) -> (r: String) {
        strip_command(self)
    }
}

} // verus!
