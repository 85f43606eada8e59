//! Diagnostics: a message, a span into the input, and the tokens that were
//! expected and found there. Diagnostics of failed alternatives merge into one.

use crate::text::push_str;
use itertools::Itertools;
use std::ops::Range;
use vstd::prelude::*;

verus! {

/// The characters of each string, in order.
pub open spec fn strs(v: Seq<String>) -> Seq<Seq<char>> {
    v.map_values(|x: String| x@)
}

/// `s` with each element kept at its first occurrence only, in order.
pub open spec fn unique_seq(s: Seq<Seq<char>>) -> Seq<Seq<char>>
    decreases s.len(),
{
    if s.len() == 0 {
        s
    } else {
        let r = unique_seq(s.drop_last());
        if r.contains(s.last()) {
            r
        } else {
            r.push(s.last())
        }
    }
}

/// `parts` joined with `sep` between each two.
pub open spec fn join(parts: Seq<Seq<char>>, sep: Seq<char>) -> Seq<char>
    decreases parts.len(),
{
    if parts.len() == 0 {
        Seq::empty()
    } else if parts.len() == 1 {
        parts[0]
    } else {
        join(parts.drop_last(), sep) + sep + parts.last()
    }
}

/// Removing duplicates keeps exactly the same elements.
pub proof fn lemma_unique_contains(s: Seq<Seq<char>>, x: Seq<char>)
    ensures
        unique_seq(s).contains(x) <==> s.contains(x),
    decreases s.len(),
{
    if s.len() > 0 {
        lemma_unique_contains(s.drop_last(), x);
        let r = unique_seq(s.drop_last());
        if s.contains(x) && x != s.last() {
            let i = choose|i: int| 0 <= i < s.len() && s[i] == x;
            assert(s.drop_last()[i] == x);
        }
        if s.drop_last().contains(x) {
            let i = choose|i: int| 0 <= i < s.drop_last().len() && s.drop_last()[i] == x;
            assert(s[i] == x);
        }
        if !r.contains(s.last()) {
            assert(r.push(s.last()).last() == s.last());
            if r.push(s.last()).contains(x) && x != s.last() {
                let i = choose|i: int| 0 <= i < r.push(s.last()).len() && r.push(s.last())[i] == x;
                assert(r[i] == x);
            }
            if r.contains(x) {
                let i = choose|i: int| 0 <= i < r.len() && r[i] == x;
                assert(r.push(s.last())[i] == x);
            }
        }
    }
}

/// Relies on `itertools::Itertools::unique`: it yields each element the first
/// time it occurs and skips it afterwards, keeping the order.
#[verifier::external_body]
fn unique_labels(v: Vec<String>) -> (r: Vec<String>)
    ensures
        strs(r@) == unique_seq(strs(v@)),
{
    v.into_iter().unique().collect()
}

/// A diagnostic of a failed parse.
#[derive(Debug, Default, PartialEq, Eq)]
pub struct CustomError {
    pub msg: String,
    pub span: Range<usize>,
    pub expected: Vec<String>,
    pub found: Vec<String>,
}

fn concat_labels(a: Vec<String>, b: Vec<String>) -> (r: Vec<String>)
    ensures
        strs(r@) == strs(a@) + strs(b@),
{
    let ghost a0 = a@;
    let ghost b0 = b@;
    let mut a = a;
    let mut b = b;
    a.append(&mut b);
    assert(strs(a@) =~= strs(a0) + strs(b0));
    a
}

impl CustomError {
    /// A syntax diagnostic: `label` was expected over `span`, `found` was there.
    pub fn expected_input_found(span: Range<usize>, label: String, found: Vec<String>) -> (r: Self)
        ensures
            r.msg@ == "Unexpected input. Expected"@,
            r.span == span,
            strs(r.expected@) == seq![label@],
            r.found@ == found@,
    {
        let mut expected: Vec<String> = Vec::new();
        expected.push(label);
        assert(strs(expected@) =~= seq![label@]);
        CustomError { msg: String::from_str("Unexpected input. Expected"), span, expected, found }
    }

    /// The same diagnostic under another message.
    pub fn with_label(self, label: String) -> (r: Self)
        ensures
            r.msg == label,
            r.span == self.span,
            r.expected == self.expected,
            r.found == self.found,
    {
        CustomError { msg: label, ..self }
    }

    /// Merges two diagnostics: the message of `other`, the span from the start of
    /// `self` to the end of `other`, and the tokens of both, each once, in order of
    /// first appearance.
    pub fn merge(self, other: Self) -> (r: Self)
        ensures
            r.msg == other.msg,
            r.span.start == self.span.start,
            r.span.end == other.span.end,
            strs(r.expected@) == unique_seq(strs(self.expected@) + strs(other.expected@)),
            strs(r.found@) == unique_seq(strs(self.found@) + strs(other.found@)),
    {
        let CustomError { msg: _, span, expected, found } = self;
        let expected = unique_labels(concat_labels(expected, other.expected));
        let found = unique_labels(concat_labels(found, other.found));
        CustomError { msg: other.msg, span: span.start..other.span.end, expected, found }
    }

    /// The text of the diagnostic: the message, the expected tokens separated by
    /// commas, and the found tokens run together.
    pub fn render(&self) -> (r: String)
        ensures
            r@ == self.msg@ + ": "@ + join(strs(self.expected@), ", "@) + " but found "@
                + join(strs(self.found@), Seq::empty()),
    {
        let mut out = self.msg.clone();
        push_str(&mut out, ": ");
        push_joined(&mut out, &self.expected, ", ");
        push_str(&mut out, " but found ");
        push_joined(&mut out, &self.found, "");
        proof {
            reveal_strlit("");
            assert(""@ =~= Seq::<char>::empty());
            assert(out@ =~= self.msg@ + ": "@ + join(strs(self.expected@), ", "@) + " but found "@
                + join(strs(self.found@), Seq::empty()));
        }
        out
    }
}

/// Appends the strings of `parts` with `sep` between each two.
fn push_joined(s: &mut String, parts: &Vec<String>, sep: &str)
    ensures
        final(s)@ == old(s)@ + join(strs(parts@), sep@),
{
    let ghost start = s@;
    let mut i: usize = 0;
    while i < parts.len()
        invariant
            i <= parts.len(),
            s@ == start + join(strs(parts@.subrange(0, i as int)), sep@),
        decreases parts.len() - i,
    {
        let ghost prev = s@;
        if i > 0 {
            push_str(s, sep);
        }
        push_str(s, parts[i].as_str());
        proof {
            let ps = strs(parts@.subrange(0, i + 1));
            assert(ps.drop_last() =~= strs(parts@.subrange(0, i as int)));
            assert(ps.last() == parts@[i as int]@);
            if i == 0 {
                assert(join(ps, sep@) == ps[0]);
                assert(s@ =~= start + join(ps, sep@));
            } else {
                assert(s@ =~= start + join(ps, sep@));
            }
        }
        i = i + 1;
    }
    assert(parts@.subrange(0, parts@.len() as int) =~= parts@);
}

} // verus!
