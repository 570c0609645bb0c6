//! A log of the elements that a rewrite changed, each with its line and its
//! text before and after.
use vstd::prelude::*;

use crate::component::ReactContent;
use crate::text::push_char;

verus! {

/// One changed element.
#[derive(Debug, PartialEq)]
pub struct Replacement<'a, 'b> {
    pub line: u32,
    pub before: ReactContent<'a>,
    pub after: ReactContent<'b>,
}

/// The changed elements, in the order they were recorded.
#[derive(Debug)]
pub struct ContentReport<'a, 'b> {
    pub replaced_elements: Vec<Replacement<'a, 'b>>,
}

/// The decimal digit for `d`.
pub open spec fn digit(d: nat) -> char {
    if d == 0 { '0' } else if d == 1 { '1' } else if d == 2 { '2' } else if d == 3 { '3' }
    else if d == 4 { '4' } else if d == 5 { '5' } else if d == 6 { '6' } else if d == 7 { '7' }
    else if d == 8 { '8' } else { '9' }
}

/// `n` written in decimal, without leading zeros.
pub open spec fn decimal(n: nat) -> Seq<char>
    decreases n,
{
    if n < 10 {
        seq![digit(n)]
    } else {
        decimal(n / 10).push(digit(n % 10))
    }
}

/// The lines that describe one replacement.
pub open spec fn replacement_text(r: Replacement) -> Seq<char> {
    "✅ Element in line: "@ + decimal(r.line as nat) + "\n  ⏩ Before: "@ + r.before@
        + "\n  ⏪ After: "@ + r.after@ + seq!['\n']
}

/// The lines of all replacements, in order.
pub open spec fn replacements_text(reps: Seq<Replacement>) -> Seq<char>
    decreases reps.len(),
{
    if reps.len() == 0 {
        Seq::empty()
    } else {
        replacements_text(reps.drop_last()) + replacement_text(reps.last())
    }
}

/// The whole report: a count, then each replacement.
pub open spec fn report_text(reps: Seq<Replacement>) -> Seq<char> {
    "🔧 Elements replaced: "@ + decimal(reps.len()) + seq!['\n'] + replacements_text(reps)
}

fn digit_char(d: u64) -> (c: char)
    requires
        d < 10,
    ensures
        c == digit(d as nat),
{
    if d == 0 { '0' } else if d == 1 { '1' } else if d == 2 { '2' } else if d == 3 { '3' }
    else if d == 4 { '4' } else if d == 5 { '5' } else if d == 6 { '6' } else if d == 7 { '7' }
    else if d == 8 { '8' } else { '9' }
}

fn push_decimal(out: &mut String, n: u64)
    ensures
        final(out)@ == old(out)@ + decimal(n as nat),
    decreases n,
{
    if n >= 10 {
        push_decimal(out, n / 10);
    }
    push_char(out, digit_char(n % 10));
    assert(decimal(n as nat) == if n < 10 {
        seq![digit(n as nat)]
    } else {
        decimal((n / 10) as nat).push(digit((n % 10) as nat))
    });
    if n < 10 {
        assert(final(out)@ =~= old(out)@ + decimal(n as nat));
    } else {
        assert(final(out)@ =~= old(out)@ + decimal(n as nat));
    }
}

impl<'a, 'b> ContentReport<'a, 'b> {
    /// An empty log.
    pub fn new() -> (r: Self)
        ensures
            r.replaced_elements@ == Seq::<Replacement<'a, 'b>>::empty(),
    {
        Self { replaced_elements: Vec::new() }
    }

    /// Records one changed element at the end of the log.
    pub fn add_replacement<'c>(
        &'c mut self,
        line: u32,
        before: ReactContent<'a>,
        after: ReactContent<'b>,
    ) -> (r: &'c mut Self)
        ensures
            r.replaced_elements@ == old(self).replaced_elements@.push(
                (Replacement { line, before, after }),
            ),
            *final(self) == *final(r),
    {
        let replacement = Replacement { line, before, after };
        self.replaced_elements.push(replacement);
        self
    }

    /// The report as text: the number of replacements, then for each its line
    /// and its text before and after.
    pub fn summary(&self) -> (r: String)
        ensures
            r@ == report_text(self.replaced_elements@),
    {
        let reps = &self.replaced_elements;
        let mut out = String::new();
        out.append("🔧 Elements replaced: ");
        push_decimal(&mut out, reps.len() as u64);
        push_char(&mut out, '\n');
        let ghost head = out@;
        let mut i: usize = 0;
        assert(reps@.take(0) =~= Seq::<Replacement>::empty());
        while i < reps.len()
            invariant
                i <= reps.len(),
                out@ == head + replacements_text(reps@.take(i as int)),
            decreases reps.len() - i,
        {
            let r = &reps[i];
            out.append("✅ Element in line: ");
            push_decimal(&mut out, r.line as u64);
            out.append("\n  ⏩ Before: ");
            out.append(r.before);
            out.append("\n  ⏪ After: ");
            out.append(r.after);
            push_char(&mut out, '\n');
            assert(reps@.take(i + 1).drop_last() =~= reps@.take(i as int));
            assert(out@ =~= head + replacements_text(reps@.take(i + 1)));
            i = i + 1;
        }
        assert(reps@.take(reps.len() as int) =~= reps@);
        assert(out@ =~= report_text(reps@));
        out
    }
}

} // verus!
