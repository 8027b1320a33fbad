//! The numbering formatter: each line written through, optionally prefixed
//! with a running 1-based line number that is global across all inputs.

use vstd::prelude::*;

use crate::numfmt::{dec_rep, right_aligned};
use crate::numfmt::format_aligned;

verus! {

/// Width of the line-number field.
pub const LINE_NUMBER_WIDTH: usize = 6;

/// Configuration for a numbering run: the inputs and which numbering mode,
/// if any, is selected. The two modes are mutually exclusive.
#[derive(Debug)]
pub struct Config {
    pub files: Vec<String>,
    pub number_lines: bool,
    pub number_nonblank_lines: bool,
}

/// The prefix a numbered line carries: the right-aligned number and a tab.
pub open spec fn num_prefix(n: nat) -> Seq<char> {
    right_aligned(dec_rep(n), LINE_NUMBER_WIDTH as nat) + seq!['\t']
}

/// The output lines for the given input lines: numbering every line, only
/// the non-blank ones (blank lines pass through unprefixed and consume no
/// number), or none; `next` is the number the first numbered line takes.
pub open spec fn cat_lines(ls: Seq<Seq<char>>, all: bool, nonblank: bool, next: nat) -> Seq<
    Seq<char>,
>
    decreases ls.len(),
{
    if ls.len() == 0 {
        Seq::empty()
    } else if all || (nonblank && ls.first().len() > 0) {
        seq![num_prefix(next) + ls.first()] + cat_lines(ls.drop_first(), all, nonblank, next + 1)
    } else {
        seq![ls.first()] + cat_lines(ls.drop_first(), all, nonblank, next)
    }
}

/// How many of the given lines consume a number.
pub open spec fn numbered_count(ls: Seq<Seq<char>>, all: bool, nonblank: bool) -> nat
    decreases ls.len(),
{
    if ls.len() == 0 {
        0
    } else {
        (if all || (nonblank && ls.first().len() > 0) {
            1nat
        } else {
            0nat
        }) + numbered_count(ls.drop_first(), all, nonblank)
    }
}

/// No more lines are numbered than there are lines.
proof fn lemma_numbered_count_le(ls: Seq<Seq<char>>, all: bool, nonblank: bool)
    ensures
        numbered_count(ls, all, nonblank) <= ls.len(),
    decreases ls.len(),
{
    if ls.len() > 0 {
        lemma_numbered_count_le(ls.drop_first(), all, nonblank);
    }
}

/// Write the given lines through, numbering them as the mode asks, starting
/// at `next`; returns the output lines and the number the next numbered
/// line would take, so numbering continues across inputs without resetting.
pub fn cat_output(lines: &Vec<String>, number_all: bool, number_nonblank: bool, next: u64) -> (r:
    (Vec<String>, u64))
    requires
        !(number_all && number_nonblank),
        next + lines@.len() <= u64::MAX,
    ensures
        r.0@.map_values(|s: String| s@) == cat_lines(
            lines@.map_values(|s: String| s@),
            number_all,
            number_nonblank,
            next as nat,
        ),
        r.1 as nat == next + numbered_count(
            lines@.map_values(|s: String| s@),
            number_all,
            number_nonblank,
        ),
{
    let ghost ls = lines@.map_values(|s: String| s@);
    let mut out: Vec<String> = Vec::new();
    let mut counter: u64 = next;
    let mut i: usize = 0;
    proof {
        assert(ls.skip(0) =~= ls);
        assert(out@.map_values(|s: String| s@) =~= Seq::<Seq<char>>::empty());
        lemma_numbered_count_le(ls, number_all, number_nonblank);
    }
    while i < lines.len()
        invariant
            i <= lines@.len(),
            ls == lines@.map_values(|s: String| s@),
            !(number_all && number_nonblank),
            next + lines@.len() <= u64::MAX,
            cat_lines(ls, number_all, number_nonblank, next as nat) =~= out@.map_values(
                |s: String| s@,
            ) + cat_lines(ls.skip(i as int), number_all, number_nonblank, counter as nat),
            counter + numbered_count(ls.skip(i as int), number_all, number_nonblank) == next
                + numbered_count(ls, number_all, number_nonblank),
            counter <= next + i,
        decreases lines@.len() - i,
    {
        let ghost sub = ls.skip(i as int);
        proof {
            assert(sub.first() == ls[i as int]);
            assert(ls[i as int] == lines@[i as int]@);
            assert(sub.drop_first() =~= ls.skip(i + 1));
            lemma_numbered_count_le(ls, number_all, number_nonblank);
            lemma_numbered_count_le(sub.drop_first(), number_all, number_nonblank);
        }
        let ghost old_out = out@;
        let line = &lines[i];
        let numbered = number_all || (number_nonblank && !line.as_str().is_empty());
        if numbered {
            let mut prefixed = format_aligned(counter, LINE_NUMBER_WIDTH);
            proof {
                reveal_strlit("\t");
                assert("\t"@ =~= seq!['\t']);
            }
            prefixed.append("\t");
            prefixed.append(line.as_str());
            out.push(prefixed);
            counter += 1;
        } else {
            out.push(line.clone());
        }
        proof {
            assert(out@.map_values(|s: String| s@) =~= old_out.map_values(|s: String| s@)
                + seq![out@.last()@]);
        }
        i += 1;
    }
    proof {
        assert(ls.skip(i as int).len() == 0);
        assert(cat_lines(ls.skip(i as int), number_all, number_nonblank, counter as nat)
            =~= Seq::<Seq<char>>::empty());
        assert(numbered_count(ls.skip(i as int), number_all, number_nonblank) == 0);
        assert(out@.map_values(|s: String| s@) =~~= cat_lines(
            ls,
            number_all,
            number_nonblank,
            next as nat,
        ));
    }
    (out, counter)
}

} // verus!
