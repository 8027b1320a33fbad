//! Splitting a byte stream into lines.
//!
//! A line ends at a newline byte; the final line of an input may lack one,
//! and that condition is tracked so the engines can account for it.

use vstd::prelude::*;

verus! {

/// The newline byte that terminates a line.
pub const NL: u8 = 10;

/// One line as read: its bytes without the terminator, and whether a
/// terminator was present in the input.
pub struct RawLine {
    pub bytes: Vec<u8>,
    pub terminated: bool,
}

impl RawLine {
    pub open spec fn view(&self) -> (Seq<u8>, bool) {
        (self.bytes@, self.terminated)
    }
}

/// Index of the first newline byte in `s`, or `s.len()` if there is none.
pub open spec fn first_nl(s: Seq<u8>) -> nat
    decreases s.len(),
{
    if s.len() == 0 {
        0
    } else if s[0] == NL {
        0
    } else {
        1 + first_nl(s.skip(1))
    }
}

pub proof fn lemma_first_nl(s: Seq<u8>)
    ensures
        0 <= first_nl(s) <= s.len(),
        forall|k: int| 0 <= k < first_nl(s) ==> s[k] != NL,
        first_nl(s) < s.len() ==> s[first_nl(s) as int] == NL,
    decreases s.len(),
{
    if s.len() == 0 {
    } else if s[0] == NL {
    } else {
        lemma_first_nl(s.skip(1));
        assert forall|k: int| 0 <= k < first_nl(s) implies s[k] != NL by {
            if k > 0 {
                assert(s.skip(1)[k - 1] == s[k]);
            }
        }
        if first_nl(s) < s.len() {
            assert(s.skip(1)[first_nl(s) - 1] == s[first_nl(s) as int]);
        }
    }
}

/// The lines of a byte stream: each line's bytes without its terminator,
/// paired with whether the terminator was present.
pub open spec fn lines_of(s: Seq<u8>) -> Seq<(Seq<u8>, bool)>
    decreases s.len(),
{
    if s.len() == 0 {
        Seq::empty()
    } else {
        let i = first_nl(s);
        if i < s.len() {
            seq![(s.take(i as int), true)] + lines_of(s.skip(i + 1 as int))
        } else {
            seq![(s, false)]
        }
    }
}

/// The views of a sequence of lines, for stating contracts.
pub open spec fn views_of(r: Seq<RawLine>) -> Seq<(Seq<u8>, bool)> {
    r.map_values(|l: RawLine| l@)
}

/// Number of newline bytes in `s`.
pub open spec fn count_nl(s: Seq<u8>) -> nat
    decreases s.len(),
{
    if s.len() == 0 {
        0
    } else {
        (if s[0] == NL {
            1nat
        } else {
            0nat
        }) + count_nl(s.skip(1))
    }
}

/// Total bytes accounted for by a sequence of line views: each line's bytes
/// plus one for each terminator that was present.
pub open spec fn lines_byte_total(ls: Seq<(Seq<u8>, bool)>) -> nat
    decreases ls.len(),
{
    if ls.len() == 0 {
        0
    } else {
        ls[0].0.len() + (if ls[0].1 {
            1nat
        } else {
            0nat
        }) + lines_byte_total(ls.skip(1))
    }
}

/// If the first `j` bytes of `s` are not newlines and byte `j` (if any) is
/// one, then `j` is the position of the first newline.
proof fn lemma_first_nl_is(s: Seq<u8>, j: nat)
    requires
        j <= s.len(),
        forall|k: int| 0 <= k < j ==> s[k] != NL,
        j < s.len() ==> s[j as int] == NL,
    ensures
        first_nl(s) == j,
    decreases s.len(),
{
    if s.len() == 0 {
    } else if s[0] == NL {
        assert(j == 0);
    } else {
        assert(j >= 1) by {
            if j == 0 {
                assert(s[0] == NL);
            }
        }
        assert forall|k: int| 0 <= k < j - 1 implies s.skip(1)[k] != NL by {
            assert(s.skip(1)[k] == s[k + 1]);
        }
        assert(j - 1 < s.skip(1).len() ==> s.skip(1)[j - 1] == s[j as int]);
        lemma_first_nl_is(s.skip(1), (j - 1) as nat);
    }
}

/// Dropping a newline-free prefix does not change the newline count.
proof fn lemma_count_nl_skip(s: Seq<u8>, j: nat)
    requires
        j <= s.len(),
        forall|k: int| 0 <= k < j ==> s[k] != NL,
    ensures
        count_nl(s) == count_nl(s.skip(j as int)),
    decreases j,
{
    if j == 0 {
        assert(s.skip(0) =~= s);
    } else {
        assert(s[0] != NL);
        assert(count_nl(s) == count_nl(s.skip(1)));
        assert forall|k: int| 0 <= k < j - 1 implies s.skip(1)[k] != NL by {
            assert(s.skip(1)[k] == s[k + 1]);
        }
        lemma_count_nl_skip(s.skip(1), (j - 1) as nat);
        assert(s.skip(1).skip(j - 1) =~= s.skip(j as int));
    }
}

/// Each line accounts for at least one byte of the input, so there are no
/// more lines than bytes.
pub proof fn lemma_lines_len_le(s: Seq<u8>)
    ensures
        lines_of(s).len() <= s.len(),
    decreases s.len(),
{
    if s.len() > 0 {
        let i = first_nl(s);
        if i < s.len() {
            lemma_lines_len_le(s.skip(i + 1 as int));
        }
    }
}

/// The bytes of the lines, terminators included, account for the whole
/// input: no byte is lost or double-counted by line splitting.
pub proof fn lemma_lines_byte_total(s: Seq<u8>)
    ensures
        lines_byte_total(lines_of(s)) == s.len(),
    decreases s.len(),
{
    if s.len() > 0 {
        let i = first_nl(s);
        lemma_first_nl(s);
        let ls = lines_of(s);
        if i < s.len() {
            lemma_lines_byte_total(s.skip(i + 1 as int));
            assert(ls[0] == (s.take(i as int), true));
            assert(ls.skip(1) =~= lines_of(s.skip(i + 1 as int)));
            assert(ls[0].0.len() == i);
            assert(lines_byte_total(ls) == ls[0].0.len() + 1 + lines_byte_total(ls.skip(1)));
            assert(s.skip(i + 1 as int).len() == s.len() - i - 1);
        } else {
            assert(ls == seq![(s, false)]);
            assert(ls[0] == (s, false));
            assert(ls.skip(1) =~= Seq::<(Seq<u8>, bool)>::empty());
            assert(lines_byte_total(ls) == ls[0].0.len() + 0 + lines_byte_total(ls.skip(1)));
            assert(lines_byte_total(ls.skip(1)) == 0);
        }
    }
}

/// The number of lines is the number of newline bytes, plus one when the
/// input ends in an unterminated line. In particular, when every line is
/// terminated the line count equals the newline count.
pub proof fn lemma_lines_count_nl(s: Seq<u8>)
    ensures
        lines_of(s).len() == count_nl(s) + (if s.len() > 0 && s.last() != NL {
            1nat
        } else {
            0nat
        }),
    decreases s.len(),
{
    if s.len() > 0 {
        let i = first_nl(s);
        lemma_first_nl(s);
        if i < s.len() {
            lemma_lines_count_nl(s.skip(i + 1 as int));
            lemma_count_nl_skip(s, i);
            assert(count_nl(s.skip(i as int)) == 1 + count_nl(s.skip(i as int).skip(1)));
            assert(s.skip(i as int).skip(1) =~= s.skip(i + 1 as int));
            if s.skip(i + 1 as int).len() > 0 {
                assert(s.skip(i + 1 as int).last() == s.last());
            } else {
                assert(s.last() == NL);
            }
        } else {
            lemma_count_nl_skip(s, s.len());
        }
    }
}

/// If every line of `s` is terminated, the line count equals the newline count.
pub proof fn lemma_all_terminated_lines_eq_nl(s: Seq<u8>)
    requires
        forall|k: int| 0 <= k < lines_of(s).len() ==> (#[trigger] lines_of(s)[k]).1,
    ensures
        lines_of(s).len() == count_nl(s),
    decreases s.len(),
{
    lemma_lines_count_nl(s);
    if s.len() > 0 && s.last() != NL {
        let i = first_nl(s);
        lemma_first_nl(s);
        if i < s.len() {
            assert(lines_of(s).len() > 0);
            lemma_last_line_unterminated(s);
        } else {
            assert(lines_of(s)[0].1 == false);
        }
    }
}

/// When the input does not end in a newline, its last line is unterminated.
proof fn lemma_last_line_unterminated(s: Seq<u8>)
    requires
        s.len() > 0,
        s.last() != NL,
    ensures
        lines_of(s).len() > 0,
        !lines_of(s).last().1,
    decreases s.len(),
{
    let i = first_nl(s);
    lemma_first_nl(s);
    if i < s.len() {
        let rest = s.skip(i + 1 as int);
        assert(rest.len() > 0) by {
            if rest.len() == 0 {
                assert(s.last() == s[i as int]);
            }
        }
        assert(rest.last() == s.last());
        lemma_last_line_unterminated(rest);
        assert(lines_of(s).last() == lines_of(rest).last());
    }
}

/// Split a byte stream into its lines: terminators are consumed, their
/// presence recorded on each line.
pub fn split_lines(data: &Vec<u8>) -> (r: Vec<RawLine>)
    ensures
        views_of(r@) == lines_of(data@),
{
    let mut r: Vec<RawLine> = Vec::new();
    let mut pos: usize = 0;
    proof {
        assert(data@.skip(0) =~= data@);
        assert(views_of(r@) =~= Seq::<(Seq<u8>, bool)>::empty());
    }
    while pos < data.len()
        invariant
            pos <= data@.len(),
            lines_of(data@) =~= views_of(r@) + lines_of(data@.skip(pos as int)),
        decreases data@.len() - pos,
    {
        let ghost sub = data@.skip(pos as int);
        let mut i: usize = pos;
        let mut line: Vec<u8> = Vec::new();
        while i < data.len() && data[i] != NL
            invariant
                pos <= i <= data@.len(),
                line@ == data@.subrange(pos as int, i as int),
                forall|k: int| pos <= k < i ==> data@[k] != NL,
            decreases data@.len() - i,
        {
            line.push(data[i]);
            i += 1;
        }
        proof {
            assert forall|k: int| 0 <= k < i - pos implies sub[k] != NL by {
                assert(sub[k] == data@[pos + k]);
            }
            assert(i - pos < sub.len() ==> sub[i - pos] == data@[i as int]);
            lemma_first_nl_is(sub, (i - pos) as nat);
            assert(sub.take(i - pos) =~= data@.subrange(pos as int, i as int));
        }
        let ghost old_r = r@;
        if i < data.len() {
            r.push(RawLine { bytes: line, terminated: true });
            proof {
                assert(views_of(r@) =~= views_of(old_r) + seq![(sub.take(i - pos), true)]);
                assert(sub.skip(i - pos + 1) =~= data@.skip(i + 1));
            }
            pos = i + 1;
        } else {
            r.push(RawLine { bytes: line, terminated: false });
            proof {
                assert(line@ =~= sub);
                assert(views_of(r@) =~= views_of(old_r) + seq![(sub, false)]);
                assert(data@.skip(i as int).len() == 0);
            }
            pos = i;
        }
    }
    proof {
        assert(data@.skip(pos as int).len() == 0);
        assert(views_of(r@) =~~= lines_of(data@));
    }
    r
}

} // verus!
