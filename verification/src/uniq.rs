//! The grouping engine: collapse runs of consecutive identical lines,
//! optionally prefixing each surviving line with its occurrence count.
//!
//! Equality is checked only against the immediately preceding line, so
//! non-adjacent duplicates stay distinct groups, in input order.

use vstd::prelude::*;

use crate::numfmt::{dec_rep, right_aligned};
use crate::numfmt::format_aligned;

verus! {

/// Width of the occurrence-count field.
pub const GROUP_COUNT_WIDTH: usize = 4;

/// Configuration for a grouping run: the single input, the optional output
/// destination, and whether counts are shown.
#[derive(Debug)]
pub struct Config {
    pub in_file: String,
    pub out_file: Option<String>,
    pub count: bool,
}

/// One maximal run of consecutive identical lines: its text and how many
/// times it occurred.
pub struct Group {
    pub text: String,
    pub count: usize,
}

/// The views of a sequence of groups, for stating contracts.
pub open spec fn group_views(gs: Seq<Group>) -> Seq<(Seq<char>, nat)> {
    gs.map_values(|g: Group| (g.text@, g.count as nat))
}

/// The groups of a sequence of lines: each line joins the group before it
/// when their texts are equal, and opens a new group otherwise.
pub open spec fn groups_of(ls: Seq<Seq<char>>) -> Seq<(Seq<char>, nat)>
    decreases ls.len(),
{
    if ls.len() == 0 {
        Seq::empty()
    } else {
        let g = groups_of(ls.drop_last());
        let t = ls.last();
        if g.len() > 0 && g.last().0 == t {
            g.update(g.len() - 1, (t, (g.last().1 + 1) as nat))
        } else {
            g.push((t, 1nat))
        }
    }
}

/// Collapse consecutive identical lines into groups, in input order.
pub fn group_lines(lines: &Vec<String>) -> (r: Vec<Group>)
    ensures
        group_views(r@) == groups_of(lines@.map_values(|s: String| s@)),
{
    let ghost ls = lines@.map_values(|s: String| s@);
    let mut r: Vec<Group> = Vec::new();
    let mut cur_text = String::new();
    let mut cur_count: usize = 0;
    let mut i: usize = 0;
    proof {
        assert(ls.take(0) =~= Seq::<Seq<char>>::empty());
        assert(group_views(r@) =~= Seq::<(Seq<char>, nat)>::empty());
    }
    while i < lines.len()
        invariant
            i <= lines@.len(),
            ls == lines@.map_values(|s: String| s@),
            cur_count <= i,
            cur_count == 0 ==> r@.len() == 0 && group_views(r@) == groups_of(ls.take(i as int)),
            cur_count > 0 ==> group_views(r@).push((cur_text@, cur_count as nat)) == groups_of(
                ls.take(i as int),
            ),
        decreases lines@.len() - i,
    {
        let ghost pre = ls.take(i as int);
        let ghost post = ls.take(i + 1);
        proof {
            assert(post.drop_last() =~= pre);
            assert(post.last() == ls[i as int]);
            assert(ls[i as int] == lines@[i as int]@);
        }
        if cur_count > 0 && lines[i] == cur_text {
            cur_count += 1;
            proof {
                let g = groups_of(pre);
                assert(g.len() > 0 && g.last().0 == ls[i as int]);
                assert(g.update(g.len() - 1, (ls[i as int], (g.last().1 + 1) as nat))
                    =~= group_views(r@).push((cur_text@, cur_count as nat)));
            }
        } else {
            if cur_count > 0 {
                let finished = Group { text: cur_text, count: cur_count };
                r.push(finished);
            }
            cur_text = lines[i].clone();
            cur_count = 1;
            proof {
                let g = groups_of(pre);
                if g.len() > 0 {
                    assert(g.last().0 != ls[i as int]);
                }
                assert(g.push((ls[i as int], 1nat)) =~= group_views(r@).push(
                    (cur_text@, cur_count as nat),
                ));
            }
        }
        i += 1;
    }
    if cur_count > 0 {
        let finished = Group { text: cur_text, count: cur_count };
        r.push(finished);
    }
    proof {
        assert(ls.take(i as int) =~= ls);
        assert(group_views(r@) =~~= groups_of(ls));
    }
    r
}

/// The output lines for a sequence of groups: each group's text, prefixed
/// with its right-aligned occurrence count and a space when counts are shown.
pub open spec fn uniq_lines_spec(gs: Seq<(Seq<char>, nat)>, show_count: bool) -> Seq<Seq<char>> {
    gs.map_values(
        |g: (Seq<char>, nat)|
            if show_count {
                right_aligned(dec_rep(g.1), GROUP_COUNT_WIDTH as nat) + seq![' '] + g.0
            } else {
                g.0
            },
    )
}

/// Format the output lines for the given groups.
pub fn uniq_output(groups: &Vec<Group>, show_count: bool) -> (out: Vec<String>)
    ensures
        out@.map_values(|s: String| s@) == uniq_lines_spec(group_views(groups@), show_count),
{
    let mut out: Vec<String> = Vec::new();
    let mut i: usize = 0;
    while i < groups.len()
        invariant
            i <= groups@.len(),
            out@.len() == i,
            forall|k: int|
                0 <= k < i ==> (#[trigger] out@[k])@ == uniq_lines_spec(
                    group_views(groups@),
                    show_count,
                )[k],
        decreases groups@.len() - i,
    {
        let g = &groups[i];
        if show_count {
            let mut line = format_aligned(g.count as u64, GROUP_COUNT_WIDTH);
            proof {
                reveal_strlit(" ");
                assert(" "@ =~= seq![' ']);
            }
            line.append(" ");
            line.append(g.text.as_str());
            out.push(line);
        } else {
            out.push(g.text.clone());
        }
        proof {
            assert(group_views(groups@)[i as int] == (groups@[i as int].text@, groups@[i as
                int].count as nat));
        }
        i += 1;
    }
    proof {
        assert(out@.map_values(|s: String| s@) =~~= uniq_lines_spec(
            group_views(groups@),
            show_count,
        ));
    }
    out
}

/// The texts of a sequence of groups, in order.
pub open spec fn texts_of(gs: Seq<(Seq<char>, nat)>) -> Seq<Seq<char>> {
    gs.map_values(|g: (Seq<char>, nat)| g.0)
}

/// Adjacent groups always hold distinct texts.
pub proof fn lemma_groups_adjacent_distinct(ls: Seq<Seq<char>>)
    ensures
        forall|k: int|
            0 <= k < groups_of(ls).len() - 1 ==> (#[trigger] groups_of(ls)[k]).0 != groups_of(
                ls,
            )[k + 1].0,
    decreases ls.len(),
{
    if ls.len() > 0 {
        lemma_groups_adjacent_distinct(ls.drop_last());
        let g = groups_of(ls.drop_last());
        let t = ls.last();
        let gs = groups_of(ls);
        assert forall|k: int| 0 <= k < gs.len() - 1 implies (#[trigger] gs[k]).0 != gs[k
            + 1].0 by {
            if g.len() > 0 && g.last().0 == t {
                assert(gs == g.update(g.len() - 1, (t, (g.last().1 + 1) as nat)));
                assert(gs[k] == g[k]);
                assert(g[k].0 != g[k + 1].0);
                if k + 1 < g.len() - 1 {
                    assert(gs[k + 1] == g[k + 1]);
                } else {
                    assert(gs[k + 1].0 == t);
                    assert(g[k + 1] == g.last());
                }
            } else {
                assert(gs == g.push((t, 1nat)));
                assert(gs[k] == g[k]);
                if k + 1 < g.len() {
                    assert(g[k].0 != g[k + 1].0);
                    assert(gs[k + 1] == g[k + 1]);
                } else {
                    assert(gs[k + 1].0 == t);
                    assert(g[k] == g.last());
                }
            }
        }
    }
}

/// Grouping a sequence whose adjacent lines are all distinct leaves every
/// line its own group of one.
proof fn lemma_groups_of_distinct(ls: Seq<Seq<char>>)
    requires
        forall|k: int| 0 <= k < ls.len() - 1 ==> (#[trigger] ls[k]) != ls[k + 1],
    ensures
        groups_of(ls) == ls.map_values(|t: Seq<char>| (t, 1nat)),
    decreases ls.len(),
{
    if ls.len() > 0 {
        let pre = ls.drop_last();
        assert forall|k: int| 0 <= k < pre.len() - 1 implies (#[trigger] pre[k]) != pre[k + 1] by {
            assert(pre[k] == ls[k]);
            assert(pre[k + 1] == ls[k + 1]);
        }
        lemma_groups_of_distinct(pre);
        let g = groups_of(pre);
        if g.len() > 0 {
            assert(g.last().0 == pre.last());
            assert(pre.last() == ls[ls.len() - 2]);
            assert(ls[ls.len() - 2] != ls.last());
        }
        assert(groups_of(ls) =~= ls.map_values(|t: Seq<char>| (t, 1nat)));
    } else {
        assert(groups_of(ls) =~= ls.map_values(|t: Seq<char>| (t, 1nat)));
    }
}

/// Running the grouping over its own output changes nothing: without
/// counts shown, the output lines are the group texts, whose adjacent
/// entries are distinct, so a second pass returns them unchanged.
pub proof fn lemma_uniq_idempotent(ls: Seq<Seq<char>>)
    ensures
        uniq_lines_spec(groups_of(uniq_lines_spec(groups_of(ls), false)), false)
            == uniq_lines_spec(groups_of(ls), false),
{
    let first = uniq_lines_spec(groups_of(ls), false);
    assert(first =~= texts_of(groups_of(ls)));
    lemma_groups_adjacent_distinct(ls);
    assert forall|k: int| 0 <= k < first.len() - 1 implies (#[trigger] first[k]) != first[k
        + 1] by {
        assert(first[k] == groups_of(ls)[k].0);
        assert(first[k + 1] == groups_of(ls)[k + 1].0);
    }
    lemma_groups_of_distinct(first);
    assert(uniq_lines_spec(groups_of(first), false) =~= first);
}

} // verus!
