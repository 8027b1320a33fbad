//! The counting engine: line, word, byte and character counts per input and
//! in total, and the formatted report rows.

use vstd::prelude::*;

use crate::decode::{decode_lossy, decoded};
use crate::lines::{count_nl, lines_of, lemma_lines_count_nl, lemma_lines_len_le, NL};
use crate::numfmt::{dec_rep, right_aligned, format_aligned};

verus! {

/// Width of one counter field in a report row.
pub const COUNT_FIELD_WIDTH: usize = 8;

/// Configuration for a counting run: the inputs and which counters to show.
#[derive(Debug)]
pub struct Config {
    pub files: Vec<String>,
    pub lines: bool,
    pub words: bool,
    pub bytes: bool,
    pub chars: bool,
}

/// Build a counting configuration. When no counter at all was selected, the
/// conventional default of lines, words and bytes is selected instead.
pub fn gen_config(files: Vec<String>, lines: bool, words: bool, bytes: bool, chars: bool) -> (c:
    Config)
    ensures
        c.files == files,
        (!lines && !words && !bytes && !chars) ==> (c.lines && c.words && c.bytes && !c.chars),
        (lines || words || bytes || chars) ==> (c.lines == lines && c.words == words && c.bytes
            == bytes && c.chars == chars),
{
    if !lines && !words && !bytes && !chars {
        Config { files, lines: true, words: true, bytes: true, chars: false }
    } else {
        Config { files, lines, words, bytes, chars }
    }
}

/// Whether a character separates words.
pub open spec fn is_space(c: char) -> bool {
    c == ' ' || c == '\t' || c == '\n' || c == '\r' || c == '\u{000B}' || c == '\u{000C}' || c
        == '\u{0085}' || c == '\u{00A0}' || c == '\u{1680}' || c == '\u{2000}' || c == '\u{2001}'
        || c == '\u{2002}' || c == '\u{2003}' || c == '\u{2004}' || c == '\u{2005}' || c
        == '\u{2006}' || c == '\u{2007}' || c == '\u{2008}' || c == '\u{2009}' || c == '\u{200A}'
        || c == '\u{2028}' || c == '\u{2029}' || c == '\u{202F}' || c == '\u{205F}' || c
        == '\u{3000}'
}

/// Whether a character separates words (executable form).
pub fn is_space_char(c: char) -> (b: bool)
    ensures
        b == is_space(c),
{
    c == ' ' || c == '\t' || c == '\n' || c == '\r' || c == '\u{000B}' || c == '\u{000C}' || c
        == '\u{0085}' || c == '\u{00A0}' || c == '\u{1680}' || c == '\u{2000}' || c == '\u{2001}'
        || c == '\u{2002}' || c == '\u{2003}' || c == '\u{2004}' || c == '\u{2005}' || c
        == '\u{2006}' || c == '\u{2007}' || c == '\u{2008}' || c == '\u{2009}' || c == '\u{200A}'
        || c == '\u{2028}' || c == '\u{2029}' || c == '\u{202F}' || c == '\u{205F}' || c
        == '\u{3000}'
}

/// The number of maximal whitespace-delimited non-empty tokens in `s`,
/// counted as the number of positions where a word starts.
pub open spec fn word_count(s: Seq<char>) -> nat
    decreases s.len(),
{
    if s.len() == 0 {
        0
    } else {
        word_count(s.drop_last()) + (if !is_space(s.last()) && (s.len() == 1 || is_space(
            s[s.len() - 2],
        )) {
            1nat
        } else {
            0nat
        })
    }
}

/// A word start is a position at most one past a previous position, so there
/// are never more words than characters.
proof fn lemma_word_count_le(s: Seq<char>)
    ensures
        word_count(s) <= s.len(),
    decreases s.len(),
{
    if s.len() > 0 {
        lemma_word_count_le(s.drop_last());
    }
}

/// Count the whitespace-delimited words of `s`.
pub fn count_words(s: &str) -> (n: usize)
    ensures
        n as nat == word_count(s@),
{
    let len = s.unicode_len();
    let mut n: usize = 0;
    let mut i: usize = 0;
    while i < len
        invariant
            i <= len,
            len as nat == s@.len(),
            n as nat == word_count(s@.take(i as int)),
            n <= i,
        decreases len - i,
    {
        let c = s.get_char(i);
        let starts = if !is_space_char(c) {
            if i == 0 {
                true
            } else {
                is_space_char(s.get_char(i - 1))
            }
        } else {
            false
        };
        proof {
            let p = s@.take(i + 1);
            assert(p.drop_last() =~= s@.take(i as int));
            assert(p.last() == s@[i as int]);
            assert(i > 0 ==> p[p.len() - 2] == s@[i - 1]);
            lemma_word_count_le(s@.take(i as int));
        }
        if starts {
            n += 1;
        }
        i += 1;
    }
    proof {
        assert(s@.take(len as int) =~= s@);
    }
    n
}

/// Count the lines of a byte stream: one per terminator, plus one when the
/// stream ends in an unterminated line.
pub fn count_lines(data: &Vec<u8>) -> (n: usize)
    ensures
        n as nat == lines_of(data@).len(),
{
    let mut n: usize = 0;
    let mut i: usize = 0;
    proof {
        assert(data@.skip(0) =~= data@);
    }
    while i < data.len()
        invariant
            i <= data@.len(),
            n <= i,
            count_nl(data@) == n + count_nl(data@.skip(i as int)),
        decreases data@.len() - i,
    {
        proof {
            let sub = data@.skip(i as int);
            assert(sub[0] == data@[i as int]);
            assert(sub.skip(1) =~= data@.skip(i + 1));
            assert(count_nl(sub) == (if sub[0] == NL {
                1nat
            } else {
                0nat
            }) + count_nl(sub.skip(1)));
        }
        if data[i] == NL {
            n += 1;
        }
        i += 1;
    }
    proof {
        assert(data@.skip(i as int).len() == 0);
        lemma_lines_count_nl(data@);
        lemma_lines_len_le(data@);
    }
    if data.len() > 0 && data[data.len() - 1] != NL {
        n + 1
    } else {
        n
    }
}

/// The four counters for one input, and their running totals.
pub struct Tally {
    pub lines: u64,
    pub words: u64,
    pub bytes: u64,
    pub chars: u64,
}

/// The line count of an input.
pub open spec fn spec_lines(data: Seq<u8>) -> nat {
    lines_of(data).len()
}

/// The word count of an input: the words of its decoded text.
pub open spec fn spec_words(data: Seq<u8>) -> nat {
    word_count(decoded(data))
}

/// The character count of an input: the length of its decoded text.
pub open spec fn spec_chars(data: Seq<u8>) -> nat {
    decoded(data).len()
}

/// Count lines, words, bytes and characters of one input.
pub fn tally_input(data: &Vec<u8>) -> (t: Tally)
    ensures
        t.lines as nat == spec_lines(data@),
        t.words as nat == spec_words(data@),
        t.bytes as nat == data@.len(),
        t.chars as nat == spec_chars(data@),
{
    let text = decode_lossy(data);
    let lines = count_lines(data);
    let words = count_words(text.as_str());
    let chars = text.as_str().unicode_len();
    Tally {
        lines: lines as u64,
        words: words as u64,
        bytes: data.len() as u64,
        chars: chars as u64,
    }
}

/// Addition capped at the largest representable value.
pub open spec fn sat(a: nat, b: nat) -> nat {
    if a + b > u64::MAX {
        u64::MAX as nat
    } else {
        a + b
    }
}

/// Add two counters, capping at the largest representable value.
pub fn sat_add(a: u64, b: u64) -> (r: u64)
    ensures
        r as nat == sat(a as nat, b as nat),
{
    if a <= u64::MAX - b {
        a + b
    } else {
        u64::MAX
    }
}

/// Fold one input's counters into a running total, counter by counter.
pub fn add_tally(total: &Tally, t: &Tally) -> (r: Tally)
    ensures
        r.lines as nat == sat(total.lines as nat, t.lines as nat),
        r.words as nat == sat(total.words as nat, t.words as nat),
        r.bytes as nat == sat(total.bytes as nat, t.bytes as nat),
        r.chars as nat == sat(total.chars as nat, t.chars as nat),
{
    Tally {
        lines: sat_add(total.lines, t.lines),
        words: sat_add(total.words, t.words),
        bytes: sat_add(total.bytes, t.bytes),
        chars: sat_add(total.chars, t.chars),
    }
}

/// One right-aligned counter field of a report row.
pub open spec fn field_spec(n: nat) -> Seq<char> {
    right_aligned(dec_rep(n), COUNT_FIELD_WIDTH as nat)
}

/// A report row: the selected counters in the fixed order lines, words,
/// bytes, characters, each right-aligned, then the input name if one is
/// shown, set off by a space.
pub open spec fn row_spec(
    l: nat,
    w: nat,
    b: nat,
    c: nat,
    show_l: bool,
    show_w: bool,
    show_b: bool,
    show_c: bool,
    name: Option<Seq<char>>,
) -> Seq<char> {
    (if show_l {
        field_spec(l)
    } else {
        Seq::empty()
    }) + (if show_w {
        field_spec(w)
    } else {
        Seq::empty()
    }) + (if show_b {
        field_spec(b)
    } else {
        Seq::empty()
    }) + (if show_c {
        field_spec(c)
    } else {
        Seq::empty()
    }) + (match name {
        Some(nm) => seq![' '] + nm,
        None => Seq::empty(),
    })
}

/// Format one report row for the given tally.
pub fn format_row(t: &Tally, config: &Config, name: Option<&str>) -> (r: String)
    ensures
        r@ == row_spec(
            t.lines as nat,
            t.words as nat,
            t.bytes as nat,
            t.chars as nat,
            config.lines,
            config.words,
            config.bytes,
            config.chars,
            match name {
                Some(nm) => Some(nm@),
                None => None,
            },
        ),
{
    let mut r = String::new();
    if config.lines {
        r.append(format_aligned(t.lines, COUNT_FIELD_WIDTH).as_str());
    }
    if config.words {
        r.append(format_aligned(t.words, COUNT_FIELD_WIDTH).as_str());
    }
    if config.bytes {
        r.append(format_aligned(t.bytes, COUNT_FIELD_WIDTH).as_str());
    }
    if config.chars {
        r.append(format_aligned(t.chars, COUNT_FIELD_WIDTH).as_str());
    }
    match name {
        Some(nm) => {
            proof {
                reveal_strlit(" ");
                assert(" "@ =~= seq![' ']);
            }
            r.append(" ");
            r.append(nm);
        },
        None => {},
    }
    r
}

/// The four running totals over a sequence of inputs, each counter summed
/// with `sat`, in input order.
pub open spec fn spec_totals(items: Seq<Seq<u8>>) -> (nat, nat, nat, nat)
    decreases items.len(),
{
    if items.len() == 0 {
        (0nat, 0nat, 0nat, 0nat)
    } else {
        let p = spec_totals(items.drop_last());
        let d = items.last();
        (
            sat(p.0, spec_lines(d)),
            sat(p.1, spec_words(d)),
            sat(p.2, d.len()),
            sat(p.3, spec_chars(d)),
        )
    }
}

/// The total byte length of a sequence of inputs.
pub open spec fn sum_bytes(items: Seq<Seq<u8>>) -> nat
    decreases items.len(),
{
    if items.len() == 0 {
        0
    } else {
        sum_bytes(items.drop_last()) + items.last().len()
    }
}

/// Summing the per-input byte counts recovers each input's measured size:
/// as long as the sum is representable, the reported byte total is exactly
/// the combined length of all inputs.
pub proof fn lemma_total_bytes_exact(items: Seq<Seq<u8>>)
    requires
        sum_bytes(items) <= u64::MAX,
    ensures
        spec_totals(items).2 == sum_bytes(items),
    decreases items.len(),
{
    if items.len() > 0 {
        lemma_total_bytes_exact(items.drop_last());
    }
}

/// The name shown on row `k` of a report: the input's own name, unless the
/// single input was standard input.
pub open spec fn row_name(items: Seq<(String, Vec<u8>)>, k: int) -> Option<Seq<char>> {
    if items.len() == 1 && items[0].0@ == "-"@ {
        None
    } else {
        Some(items[k].0@)
    }
}

/// The contents of the inputs alone, without their names.
pub open spec fn datas_of(items: Seq<(String, Vec<u8>)>) -> Seq<Seq<u8>> {
    items.map_values(|it: (String, Vec<u8>)| it.1@)
}

/// Count every input and format the report: one row per input, and a final
/// `total` row when more than one input was counted.
pub fn wc_report(items: &Vec<(String, Vec<u8>)>, config: &Config) -> (out: Vec<String>)
    ensures
        out@.len() == items@.len() + (if items@.len() > 1 {
            1int
        } else {
            0int
        }),
        forall|k: int|
            0 <= k < items@.len() ==> out@[k]@ == row_spec(
                spec_lines(items@[k].1@),
                spec_words(items@[k].1@),
                items@[k].1@.len(),
                spec_chars(items@[k].1@),
                config.lines,
                config.words,
                config.bytes,
                config.chars,
                row_name(items@, k),
            ),
        items@.len() > 1 ==> out@.last()@ == row_spec(
            spec_totals(datas_of(items@)).0,
            spec_totals(datas_of(items@)).1,
            spec_totals(datas_of(items@)).2,
            spec_totals(datas_of(items@)).3,
            config.lines,
            config.words,
            config.bytes,
            config.chars,
            Some("total"@),
        ),
{
    let dash = "-".to_owned();
    let show_names = !(items.len() == 1 && items[0].0 == dash);
    proof {
        assert(dash@ == "-"@);
    }
    let mut out: Vec<String> = Vec::new();
    let mut total = Tally { lines: 0, words: 0, bytes: 0, chars: 0 };
    let mut i: usize = 0;
    while i < items.len()
        invariant
            i <= items@.len(),
            out@.len() == i,
            show_names == !(items@.len() == 1 && items@[0].0@ == "-"@),
            forall|k: int|
                0 <= k < i ==> out@[k]@ == row_spec(
                    spec_lines(items@[k].1@),
                    spec_words(items@[k].1@),
                    items@[k].1@.len(),
                    spec_chars(items@[k].1@),
                    config.lines,
                    config.words,
                    config.bytes,
                    config.chars,
                    row_name(items@, k),
                ),
            total.lines as nat == spec_totals(datas_of(items@).take(i as int)).0,
            total.words as nat == spec_totals(datas_of(items@).take(i as int)).1,
            total.bytes as nat == spec_totals(datas_of(items@).take(i as int)).2,
            total.chars as nat == spec_totals(datas_of(items@).take(i as int)).3,
        decreases items@.len() - i,
    {
        let item = &items[i];
        let t = tally_input(&item.1);
        let name = if show_names {
            Some(item.0.as_str())
        } else {
            None
        };
        let row = format_row(&t, config, name);
        out.push(row);
        total = add_tally(&total, &t);
        proof {
            let pre = datas_of(items@).take(i as int);
            let post = datas_of(items@).take(i + 1);
            assert(post.drop_last() =~= pre);
            assert(post.last() == items@[i as int].1@);
        }
        i += 1;
    }
    if items.len() > 1 {
        let label = "total".to_owned();
        let row = format_row(&total, config, Some(label.as_str()));
        out.push(row);
        proof {
            assert(datas_of(items@).take(items@.len() as int) =~= datas_of(items@));
        }
    } else {
        proof {
            assert(datas_of(items@).take(items@.len() as int) =~= datas_of(items@));
        }
    }
    out
}

/// When every line of an input carries its terminator, the line count is
/// exactly the number of terminator bytes in the input.
pub proof fn lemma_lines_all_terminated(data: Seq<u8>)
    requires
        forall|k: int| 0 <= k < lines_of(data).len() ==> (#[trigger] lines_of(data)[k]).1,
    ensures
        spec_lines(data) == count_nl(data),
{
    crate::lines::lemma_all_terminated_lines_eq_nl(data);
}

} // verus!
