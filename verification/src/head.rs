//! The truncation engine: the first N lines or first N bytes of each input,
//! with banner lines when several inputs are shown.

use vstd::prelude::*;

use crate::decode::{decode_lossy, decoded};
use crate::lines::{first_nl, lemma_first_nl, lines_of, split_lines, views_of, NL};

verus! {

/// The default number of lines shown for each input.
pub const DEFAULT_LINES: usize = 10;

/// Configuration for a truncation run: the inputs, the line limit, and the
/// byte limit that replaces it when set.
#[derive(Debug)]
pub struct Config {
    pub files: Vec<String>,
    pub lines: usize,
    pub bytes: Option<usize>,
}

/// How many leading bytes of `s` make up its first `n` lines, terminators
/// included; the whole input when it has fewer lines.
pub open spec fn line_prefix_len(s: Seq<u8>, n: nat) -> nat
    decreases n,
{
    if n == 0 || s.len() == 0 {
        0
    } else {
        let i = first_nl(s);
        if i < s.len() {
            i + 1 + line_prefix_len(s.skip(i + 1 as int), (n - 1) as nat)
        } else {
            s.len()
        }
    }
}

/// The first `n` lines of `s`, terminators included.
pub open spec fn take_lines(s: Seq<u8>, n: nat) -> Seq<u8> {
    s.take(line_prefix_len(s, n) as int)
}

/// The line prefix stays within the input.
proof fn lemma_line_prefix_len_le(s: Seq<u8>, n: nat)
    ensures
        line_prefix_len(s, n) <= s.len(),
    decreases n,
{
    if n > 0 && s.len() > 0 {
        let i = first_nl(s);
        lemma_first_nl(s);
        if i < s.len() {
            lemma_line_prefix_len_le(s.skip(i + 1 as int), (n - 1) as nat);
        }
    }
}

/// Taking zero lines takes nothing, whatever the input holds.
pub proof fn lemma_take_zero_lines(s: Seq<u8>)
    ensures
        take_lines(s, 0) == Seq::<u8>::empty(),
{
    assert(take_lines(s, 0) =~= Seq::<u8>::empty());
}

/// Consuming one byte of the input: a newline byte finishes a line, any
/// other byte stays within the current one.
proof fn lemma_take_lines_step(s: Seq<u8>, n: nat)
    requires
        s.len() > 0,
        n > 0,
    ensures
        take_lines(s, n) == seq![s[0]] + take_lines(
            s.skip(1),
            if s[0] == NL {
                (n - 1) as nat
            } else {
                n
            },
        ),
{
    let i = first_nl(s);
    lemma_first_nl(s);
    if s[0] == NL {
        assert(i == 0);
        assert(line_prefix_len(s, n) == 1 + line_prefix_len(s.skip(1), (n - 1) as nat));
        lemma_line_prefix_len_le(s.skip(1), (n - 1) as nat);
        assert(take_lines(s, n) =~= seq![s[0]] + take_lines(s.skip(1), (n - 1) as nat));
    } else {
        let s1 = s.skip(1);
        assert(i == 1 + first_nl(s1));
        let j = first_nl(s1);
        lemma_first_nl(s1);
        if i < s.len() {
            assert(s1.skip(j + 1 as int) =~= s.skip(i + 1 as int));
            assert(line_prefix_len(s, n) == 1 + line_prefix_len(s1, n));
            lemma_line_prefix_len_le(s1, n);
            assert(take_lines(s, n) =~= seq![s[0]] + take_lines(s1, n));
        } else {
            assert(line_prefix_len(s, n) == s.len());
            assert(line_prefix_len(s1, n) == s1.len());
            assert(take_lines(s, n) =~= seq![s[0]] + take_lines(s1, n));
        }
    }
}

/// The first `n` lines of the input, terminators included: everything when
/// the input has no more than `n` lines, and nothing at all when `n` is zero.
pub fn head_lines(data: &Vec<u8>, n: usize) -> (out: Vec<u8>)
    ensures
        out@ == take_lines(data@, n as nat),
{
    let mut out: Vec<u8> = Vec::new();
    let mut i: usize = 0;
    let mut remaining: usize = n;
    proof {
        assert(data@.skip(0) =~= data@);
    }
    while i < data.len() && remaining > 0
        invariant
            i <= data@.len(),
            remaining <= n,
            take_lines(data@, n as nat) =~= out@ + take_lines(
                data@.skip(i as int),
                remaining as nat,
            ),
        decreases data@.len() - i,
    {
        let b = data[i];
        proof {
            let sub = data@.skip(i as int);
            assert(sub[0] == data@[i as int]);
            lemma_take_lines_step(sub, remaining as nat);
            assert(sub.skip(1) =~= data@.skip(i + 1));
        }
        out.push(b);
        i += 1;
        if b == NL {
            remaining -= 1;
        }
    }
    proof {
        if remaining == 0 {
            lemma_take_zero_lines(data@.skip(i as int));
        } else {
            assert(data@.skip(i as int).len() == 0);
            assert(take_lines(data@.skip(i as int), remaining as nat) =~= Seq::<u8>::empty());
        }
        assert(out@ =~= take_lines(data@, n as nat));
    }
    out
}

/// The byte prefix a byte-limited run emits: the first `n` bytes, or the
/// whole input when it is shorter.
pub open spec fn byte_prefix(s: Seq<u8>, n: nat) -> Seq<u8> {
    if n >= s.len() {
        s
    } else {
        s.take(n as int)
    }
}

/// A byte limit at or beyond the input's size returns the entire input.
pub proof fn lemma_byte_prefix_whole(s: Seq<u8>, n: nat)
    requires
        n >= s.len(),
    ensures
        byte_prefix(s, n) == s,
{
}

/// The first `n` bytes of the input, or all of it when it is shorter.
pub fn head_bytes(data: &Vec<u8>, n: usize) -> (out: Vec<u8>)
    ensures
        out@ == byte_prefix(data@, n as nat),
{
    let limit = if n < data.len() {
        n
    } else {
        data.len()
    };
    let mut out: Vec<u8> = Vec::new();
    let mut i: usize = 0;
    while i < limit
        invariant
            i <= limit,
            limit == if n < data@.len() {
                n as int
            } else {
                data@.len() as int
            },
            out@ =~= data@.take(i as int),
        decreases limit - i,
    {
        out.push(data[i]);
        i += 1;
    }
    proof {
        assert(out@ =~= byte_prefix(data@, n as nat));
    }
    out
}

/// Decode a byte-limited prefix for display.
pub fn head_bytes_text(data: &Vec<u8>, n: usize) -> (out: String)
    ensures
        out@ == decoded(byte_prefix(data@, n as nat)),
{
    let prefix = head_bytes(data, n);
    decode_lossy(&prefix)
}

/// The banner line naming which input's content follows.
pub open spec fn banner_spec(name: Seq<char>) -> Seq<char> {
    "==> "@ + name + " <=="@
}

/// Format the banner for one input.
pub fn banner(name: &str) -> (r: String)
    ensures
        r@ == banner_spec(name@),
{
    let mut r = "==> ".to_owned();
    r.append(name);
    r.append(" <==");
    r
}

/// What precedes one input's content: nothing for a single input; with
/// several, the input's banner on its own line, preceded by a blank line for
/// every input except the first.
pub open spec fn header_spec(file_num: nat, num_files: nat, name: Seq<char>) -> Seq<char> {
    if num_files > 1 {
        (if file_num > 0 {
            "\n"@
        } else {
            Seq::empty()
        }) + banner_spec(name) + "\n"@
    } else {
        Seq::empty()
    }
}

/// Format what precedes the content of input `file_num` of `num_files`.
pub fn file_header(file_num: usize, num_files: usize, name: &str) -> (r: String)
    ensures
        r@ == header_spec(file_num as nat, num_files as nat, name@),
{
    if num_files > 1 {
        let mut r = if file_num > 0 {
            "\n".to_owned()
        } else {
            String::new()
        };
        r.append(banner(name).as_str());
        r.append("\n");
        r
    } else {
        String::new()
    }
}

/// The decoded text of each line of `s`, terminators excluded.
pub open spec fn decoded_lines(s: Seq<u8>) -> Seq<Seq<char>> {
    lines_of(s).map_values(|l: (Seq<u8>, bool)| decoded(l.0))
}

/// Read an input's lines as text: split at terminators, which are consumed,
/// and decode each line.
pub fn read_lines(data: &Vec<u8>) -> (r: Vec<String>)
    ensures
        r@.map_values(|s: String| s@) == decoded_lines(data@),
{
    let raw = split_lines(data);
    let mut r: Vec<String> = Vec::new();
    let mut i: usize = 0;
    while i < raw.len()
        invariant
            i <= raw@.len(),
            views_of(raw@) == lines_of(data@),
            r@.len() == i,
            forall|k: int| 0 <= k < i ==> (#[trigger] r@[k])@ == decoded(lines_of(data@)[k].0),
        decreases raw@.len() - i,
    {
        let text = decode_lossy(&raw[i].bytes);
        proof {
            assert(views_of(raw@)[i as int] == raw@[i as int]@);
        }
        r.push(text);
        i += 1;
    }
    proof {
        assert(r@.map_values(|s: String| s@) =~= decoded_lines(data@));
    }
    r
}

} // verus!
