use textutils::wc::{add_tally, gen_config, tally_input, wc_report, Config};

fn bytes(s: &str) -> Vec<u8> {
    s.as_bytes().to_vec()
}

fn all_counters(files: Vec<String>) -> Config {
    Config { files, lines: true, words: true, bytes: true, chars: true }
}

#[test]
fn lines_equal_terminators_when_all_terminated() {
    let t = tally_input(&bytes("a\nbc\n\nd\n"));
    assert_eq!(t.lines, 4);
}

#[test]
fn unterminated_final_line_still_counts() {
    let t = tally_input(&bytes("a\nb"));
    assert_eq!(t.lines, 2);
    assert_eq!(t.bytes, 3);
}

#[test]
fn byte_count_is_input_length() {
    let data = bytes("hello world\nsecond line\n");
    let t = tally_input(&data);
    assert_eq!(t.bytes, data.len() as u64);
}

#[test]
fn empty_input_counts_nothing() {
    let t = tally_input(&bytes(""));
    assert_eq!(t.lines, 0);
    assert_eq!(t.words, 0);
    assert_eq!(t.bytes, 0);
    assert_eq!(t.chars, 0);
}

#[test]
fn words_split_on_whitespace_runs() {
    let t = tally_input(&bytes("  one two\tthree  \n four\n"));
    assert_eq!(t.words, 4);
}

#[test]
fn chars_count_decoded_characters_not_bytes() {
    // The accented character takes two bytes but is a single character.
    let t = tally_input(&bytes("h\u{00e9}llo\n"));
    assert_eq!(t.bytes, 7);
    assert_eq!(t.chars, 6);
}

#[test]
fn totals_sum_counter_by_counter() {
    let a = tally_input(&bytes("a b\n"));
    let b = tally_input(&bytes("c\nd e f\n"));
    let total = add_tally(&a, &b);
    assert_eq!(total.lines, 3);
    assert_eq!(total.words, 6);
    assert_eq!(total.bytes, 12);
    assert_eq!(total.chars, 12);
}

#[test]
fn report_single_stdin_omits_name() {
    let items = vec![("-".to_string(), bytes("a b\n"))];
    let cfg = gen_config(vec!["-".to_string()], false, false, false, false);
    let rows = wc_report(&items, &cfg);
    assert_eq!(rows.len(), 1);
    assert_eq!(rows[0], "       1       2       4");
}

#[test]
fn report_single_file_shows_name() {
    let items = vec![("f.txt".to_string(), bytes("a b\n"))];
    let cfg = gen_config(vec!["f.txt".to_string()], false, false, false, false);
    let rows = wc_report(&items, &cfg);
    assert_eq!(rows.len(), 1);
    assert_eq!(rows[0], "       1       2       4 f.txt");
}

#[test]
fn multi_file_total_row_sums_sizes() {
    // Two inputs of 10 and 20 bytes: the total row reports 30 bytes.
    let ten = bytes("123456789\n");
    let twenty = bytes("abcdefghi\nabcdefghi\n");
    assert_eq!(ten.len(), 10);
    assert_eq!(twenty.len(), 20);
    let items = vec![("a".to_string(), ten), ("b".to_string(), twenty)];

    let only_bytes = Config {
        files: vec![],
        lines: false,
        words: false,
        bytes: true,
        chars: false,
    };
    let rows = wc_report(&items, &only_bytes);
    assert_eq!(rows.len(), 3);
    assert_eq!(rows[0], "      10 a");
    assert_eq!(rows[1], "      20 b");
    assert_eq!(rows[2], "      30 total");

    // The same total appears whatever other counters are selected.
    let items2 = vec![
        ("a".to_string(), bytes("123456789\n")),
        ("b".to_string(), bytes("abcdefghi\nabcdefghi\n")),
    ];
    let every = all_counters(vec![]);
    let rows2 = wc_report(&items2, &every);
    assert_eq!(rows2.len(), 3);
    assert!(rows2[2].contains("      30"));
    assert!(rows2[2].ends_with(" total"));
}

#[test]
fn selected_counters_appear_in_fixed_order() {
    let items = vec![("f".to_string(), bytes("one two\n"))];
    let cfg = Config {
        files: vec![],
        lines: true,
        words: false,
        bytes: true,
        chars: false,
    };
    let rows = wc_report(&items, &cfg);
    assert_eq!(rows[0], "       1       8 f");
}

#[test]
fn gen_config_defaults_to_lines_words_bytes() {
    let c = gen_config(vec!["-".to_string()], false, false, false, false);
    assert!(c.lines && c.words && c.bytes);
    assert!(!c.chars);
    assert_eq!(c.files, vec!["-".to_string()]);
}

#[test]
fn gen_config_keeps_explicit_selection() {
    let c = gen_config(vec![], false, false, false, true);
    assert!(!c.lines && !c.words && !c.bytes);
    assert!(c.chars);
}
