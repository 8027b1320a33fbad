use textutils::head::read_lines;
use textutils::uniq::{group_lines, uniq_output, Config};

fn lines(items: &[&str]) -> Vec<String> {
    items.iter().map(|s| s.to_string()).collect()
}

#[test]
fn adjacent_duplicates_only_are_merged() {
    // a,a,b,a groups as (a,2),(b,1),(a,1) — the non-adjacent a stays apart.
    let groups = group_lines(&lines(&["a", "a", "b", "a"]));
    let described: Vec<(String, usize)> =
        groups.iter().map(|g| (g.text.clone(), g.count)).collect();
    assert_eq!(
        described,
        vec![("a".to_string(), 2), ("b".to_string(), 1), ("a".to_string(), 1)]
    );
}

#[test]
fn grouping_from_raw_bytes() {
    let input = read_lines(&b"a\na\nb\na\n".to_vec());
    let groups = group_lines(&input);
    let counts: Vec<usize> = groups.iter().map(|g| g.count).collect();
    assert_eq!(counts, vec![2, 1, 1]);
}

#[test]
fn empty_input_has_no_groups() {
    assert_eq!(group_lines(&lines(&[])).len(), 0);
    assert_eq!(uniq_output(&group_lines(&lines(&[])), true), Vec::<String>::new());
}

#[test]
fn output_without_counts_is_group_texts() {
    let out = uniq_output(&group_lines(&lines(&["x", "x", "y"])), false);
    assert_eq!(out, vec!["x", "y"]);
}

#[test]
fn output_with_counts_right_aligns_them() {
    let out = uniq_output(&group_lines(&lines(&["x", "x", "x", "y"])), true);
    assert_eq!(out, vec!["   3 x", "   1 y"]);
}

#[test]
fn second_pass_returns_first_pass_output() {
    // Without counts shown, running the grouping over its own output
    // changes nothing.
    let input = lines(&["a", "a", "b", "b", "b", "a", "c", "c"]);
    let first = uniq_output(&group_lines(&input), false);
    let second = uniq_output(&group_lines(&first), false);
    assert_eq!(second, first);
}

#[test]
fn blank_lines_group_like_any_other() {
    let out = uniq_output(&group_lines(&lines(&["", "", "a", ""])), true);
    assert_eq!(out, vec!["   2 ", "   1 a", "   1 "]);
}

#[test]
fn wide_counts_grow_past_the_field() {
    let many = lines(&vec!["z"; 12345]);
    let out = uniq_output(&group_lines(&many), true);
    assert_eq!(out, vec!["12345 z"]);
}

#[test]
fn grouping_config_carries_destination() {
    let c = Config {
        in_file: "-".to_string(),
        out_file: Some("out.txt".to_string()),
        count: true,
    };
    assert_eq!(c.in_file, "-");
    assert_eq!(c.out_file.as_deref(), Some("out.txt"));
    assert!(c.count);
}
