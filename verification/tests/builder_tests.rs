use logmine::Dict;
use logmine::LogFormat;
use logmine::censored_regexps;
use logmine::format_string;
use logmine::parse_lines;
use logmine::process_dictionary_builder_line;
use logmine::regex_generator;

fn linux_line(content: &str) -> String {
    format!("Jun 14 15:16:02 combo sshd(pam_unix)[19937]: {}", content)
}

#[test]
fn test_dictionary_builder_process_line_lookahead_is_none() {
    let line = "Jun 14 15:16:02 combo sshd(pam_unix)[19937]: check pass; user unknown".to_string();
    let re = regex_generator(format_string(&LogFormat::Linux)).unwrap();
    let censors = censored_regexps(&LogFormat::Linux).unwrap();
    let mut dbl = Dict::new();
    let mut trpl = Dict::new();
    let mut all_token_list = Vec::new();
    let (last1, last2) = process_dictionary_builder_line(
        line,
        None,
        &re,
        &censors,
        &mut dbl,
        &mut trpl,
        &mut all_token_list,
        None,
        None,
    );
    assert_eq!((last1, last2), (Some("unknown".to_string()), Some("user".to_string())));

    assert_eq!(dbl.get(&"user^unknown".to_string()), Some(1));
    assert_eq!(dbl.get(&"pass;^user".to_string()), Some(1));
    assert_eq!(dbl.get(&"check^pass;".to_string()), Some(1));
    assert_eq!(dbl.len(), 3);

    assert_eq!(trpl.get(&"pass;^user^unknown".to_string()), Some(1));
    assert_eq!(trpl.get(&"check^pass;^user".to_string()), Some(1));
    assert_eq!(trpl.len(), 2);
}

#[test]
fn test_dictionary_builder_process_line_lookahead_is_some() {
    let line = "Jun 14 15:16:02 combo sshd(pam_unix)[19937]: check pass; user unknown".to_string();
    let next_line = "Jun 14 15:16:02 combo sshd(pam_unix)[19937]: baz bad".to_string();
    let re = regex_generator(format_string(&LogFormat::Linux)).unwrap();
    let censors = censored_regexps(&LogFormat::Linux).unwrap();
    let mut dbl = Dict::new();
    let mut trpl = Dict::new();
    let mut all_token_list = Vec::new();
    let (last1, last2) = process_dictionary_builder_line(
        line,
        Some(next_line),
        &re,
        &censors,
        &mut dbl,
        &mut trpl,
        &mut all_token_list,
        Some("foo".to_string()),
        Some("bar".to_string()),
    );
    assert_eq!((last1, last2), (Some("unknown".to_string()), Some("user".to_string())));

    assert_eq!(dbl.get(&"unknown^baz".to_string()), Some(1));
    assert_eq!(dbl.get(&"foo^check".to_string()), Some(1));
    assert_eq!(dbl.get(&"user^unknown".to_string()), Some(1));
    assert_eq!(dbl.get(&"pass;^user".to_string()), Some(1));
    assert_eq!(dbl.get(&"check^pass;".to_string()), Some(1));
    assert_eq!(dbl.len(), 5);

    assert_eq!(trpl.get(&"pass;^user^unknown".to_string()), Some(1));
    assert_eq!(trpl.get(&"check^pass;^user".to_string()), Some(1));
    assert_eq!(trpl.get(&"unknown^baz^bad".to_string()), Some(1));
    assert_eq!(trpl.get(&"foo^check^pass;".to_string()), Some(1));
    assert_eq!(trpl.get(&"bar^foo^check".to_string()), Some(1));
    assert_eq!(trpl.get(&"user^unknown^baz".to_string()), Some(1));
    assert_eq!(trpl.len(), 6);
}

#[test]
fn test_boundary_stitching_across_lines() {
    // two consecutive lines with tokens [a, b] and [c, d]: the bigram b^c
    // spans the line break and must be counted
    let lines = vec![linux_line("a b"), linux_line("c d")];
    let (dbl, trpl, _tokens) = parse_lines(&lines, &LogFormat::Linux, true, 1).unwrap();
    let b_c = dbl.get(&"b^c".to_string());
    assert!(b_c.is_some());
    assert!(b_c.unwrap() >= 1);
    // the cross-line bigram is seen from both sides (lookahead and carry)
    assert_eq!(dbl.get(&"a^b".to_string()), Some(1));
    assert_eq!(dbl.get(&"b^c".to_string()), Some(2));
    assert_eq!(dbl.get(&"c^d".to_string()), Some(1));
    assert_eq!(dbl.len(), 3);
    assert_eq!(trpl.get(&"a^b^c".to_string()), Some(2));
    assert_eq!(trpl.get(&"b^c^d".to_string()), Some(2));
    assert_eq!(trpl.len(), 2);
}

#[test]
fn test_merge_strategy_equivalence() {
    // local-then-merge and shared-concurrent must yield identical
    // dictionaries for the same corpus and worker count
    let lines = vec![
        linux_line("alpha beta gamma"),
        linux_line("beta gamma delta"),
        linux_line("alpha beta gamma"),
        linux_line("gamma delta alpha"),
        linux_line("beta gamma delta"),
    ];
    let (d1, t1, tok1) = parse_lines(&lines, &LogFormat::Linux, true, 3).unwrap();
    let (d2, t2, tok2) = parse_lines(&lines, &LogFormat::Linux, false, 3).unwrap();
    assert_eq!(tok1, tok2);
    assert_eq!(d1.len(), d2.len());
    assert_eq!(t1.len(), t2.len());
    let (_, groups1) = logmine::reverse_dict(&d1);
    for (v, keys) in groups1 {
        for k in keys {
            assert_eq!(d2.get(&k), Some(v));
        }
    }
    let (_, tgroups1) = logmine::reverse_dict(&t1);
    for (v, keys) in tgroups1 {
        for k in keys {
            assert_eq!(t2.get(&k), Some(v));
        }
    }
}

#[test]
fn test_partition_invariance() {
    // one worker and eight workers must build identical dictionaries
    let lines = vec![
        linux_line("alpha beta gamma"),
        linux_line("beta gamma delta"),
        linux_line("alpha beta gamma"),
        linux_line("gamma delta alpha"),
        linux_line("beta gamma delta"),
    ];
    let (d1, t1, _) = parse_lines(&lines, &LogFormat::Linux, true, 1).unwrap();
    let (d8, t8, _) = parse_lines(&lines, &LogFormat::Linux, true, 8).unwrap();
    assert_eq!(d1.len(), d8.len());
    assert_eq!(t1.len(), t8.len());
    let (_, groups1) = logmine::reverse_dict(&d1);
    for (v, keys) in groups1 {
        for k in keys {
            assert_eq!(d8.get(&k), Some(v));
        }
    }
    let (_, tgroups1) = logmine::reverse_dict(&t1);
    for (v, keys) in tgroups1 {
        for k in keys {
            assert_eq!(t8.get(&k), Some(v));
        }
    }
}

#[test]
fn test_empty_line_breaks_stitching() {
    // a line that does not match the template separates its neighbours:
    // no n-gram joins tokens from before it with tokens from after it
    let lines = vec![linux_line("a b"), "###".to_string(), linux_line("c d")];
    let (dbl, trpl, _) = parse_lines(&lines, &LogFormat::Linux, true, 1).unwrap();
    assert_eq!(dbl.get(&"b^c".to_string()), None);
    assert_eq!(dbl.get(&"a^b".to_string()), Some(1));
    assert_eq!(dbl.get(&"c^d".to_string()), Some(1));
    assert_eq!(dbl.len(), 2);
    assert_eq!(trpl.len(), 0);
}

#[test]
fn test_distinct_token_list_first_seen_order() {
    let lines = vec![linux_line("one two one"), linux_line("two three")];
    let (_, _, tokens) = parse_lines(&lines, &LogFormat::Linux, true, 1).unwrap();
    assert_eq!(tokens, vec!["one", "two", "three"]);
}
