use logmine::ContextSpec;
use logmine::Dict;
use logmine::LogFormat;
use logmine::after_context;
use logmine::before_context;
use logmine::censored_regexps;
use logmine::classify_dynamic_tokens;
use logmine::format_string;
use logmine::parse_lines;
use logmine::regex_generator;
use logmine::reverse_dict;

fn linux_line(content: &str) -> String {
    format!("Jun 14 15:16:02 combo sshd(pam_unix)[19937]: {}", content)
}

#[test]
fn test_end_to_end_classification() {
    // the trigram check^pass;^user is seen once (below the cutoff of 3) and
    // its derived bigrams check^pass; and pass;^user are rare, while
    // user^unknown is common: only pass; centers a window whose two bigrams
    // are both rare, so only pass; is classified dynamic
    let lines = vec![
        linux_line("check pass; user unknown"),
        "###".to_string(),
        linux_line("a1 user unknown"),
        "###".to_string(),
        linux_line("a2 user unknown"),
        "###".to_string(),
        linux_line("a3 user unknown"),
    ];
    let (dbl, trpl, _) = parse_lines(&lines, &LogFormat::Linux, true, 1).unwrap();
    assert_eq!(dbl.get(&"user^unknown".to_string()), Some(4));
    assert_eq!(dbl.get(&"check^pass;".to_string()), Some(1));
    assert_eq!(dbl.get(&"pass;^user".to_string()), Some(1));
    assert_eq!(trpl.get(&"check^pass;^user".to_string()), Some(1));

    let sample = vec![
        "check".to_string(),
        "pass;".to_string(),
        "user".to_string(),
        "unknown".to_string(),
    ];
    let dynamic = classify_dynamic_tokens(&sample, &dbl, &trpl, 3).unwrap();
    assert_eq!(dynamic, vec!["pass;"]);
}

#[test]
fn test_classification_reports_missing_bigram() {
    // dictionaries that know a trigram but not its derived bigram belong to
    // another corpus: the lookup fails loudly instead of defaulting to zero
    let dbl = Dict::new();
    let mut trpl = Dict::new();
    trpl.add("x^y^z".to_string(), 1);
    let sample = vec!["x".to_string(), "y".to_string(), "z".to_string()];
    let err = classify_dynamic_tokens(&sample, &dbl, &trpl, 3).unwrap_err();
    assert_eq!(err.key, "x^y");
}

#[test]
fn test_classification_ignores_unseen_trigrams() {
    // a trigram absent from the dictionary is not considered rare
    let dbl = Dict::new();
    let trpl = Dict::new();
    let sample = vec!["x".to_string(), "y".to_string(), "z".to_string()];
    let dynamic = classify_dynamic_tokens(&sample, &dbl, &trpl, 3).unwrap();
    assert!(dynamic.is_empty());
}

#[test]
fn test_reverse_dict() {
    let mut d = Dict::new();
    d.add("k1".to_string(), 5);
    d.add("k2".to_string(), 2);
    d.add("k3".to_string(), 5);
    let (vals, groups) = reverse_dict(&d);
    assert_eq!(vals, vec![2, 5]);
    assert_eq!(groups.len(), 2);
    assert_eq!(groups[0].0, 5);
    assert_eq!(groups[0].1, vec!["k1", "k3"]);
    assert_eq!(groups[1].0, 2);
    assert_eq!(groups[1].1, vec!["k2"]);
}

#[test]
fn test_before_context_from_line() {
    let re = regex_generator(format_string(&LogFormat::Linux)).unwrap();
    let censors = censored_regexps(&LogFormat::Linux).unwrap();
    let ctx = before_context(
        ContextSpec::FromLine(linux_line("check pass; user unknown")),
        &re,
        &censors,
    );
    assert_eq!(ctx, Some(vec!["user".to_string(), "unknown".to_string()]));

    // a line with fewer than two tokens yields no usable context
    let short = before_context(ContextSpec::FromLine(linux_line("lonely")), &re, &censors);
    assert_eq!(short, None);
}

#[test]
fn test_after_context_sources() {
    let re = regex_generator(format_string(&LogFormat::Linux)).unwrap();
    let censors = censored_regexps(&LogFormat::Linux).unwrap();
    let absent = after_context(ContextSpec::Absent, &re, &censors);
    assert_eq!(absent, Some(Vec::new()));

    let literal = after_context(ContextSpec::Literal("p  q".to_string()), &re, &censors);
    assert_eq!(literal, Some(vec!["p".to_string(), "q".to_string()]));

    let from_line = after_context(
        ContextSpec::FromLine(linux_line("check pass; user unknown")),
        &re,
        &censors,
    );
    assert_eq!(from_line, Some(vec!["check".to_string(), "pass;".to_string()]));
}
