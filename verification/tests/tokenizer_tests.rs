use logmine::LogFormat;
use logmine::apply_domain_specific_re;
use logmine::censored_regexps;
use logmine::derive_2grams_from_trigram;
use logmine::format_string;
use logmine::regex_generator;
use logmine::regex_generator_helper;
use logmine::token_splitter;

#[test]
fn test_derive_2grams_from_trigram() {
    let twograms_oracle = vec![("one^two"), ("two^three")];
    let twograms = derive_2grams_from_trigram("one^two^three");
    assert_eq!(twograms, twograms_oracle);
}

#[test]
fn test_format_string_linux() {
    // the optional PID group uses single backslashes, so it can really match
    assert_eq!(
        format_string(&LogFormat::Linux),
        r"<Month> <Date> <Time> <Level> <Component>(\[<PID>\])?: <Content>"
    );
}

#[test]
fn test_regex_generator_helper() {
    let linux_format = r"<Month> <Date> <Time> <Level> <Component>(\[<PID>\])?: <Content>"
        .to_string();
    assert_eq!(
        regex_generator_helper(linux_format),
        r"(?P<Month>.*?)\s+(?P<Date>.*?)\s+(?P<Time>.*?)\s+(?P<Level>.*?)\s+(?P<Component>.*?)(\[(?P<PID>.*?)\])?:\s+(?P<Content>.*?)"
    );

    let openstack_format =
        r"<Logrecord> <Date> <Time> <Pid> <Level> <Component> (\[<ADDR>\])? <Content>".to_string();
    assert_eq!(
        regex_generator_helper(openstack_format),
        r"(?P<Logrecord>.*?)\s+(?P<Date>.*?)\s+(?P<Time>.*?)\s+(?P<Pid>.*?)\s+(?P<Level>.*?)\s+(?P<Component>.*?)\s+(\[(?P<ADDR>.*?)\])?\s+(?P<Content>.*?)"
    );
}

#[test]
fn test_apply_domain_specific_re() {
    let line =
        "q2.34.4.5 Jun 14 15:16:02 combo sshd(pam_unix)[19937]: check pass; Fri Jun 17 20:55:07 2005 user unknown"
            .to_string();
    let censored_line = apply_domain_specific_re(line, &censored_regexps(&LogFormat::Linux).unwrap());
    assert_eq!(
        censored_line,
        " q<*> Jun 14 <*> combo sshd(pam_unix)[19937]: check pass; <*> user unknown"
    );
}

#[test]
fn test_token_splitter() {
    let line = "Jun 14 15:16:02 combo sshd(pam_unix)[19937]: check pass; user unknown".to_string();
    let re = regex_generator(format_string(&LogFormat::Linux)).unwrap();
    let split_line = token_splitter(line, &re, &censored_regexps(&LogFormat::Linux).unwrap());
    assert_eq!(split_line, vec!["check", "pass;", "user", "unknown"]);
}

#[test]
fn test_template_compilation_binds_fields() {
    // a template with two fields and one literal space separator
    let compiled = regex_generator_helper("<A> <Content>".to_string());
    assert_eq!(compiled, r"(?P<A>.*?)\s+(?P<Content>.*?)");

    let re = regex_generator("<A> <Content>".to_string()).unwrap();
    let no_censoring: Vec<logmine::CensorPattern> = Vec::new();
    let tokens = token_splitter("x y".to_string(), &re, &no_censoring);
    assert_eq!(tokens, vec!["y"]);

    // several spaces must behave exactly like one
    let tokens_wide = token_splitter("x    y".to_string(), &re, &no_censoring);
    assert_eq!(tokens_wide, vec!["y"]);
}

#[test]
fn test_tokenize_empty_censoring_is_whitespace_split() {
    // the HealthApp format has an empty censoring list, so tokenizing is
    // plain whitespace-splitting of the Content field
    let re = regex_generator(format_string(&LogFormat::HealthApp)).unwrap();
    let censors = censored_regexps(&LogFormat::HealthApp).unwrap();
    assert!(censors.is_empty());
    let line = "20171223-22:15:29:606|Step_LSC|30002312|onExtend 10 7".to_string();
    let tokens = token_splitter(line, &re, &censors);
    assert_eq!(tokens, vec!["onExtend", "10", "7"]);
}

#[test]
fn test_unmatched_line_yields_no_tokens() {
    let re = regex_generator(format_string(&LogFormat::Linux)).unwrap();
    let censors = censored_regexps(&LogFormat::Linux).unwrap();
    let tokens = token_splitter("###".to_string(), &re, &censors);
    assert!(tokens.is_empty());
}
