//! Static registry of the supported log formats: each format carries a line
//! template (with `<FieldName>` placeholders) and an ordered list of censoring
//! pattern sources that neutralize already-known-variable substrings before
//! tokenization.

use vstd::prelude::*;

verus! {

/// The eight supported log source formats.
#[derive(Clone, Copy, Debug, PartialEq, Eq, Structural)]
pub enum LogFormat {
    Linux,
    OpenStack,
    Spark,
    HDFS,
    HPC,
    Proxifier,
    Android,
    HealthApp,
}

/// The line template of a format, as a sequence of characters:
/// `<FieldName>` placeholders for fields, literal text for separators.
pub open spec fn format_string_spec(lf: LogFormat) -> Seq<char> {
    match lf {
        LogFormat::Linux => r"<Month> <Date> <Time> <Level> <Component>(\[<PID>\])?: <Content>"@,
        LogFormat::OpenStack => r"'<Logrecord> <Date> <Time> <Pid> <Level> <Component> \[<ADDR>\] <Content>'"@,
        LogFormat::Spark => r"<Date> <Time> <Level> <Component>: <Content>"@,
        LogFormat::HDFS => r"<Date> <Time> <Pid> <Level> <Component>: <Content>"@,
        LogFormat::HPC => r"<LogId> <Node> <Component> <State> <Time> <Flag> <Content>"@,
        LogFormat::Proxifier => r"[<Time>] <Program> - <Content>"@,
        LogFormat::Android => r"<Date> <Time>  <Pid>  <Tid> <Level> <Component>: <Content>"@,
        LogFormat::HealthApp => "<Time>\\|<Component>\\|<Pid>\\|<Content>"@,
    }
}

/// Returns the line template of the given format.
pub fn format_string(lf: &LogFormat) -> (r: String)
    ensures
        r@ == format_string_spec(*lf),
{
    match lf {
        LogFormat::Linux => String::from_str(
            r"<Month> <Date> <Time> <Level> <Component>(\[<PID>\])?: <Content>",
        ),
        LogFormat::OpenStack => String::from_str(
            r"'<Logrecord> <Date> <Time> <Pid> <Level> <Component> \[<ADDR>\] <Content>'",
        ),
        LogFormat::Spark => String::from_str(r"<Date> <Time> <Level> <Component>: <Content>"),
        LogFormat::HDFS => String::from_str(r"<Date> <Time> <Pid> <Level> <Component>: <Content>"),
        LogFormat::HPC => String::from_str(
            r"<LogId> <Node> <Component> <State> <Time> <Flag> <Content>",
        ),
        LogFormat::Proxifier => String::from_str(r"[<Time>] <Program> - <Content>"),
        LogFormat::Android => String::from_str(
            r"<Date> <Time>  <Pid>  <Tid> <Level> <Component>: <Content>",
        ),
        LogFormat::HealthApp => String::from_str("<Time>\\|<Component>\\|<Pid>\\|<Content>"),
    }
}

/// The ordered censoring pattern sources of a format. Each is the source text
/// of a pattern whose matches are replaced by the `<*>` placeholder before
/// tokenization; order matters when patterns overlap.
pub open spec fn censor_sources_spec(lf: LogFormat) -> Seq<Seq<char>> {
    match lf {
        LogFormat::Linux => seq![
            r"(\d+\.){3}\d+"@,
            r"\w{3} \w{3} \d{2} \d{2}:\d{2}:\d{2} \d{4}"@,
            r"\d{2}:\d{2}:\d{2}"@,
        ],
        LogFormat::OpenStack => seq![r"((\d+\.){3}\d+,?)+"@, r"/.+?\s"@],
        LogFormat::Spark => seq![r"(\d+\.){3}\d+"@, r"\b[KGTM]?B\b"@, r"([\w-]+\.){2,}[\w-]+"@],
        LogFormat::HDFS => seq![r"blk_(|-)[0-9]+"@, r"(/|)([0-9]+\.){3}[0-9]+(:[0-9]+|)(:|)"@],
        LogFormat::HPC => seq![r"=\d+"@],
        LogFormat::Proxifier => seq![
            r"<\d+\ssec"@,
            r"([\w-]+\.)+[\w-]+(:\d+)?"@,
            r"\d{2}:\d{2}(:\d{2})*"@,
            r"[KGTM]B"@,
        ],
        LogFormat::Android => seq![
            r"(/[\w-]+)+"@,
            r"([\w-]+\.){2,}[\w-]+"@,
            r"\b(\-?\+?\d+)\b|\b0[Xx][a-fA-F\d]+\b|\b[a-fA-F\d]{4,}\b"@,
        ],
        LogFormat::HealthApp => Seq::empty(),
    }
}

/// Returns the ordered censoring pattern sources of the given format
/// (possibly empty).
pub fn censor_sources(lf: &LogFormat) -> (r: Vec<String>)
    ensures
        r.deep_view() == censor_sources_spec(*lf),
{
    let mut v: Vec<String> = Vec::new();
    match lf {
        LogFormat::Linux => {
            v.push(String::from_str(r"(\d+\.){3}\d+"));
            v.push(String::from_str(r"\w{3} \w{3} \d{2} \d{2}:\d{2}:\d{2} \d{4}"));
            v.push(String::from_str(r"\d{2}:\d{2}:\d{2}"));
        },
        LogFormat::OpenStack => {
            v.push(String::from_str(r"((\d+\.){3}\d+,?)+"));
            v.push(String::from_str(r"/.+?\s"));
        },
        LogFormat::Spark => {
            v.push(String::from_str(r"(\d+\.){3}\d+"));
            v.push(String::from_str(r"\b[KGTM]?B\b"));
            v.push(String::from_str(r"([\w-]+\.){2,}[\w-]+"));
        },
        LogFormat::HDFS => {
            v.push(String::from_str(r"blk_(|-)[0-9]+"));
            v.push(String::from_str(r"(/|)([0-9]+\.){3}[0-9]+(:[0-9]+|)(:|)"));
        },
        LogFormat::HPC => {
            v.push(String::from_str(r"=\d+"));
        },
        LogFormat::Proxifier => {
            v.push(String::from_str(r"<\d+\ssec"));
            v.push(String::from_str(r"([\w-]+\.)+[\w-]+(:\d+)?"));
            v.push(String::from_str(r"\d{2}:\d{2}(:\d{2})*"));
            v.push(String::from_str(r"[KGTM]B"));
        },
        LogFormat::Android => {
            v.push(String::from_str(r"(/[\w-]+)+"));
            v.push(String::from_str(r"([\w-]+\.){2,}[\w-]+"));
            v.push(String::from_str(r"\b(\-?\+?\d+)\b|\b0[Xx][a-fA-F\d]+\b|\b[a-fA-F\d]{4,}\b"));
        },
        LogFormat::HealthApp => {},
    }
    proof {
        assert(v.deep_view() =~= censor_sources_spec(*lf));
    }
    v
}

} // verus!
