//! The main command line: report mode, output file and inputs.

use vstd::prelude::*;
use vstd::view::View as _;
use crate::strings::{chars_of, concat_str, str_eq, strings_views};
use crate::cloud::{opt_view, starts_with_dash};

verus! {

/// Report output mode.
#[derive(Debug, Clone, Copy, PartialEq, Eq, Structural)]
pub enum ReportMode {
    Tui,
    Text,
    Json,
    Summary,
    Logs,
    Spans,
    Transcript,
    Dump,
    Timeline,
    Pcap,
}

/// Command line options.
pub struct CliOptions {
    /// Input paths (folders, ZIPs, or PCAPs)
    pub inputs: Vec<String>,
    pub report_mode: ReportMode,
    pub output_file: Option<String>,
}

/// What the command line asks for: the help text, or a run.
pub enum ParsedArgs {
    Help,
    Run(CliOptions),
}

/// Mathematical form of a parsed command line.
pub enum ArgsModel {
    Help,
    Run { inputs: Seq<Seq<char>>, report_mode: ReportMode, output_file: Option<Seq<char>> },
}

impl ParsedArgs {
    pub open spec fn model(self) -> ArgsModel {
        match self {
            ParsedArgs::Help => ArgsModel::Help,
            ParsedArgs::Run(o) => ArgsModel::Run {
                inputs: strings_views(o.inputs@),
                report_mode: o.report_mode,
                output_file: opt_view(o.output_file),
            },
        }
    }
}

/// The report mode that a flag selects, if it is one of the mode flags.
pub open spec fn mode_flag(a: Seq<char>) -> Option<ReportMode> {
    if a == "-r"@ || a == "--report"@ { Some(ReportMode::Text) }
    else if a == "--json"@ { Some(ReportMode::Json) }
    else if a == "--summary"@ { Some(ReportMode::Summary) }
    else if a == "--logs"@ { Some(ReportMode::Logs) }
    else if a == "--spans"@ { Some(ReportMode::Spans) }
    else if a == "--transcript"@ { Some(ReportMode::Transcript) }
    else if a == "--dump"@ { Some(ReportMode::Dump) }
    else if a == "--timeline"@ { Some(ReportMode::Timeline) }
    else if a == "--pcap"@ { Some(ReportMode::Pcap) }
    else { None }
}

/// Scan the command line from position `i`: the help flag stops the scan,
/// the last mode flag wins, `-o` takes the next argument, an unknown flag is
/// an error, and anything else is an input.
pub open spec fn scan_main_args(
    args: Seq<Seq<char>>,
    i: int,
    mode: ReportMode,
    output: Option<Seq<char>>,
    inputs: Seq<Seq<char>>,
) -> Result<ArgsModel, Seq<char>>
    decreases args.len() - i,
{
    if i < 0 || i >= args.len() {
        if inputs.len() == 0 {
            Err("No input specified"@)
        } else {
            Ok(ArgsModel::Run { inputs, report_mode: mode, output_file: output })
        }
    } else {
        let a = args[i];
        if a == "-h"@ || a == "--help"@ {
            Ok(ArgsModel::Help)
        } else if mode_flag(a) is Some {
            scan_main_args(args, i + 1, mode_flag(a)->0, output, inputs)
        } else if a == "-o"@ || a == "--output"@ {
            if i + 1 >= args.len() {
                Err("--output requires a file path argument"@)
            } else {
                scan_main_args(args, i + 2, mode, Some(args[i + 1]), inputs)
            }
        } else if starts_with_dash(a) {
            Err("Unknown option: "@ + a)
        } else {
            scan_main_args(args, i + 1, mode, output, inputs.push(a))
        }
    }
}

/// The parsed command line; the first argument is the program name.
pub open spec fn spec_parse_args(args: Seq<Seq<char>>) -> Result<ArgsModel, Seq<char>> {
    scan_main_args(args, 1, ReportMode::Tui, None, Seq::empty())
}

fn mode_flag_exec(a: &str) -> (res: Option<ReportMode>)
    ensures
        res == mode_flag(a@),
{
    if str_eq(a, "-r") || str_eq(a, "--report") { Some(ReportMode::Text) }
    else if str_eq(a, "--json") { Some(ReportMode::Json) }
    else if str_eq(a, "--summary") { Some(ReportMode::Summary) }
    else if str_eq(a, "--logs") { Some(ReportMode::Logs) }
    else if str_eq(a, "--spans") { Some(ReportMode::Spans) }
    else if str_eq(a, "--transcript") { Some(ReportMode::Transcript) }
    else if str_eq(a, "--dump") { Some(ReportMode::Dump) }
    else if str_eq(a, "--timeline") { Some(ReportMode::Timeline) }
    else if str_eq(a, "--pcap") { Some(ReportMode::Pcap) }
    else { None }
}

fn dash_first(a: &str) -> (res: bool)
    ensures
        res == starts_with_dash(a@),
{
    let v = chars_of(a);
    v.len() > 0 && v[0] == '-'
}

/// Parse the command line (program name first).
pub fn parse_args(args: &[String]) -> (res: Result<ParsedArgs, String>)
    requires
        args.len() >= 1,
    ensures
        match (res, spec_parse_args(strings_views(args@))) {
            (Ok(p), Ok(m)) => p.model() == m,
            (Err(e), Err(m)) => e@ == m,
            _ => false,
        },
{
    let ghost av = strings_views(args@);
    let mut report_mode = ReportMode::Tui;
    let mut output_file: Option<String> = None;
    let mut inputs: Vec<String> = Vec::new();
    let mut i: usize = 1;
    assert(strings_views(inputs@) =~= Seq::<Seq<char>>::empty());
    while i < args.len()
        invariant
            1 <= i <= args.len() + 1,
            av == strings_views(args@),
            spec_parse_args(av) == scan_main_args(av, i as int, report_mode, opt_view(output_file), strings_views(inputs@)),
        decreases args.len() + 1 - i,
    {
        let a = args[i].as_str();
        assert(av[i as int] == a@);
        if str_eq(a, "-h") || str_eq(a, "--help") {
            return Ok(ParsedArgs::Help);
        }
        match mode_flag_exec(a) {
            Some(m) => {
                report_mode = m;
                i = i + 1;
            },
            None => {
                if str_eq(a, "-o") || str_eq(a, "--output") {
                    if i + 1 >= args.len() {
                        return Err(String::from_str("--output requires a file path argument"));
                    }
                    assert(av[i + 1] == args@[i + 1]@);
                    output_file = Some(String::from_str(args[i + 1].as_str()));
                    i = i + 2;
                } else if dash_first(a) {
                    return Err(concat_str("Unknown option: ", a));
                } else {
                    let ghost before = inputs@;
                    inputs.push(String::from_str(a));
                    proof {
                        assert(strings_views(inputs@) =~= strings_views(before).push(a@));
                    }
                    i = i + 1;
                }
            },
        }
    }
    if inputs.len() == 0 {
        return Err(String::from_str("No input specified"));
    }
    Ok(ParsedArgs::Run(CliOptions { inputs, report_mode, output_file }))
}

} // verus!

verus! {

/// The word that names a report mode on the command line.
pub open spec fn mode_word(m: ReportMode) -> Seq<char> {
    match m {
        ReportMode::Tui => "tui"@,
        ReportMode::Text => "report"@,
        ReportMode::Json => "json"@,
        ReportMode::Summary => "summary"@,
        ReportMode::Logs => "logs"@,
        ReportMode::Spans => "spans"@,
        ReportMode::Transcript => "transcript"@,
        ReportMode::Dump => "dump"@,
        ReportMode::Timeline => "timeline"@,
        ReportMode::Pcap => "pcap"@,
    }
}

/// Every report mode but the viewer has its flag, "--" and the mode's word,
/// and that flag selects it ("-r" selects the text report too); no flag
/// selects the viewer, and two different flags select the same mode only
/// for the text report.
pub proof fn lemma_mode_flags(m: ReportMode, a: Seq<char>, b: Seq<char>)
    ensures
        m != ReportMode::Tui ==> mode_flag("--"@ + mode_word(m)) == Some(m),
        mode_flag("-r"@) == Some(ReportMode::Text),
        mode_flag(a) != Some(ReportMode::Tui),
        (mode_flag(a) is Some && mode_flag(a) == mode_flag(b)) ==> (a == b || mode_flag(a) == Some(ReportMode::Text)),
{
    reveal_strlit("-r");
    reveal_strlit("--report");
    reveal_strlit("--json");
    reveal_strlit("--summary");
    reveal_strlit("--logs");
    reveal_strlit("--spans");
    reveal_strlit("--transcript");
    reveal_strlit("--dump");
    reveal_strlit("--timeline");
    reveal_strlit("--pcap");
    reveal_strlit("--");
    reveal_strlit("tui");
    reveal_strlit("report");
    reveal_strlit("json");
    reveal_strlit("summary");
    reveal_strlit("logs");
    reveal_strlit("spans");
    reveal_strlit("transcript");
    reveal_strlit("dump");
    reveal_strlit("timeline");
    reveal_strlit("pcap");
    assert("--"@ + "report"@ =~= "--report"@);
    assert("--"@ + "json"@ =~= "--json"@);
    assert("--"@ + "summary"@ =~= "--summary"@);
    assert("--"@ + "logs"@ =~= "--logs"@);
    assert("--"@ + "spans"@ =~= "--spans"@);
    assert("--"@ + "transcript"@ =~= "--transcript"@);
    assert("--"@ + "dump"@ =~= "--dump"@);
    assert("--"@ + "timeline"@ =~= "--timeline"@);
    assert("--"@ + "pcap"@ =~= "--pcap"@);
    assert("--logs"@[2] != "--json"@[2]);
    assert("--dump"@[2] != "--json"@[2] && "--dump"@[2] != "--logs"@[2]);
    match m {
        ReportMode::Text => assert(mode_flag("--report"@) == Some(ReportMode::Text)),
        ReportMode::Json => assert(mode_flag("--json"@) == Some(ReportMode::Json)),
        ReportMode::Summary => assert(mode_flag("--summary"@) == Some(ReportMode::Summary)),
        ReportMode::Logs => assert(mode_flag("--logs"@) == Some(ReportMode::Logs)),
        ReportMode::Spans => assert(mode_flag("--spans"@) == Some(ReportMode::Spans)),
        ReportMode::Transcript => assert(mode_flag("--transcript"@) == Some(ReportMode::Transcript)),
        ReportMode::Dump => assert(mode_flag("--dump"@) == Some(ReportMode::Dump)),
        ReportMode::Timeline => assert(mode_flag("--timeline"@) == Some(ReportMode::Timeline)),
        ReportMode::Pcap => assert(mode_flag("--pcap"@) == Some(ReportMode::Pcap)),
        ReportMode::Tui => {},
    }
}

/// An input followed by a mode's flag runs that mode on the input.
pub proof fn lemma_mode_flag_selects(p: Seq<char>, x: Seq<char>, m: ReportMode)
    requires
        m != ReportMode::Tui,
        !starts_with_dash(x),
    ensures
        spec_parse_args(seq![p, x, "--"@ + mode_word(m)]) == Ok::<ArgsModel, Seq<char>>(
            ArgsModel::Run { inputs: seq![x], report_mode: m, output_file: None },
        ),
{
    reveal_strlit("-r");
    reveal_strlit("--report");
    reveal_strlit("--json");
    reveal_strlit("--summary");
    reveal_strlit("--logs");
    reveal_strlit("--spans");
    reveal_strlit("--transcript");
    reveal_strlit("--dump");
    reveal_strlit("--timeline");
    reveal_strlit("--pcap");
    reveal_strlit("--");
    reveal_strlit("tui");
    reveal_strlit("report");
    reveal_strlit("json");
    reveal_strlit("summary");
    reveal_strlit("logs");
    reveal_strlit("spans");
    reveal_strlit("transcript");
    reveal_strlit("dump");
    reveal_strlit("timeline");
    reveal_strlit("pcap");
    reveal_strlit("-h");
    reveal_strlit("--help");
    reveal_strlit("-o");
    reveal_strlit("--output");
    lemma_mode_flags(m, x, x);
    let args = seq![p, x, "--"@ + mode_word(m)];
    let f = "--"@ + mode_word(m);
    assert(f[0] == '-');
    assert(x != "-h"@ && x != "--help"@ && x != "-o"@ && x != "--output"@);
    assert(mode_flag(x) is None);
    assert("-h"@[1] != "-r"@[1]);
    assert("--help"@[2] != "--json"@[2] && "--help"@[2] != "--logs"@[2]);
    assert("--help"@[2] != "--dump"@[2] && "--help"@[2] != "--pcap"@[2]);
    assert(mode_flag("-h"@) is None);
    assert(mode_flag("--help"@) is None);
    assert(f != "-h"@ && f != "--help"@);
    assert(args[1] == x);
    assert(args[2] == f);
    assert(Seq::<Seq<char>>::empty().push(x) =~= seq![x]);
    let done = scan_main_args(args, 3, m, None, seq![x]);
    assert(done == Ok::<ArgsModel, Seq<char>>(ArgsModel::Run { inputs: seq![x], report_mode: m, output_file: None }));
    assert(scan_main_args(args, 2, ReportMode::Tui, None, seq![x]) == done);
    assert(scan_main_args(args, 1, ReportMode::Tui, None, Seq::empty()) == scan_main_args(
        args,
        2,
        ReportMode::Tui,
        None,
        Seq::<Seq<char>>::empty().push(x),
    ));
}

} // verus!
