//! The graph of a workspace: where it is kept, how it is built, and what is asked of it.

use vstd::prelude::*;
use vstd::string::*;

use crate::flow::graph::Text;
use crate::flow::launch::{signed, signed_i32};
use crate::parse::{byte_len, cap_tail, tail};
use crate::paths::{inside, join_path, law_joined_names_are_inside, path_join, path_parts};
use crate::text::{
    begins, decimal, decimal_u64, ends, join, join2, join3, joined, law_beginnings_and_ends, law_joined_pieces_split_back, opt_text, split,
    split_char, texts, trim, trimmed,
};

verus! {

/// The folder that everything is kept in.
pub const OUT_DIR: &'static str = "graphify-out";

/// The most bytes of an answer that are kept.
pub const QUERY_CAP: usize = 50_000;

// ---- where things are ----

pub open spec fn out_path(ws: Text) -> Text {
    path_join(ws, "graphify-out"@)
}

pub fn out_dir(ws: &str) -> (r: String)
    ensures
        r@ == out_path(ws@),
{
    join_path(ws, OUT_DIR)
}

pub fn graph_json(ws: &str) -> (r: String)
    ensures
        r@ == path_join(out_path(ws@), "graph.json"@),
{
    join_path(&out_dir(ws), "graph.json")
}

pub fn graph_html(ws: &str) -> (r: String)
    ensures
        r@ == path_join(out_path(ws@), "graph.html"@),
{
    join_path(&out_dir(ws), "graph.html")
}

pub fn report(ws: &str) -> (r: String)
    ensures
        r@ == path_join(out_path(ws@), "GRAPH_REPORT.md"@),
{
    join_path(&out_dir(ws), "GRAPH_REPORT.md")
}

/// Everything that is kept lies inside the workspace.
pub proof fn law_out_paths_live_under_the_workspace(ws: Text)
    requires
        ws.len() > 0,
    ensures
        inside(ws, out_path(ws)),
        inside(ws, path_join(out_path(ws), "graph.json"@)),
        inside(ws, path_join(out_path(ws), "graph.html"@)),
        inside(ws, path_join(out_path(ws), "GRAPH_REPORT.md"@)),
{
    reveal_strlit("graphify-out");
    reveal_strlit("graph.json");
    reveal_strlit("graph.html");
    reveal_strlit("GRAPH_REPORT.md");
    assert("graphify-out"@ =~= seq!['g', 'r', 'a', 'p', 'h', 'i', 'f', 'y', '-', 'o', 'u', 't']);
    assert("graph.json"@ =~= seq!['g', 'r', 'a', 'p', 'h', '.', 'j', 's', 'o', 'n']);
    assert("graph.html"@ =~= seq!['g', 'r', 'a', 'p', 'h', '.', 'h', 't', 'm', 'l']);
    assert("GRAPH_REPORT.md"@ =~= seq!['G', 'R', 'A', 'P', 'H', '_', 'R', 'E', 'P', 'O', 'R', 'T', '.', 'm', 'd']);
    law_joined_names_are_inside(ws, "graphify-out"@);
    law_joined_names_are_inside(out_path(ws), "graph.json"@);
    law_joined_names_are_inside(out_path(ws), "graph.html"@);
    law_joined_names_are_inside(out_path(ws), "GRAPH_REPORT.md"@);
    let n = path_parts(ws).len() as int;
    assert(path_parts(path_join(out_path(ws), "graph.json"@)).take(n) =~= path_parts(ws));
    assert(path_parts(path_join(out_path(ws), "graph.html"@)).take(n) =~= path_parts(ws));
    assert(path_parts(path_join(out_path(ws), "GRAPH_REPORT.md"@)).take(n) =~= path_parts(ws));
}

// ---- whether it can be used ----

/// How asking for the version went.
pub enum Probe {
    /// It could not be started.
    NotFound(String),
    TimedOut,
    Failed(String),
    Exited { success: bool, code: Option<i32>, stdout: String },
}

/// What is known of the graph and of the program that builds it.
pub struct Status {
    pub available: bool,
    pub version: Option<String>,
    pub reason: Option<String>,
    pub built: bool,
    pub out_dir: String,
    pub graph_json: String,
    pub graph_html: String,
    pub report: String,
}

pub open spec fn code_of(code: Option<i32>) -> int {
    match code {
        Some(c) => c as int,
        None => -1,
    }
}

fn code_text(code: Option<i32>) -> (r: String)
    ensures
        r@ == signed(code_of(code)),
{
    let n: i32 = match code {
        Some(c) => c,
        None => -1,
    };
    signed_i32(n)
}

/// The first line of the answer, where the program answered well.
pub open spec fn version_of(p: Probe) -> Option<Text> {
    match p {
        Probe::Exited { success, stdout, .. } => if success {
            Some(trimmed(split(stdout@, '\n')[0]))
        } else {
            None
        },
        _ => None,
    }
}

/// Why the program cannot be used, where it cannot.
pub open spec fn reason_of(p: Probe) -> Option<Text> {
    match p {
        Probe::NotFound(e) => Some("graphify not found ("@ + e@ + ")"@),
        Probe::TimedOut => Some("graphify --version timed out"@),
        Probe::Failed(e) => Some(e@),
        Probe::Exited { success, code, .. } => if success {
            None
        } else {
            Some("graphify --version exited "@ + signed(code_of(code)))
        },
    }
}

/// What is known: `built` says whether a graph is there.
pub fn status(ws: &str, probe: Probe, built: bool) -> (r: Status)
    ensures
        r.available == (reason_of(probe) is None),
        opt_text(r.version) == version_of(probe),
        opt_text(r.reason) == reason_of(probe),
        r.built == built,
        r.out_dir@ == out_path(ws@),
        r.graph_json@ == path_join(out_path(ws@), "graph.json"@),
        r.graph_html@ == path_join(out_path(ws@), "graph.html"@),
        r.report@ == path_join(out_path(ws@), "GRAPH_REPORT.md"@),
{
    let (available, version, reason) = match probe {
        Probe::Exited { success, code, stdout } => {
            if success {
                let first = split_char(&stdout, '\n');
                assert(texts(first@)[0] == first@[0]@);
                (true, Some(trim(&first[0])), None)
            } else {
                (false, None, Some(join2("graphify --version exited ", &code_text(code))))
            }
        },
        Probe::Failed(e) => (false, None, Some(e)),
        Probe::TimedOut => (false, None, Some("graphify --version timed out".to_owned())),
        Probe::NotFound(e) => (false, None, Some(join3("graphify not found (", &e, ")"))),
    };
    Status {
        available,
        version,
        reason,
        built,
        out_dir: out_dir(ws),
        graph_json: graph_json(ws),
        graph_html: graph_html(ws),
        report: report(ws),
    }
}

/// The program either has a version or a reason why it cannot be used, never both.
pub proof fn law_a_version_or_a_reason(p: Probe)
    ensures
        version_of(p) is Some <==> reason_of(p) is None,
{
}

// ---- building ----

/// How a stage went.
pub enum StageEnd {
    TimedOut,
    Failed(String),
    Exited { success: bool, code: Option<i32> },
}

/// What a stage that went wrong is reported as.
pub open spec fn stage_error(args: Seq<Text>, end: StageEnd) -> Option<Text> {
    match end {
        StageEnd::TimedOut => Some("stage timed out"@),
        StageEnd::Failed(e) => Some(e@),
        StageEnd::Exited { success, code } => if success {
            None
        } else {
            Some(("graphify "@ + joined(args, " "@) + " exited "@) + signed(code_of(code)))
        },
    }
}

/// What a stage comes to.
pub fn run_stage(args: &Vec<String>, end: StageEnd) -> (r: Result<(), String>)
    ensures
        match r {
            Ok(_) => stage_error(texts(args@), end) is None,
            Err(e) => stage_error(texts(args@), end) == Some(e@),
        },
{
    match end {
        StageEnd::TimedOut => Err("stage timed out".to_owned()),
        StageEnd::Failed(e) => Err(e),
        StageEnd::Exited { success, code } => {
            if success {
                Ok(())
            } else {
                let line = join(args, " ");
                let head = join3("graphify ", &line, " exited ");
                Err(join2(&head, &code_text(code)))
            }
        },
    }
}

/// The next step of a build.
pub enum BuildStep {
    /// Say these lines, then run a stage with these arguments.
    Run { say: Vec<String>, args: Vec<String> },
    /// Say this line, and report this.
    Done { last: String, summary: String },
    Fail(String),
}

pub enum BuildStepView {
    Run { say: Seq<Text>, args: Seq<Text> },
    Done { last: Text, summary: Text },
    Fail(Text),
}

impl View for BuildStep {
    type V = BuildStepView;

    open spec fn view(&self) -> BuildStepView {
        match self {
            BuildStep::Run { say, args } => BuildStepView::Run { say: texts(say@), args: texts(args@) },
            BuildStep::Done { last, summary } => BuildStepView::Done { last: last@, summary: summary@ },
            BuildStep::Fail(e) => BuildStepView::Fail(e@),
        }
    }
}

pub open spec fn stage_view(r: Option<Result<(), String>>) -> Option<Option<Text>> {
    match r {
        None => None,
        Some(Ok(_)) => Some(None),
        Some(Err(e)) => Some(Some(e@)),
    }
}

/// A build is refused while another one runs. The code is read first, offline and without a model;
/// then the graph is clustered, without names, and written. A stage that was not run yet is `None`; one that was holds its error, if
/// there was one.
pub open spec fn build_next(ws: Text, other_runs: bool, extract: Option<Option<Text>>, cluster: Option<Option<Text>>) -> BuildStepView {
    if other_runs {
        BuildStepView::Fail("a graph build is already running"@)
    } else {
        stages_next(ws, extract, cluster)
    }
}

/// The next stage of a build that may go ahead.
pub open spec fn stages_next(ws: Text, extract: Option<Option<Text>>, cluster: Option<Option<Text>>) -> BuildStepView {
    match extract {
        None => BuildStepView::Run {
            say: seq![
                "graphify — building the workspace graph ("@ + ws + ")"@,
                "[1/2] extracting code with tree-sitter (offline, no LLM)"@,
            ],
            args: seq![ws, "--code-only"@],
        },
        Some(Some(e)) => BuildStepView::Fail("extract failed: "@ + e),
        Some(None) => match cluster {
            None => BuildStepView::Run {
                say: seq!["[2/2] clustering communities and writing report + graph.html"@],
                args: seq!["cluster-only"@, ws, "--no-label"@],
            },
            Some(Some(e)) => BuildStepView::Fail("cluster failed: "@ + e),
            Some(None) => BuildStepView::Done { last: "done"@, summary: "graph built — "@ + path_join(out_path(ws), "graph.json"@) },
        },
    }
}

/// The next step of a build; `other_runs` says whether another build is under way.
pub fn build(ws: &str, other_runs: bool, extract: Option<Result<(), String>>, cluster: Option<Result<(), String>>) -> (r: BuildStep)
    ensures
        r@ == build_next(ws@, other_runs, stage_view(extract), stage_view(cluster)),
{
    if other_runs {
        return BuildStep::Fail("a graph build is already running".to_owned());
    }
    match extract {
        None => {
            let say = vec![
                join3("graphify — building the workspace graph (", ws, ")"),
                "[1/2] extracting code with tree-sitter (offline, no LLM)".to_owned(),
            ];
            let args = vec![ws.to_owned(), "--code-only".to_owned()];
            proof {
                assert(texts(say@) =~= seq![
                    "graphify — building the workspace graph ("@ + ws@ + ")"@,
                    "[1/2] extracting code with tree-sitter (offline, no LLM)"@,
                ]);
                assert(texts(args@) =~= seq![ws@, "--code-only"@]);
            }
            BuildStep::Run { say, args }
        },
        Some(Err(e)) => BuildStep::Fail(join2("extract failed: ", &e)),
        Some(Ok(_)) => match cluster {
            None => {
                let say = vec!["[2/2] clustering communities and writing report + graph.html".to_owned()];
                let args = vec!["cluster-only".to_owned(), ws.to_owned(), "--no-label".to_owned()];
                proof {
                    assert(texts(say@) =~= seq!["[2/2] clustering communities and writing report + graph.html"@]);
                    assert(texts(args@) =~= seq!["cluster-only"@, ws@, "--no-label"@]);
                }
                BuildStep::Run { say, args }
            },
            Some(Err(e)) => BuildStep::Fail(join2("cluster failed: ", &e)),
            Some(Ok(_)) => BuildStep::Done { last: "done".to_owned(), summary: join2("graph built — ", &graph_json(ws)) },
        },
    }
}

/// Every stage of a build keeps off the network: the first reads code alone, the second gives no
/// names. No build is done before both stages went well.
pub proof fn law_builds_stay_offline(ws: Text, other_runs: bool, extract: Option<Option<Text>>, cluster: Option<Option<Text>>)
    ensures
        build_next(ws, other_runs, extract, cluster) matches BuildStepView::Run { args, .. } ==> args.last() == "--code-only"@ || args.last()
            == "--no-label"@,
        build_next(ws, other_runs, extract, cluster) is Done ==> extract == Some(None::<Text>) && cluster == Some(None::<Text>),
{
}

/// No two builds run at once: while one is under way a second runs no stage and is an error.
pub proof fn law_one_build_at_a_time(ws: Text, extract: Option<Option<Text>>, cluster: Option<Option<Text>>)
    ensures
        build_next(ws, true, extract, cluster) is Fail,
{
}

// ---- stopping ----

/// Stops the process that runs, where one does: its id is taken out of the slot, so that it is
/// stopped once. The command line that stops it.
pub fn cancel(slot: &mut Option<u32>, windows: bool) -> (r: Option<Vec<String>>)
    ensures
        *final(slot) is None,
        r is Some <==> *old(slot) is Some,
        r matches Some(argv) ==> texts(argv@) == if windows {
            seq!["taskkill"@, "/PID"@, decimal((*old(slot))->0 as nat), "/F"@]
        } else {
            seq!["kill"@, "-9"@, decimal((*old(slot))->0 as nat)]
        },
{
    match slot.take() {
        None => None,
        Some(pid) => {
            let id = decimal_u64(pid as u64);
            if windows {
                let argv = vec!["taskkill".to_owned(), "/PID".to_owned(), id, "/F".to_owned()];
                assert(texts(argv@) =~= seq!["taskkill"@, "/PID"@, decimal(pid as nat), "/F"@]);
                Some(argv)
            } else {
                let argv = vec!["kill".to_owned(), "-9".to_owned(), id];
                assert(texts(argv@) =~= seq!["kill"@, "-9"@, decimal(pid as nat)]);
                Some(argv)
            }
        },
    }
}

// ---- asking ----

/// A question to the graph.
pub enum Question {
    Query(String),
    Path { from: String, to: String },
    Explain(String),
    Affected(String),
}

pub open spec fn question_args(q: Question) -> Seq<Text> {
    match q {
        Question::Query(s) => seq!["query"@, s@],
        Question::Path { from, to } => seq!["path"@, from@, to@],
        Question::Explain(s) => seq!["explain"@, s@],
        Question::Affected(s) => seq!["affected"@, s@],
    }
}

/// The command line of a question.
pub fn ask_args(q: Question) -> (r: Vec<String>)
    ensures
        texts(r@) == question_args(q),
{
    let v = match q {
        Question::Query(s) => vec!["query".to_owned(), s],
        Question::Path { from, to } => vec!["path".to_owned(), from, to],
        Question::Explain(s) => vec!["explain".to_owned(), s],
        Question::Affected(s) => vec!["affected".to_owned(), s],
    };
    assert(texts(v@) =~= question_args(q));
    v
}

/// How a question went.
pub enum AskEnd {
    TimedOut,
    Failed(String),
    Exited { success: bool, code: Option<i32>, stdout: String, stderr: String },
}

/// Everything that was printed: what went to the one stream, then what went to the other.
pub open spec fn printed(stdout: Text, stderr: Text) -> Text {
    if stderr.len() == 0 {
        stdout
    } else if stdout.len() == 0 {
        stderr
    } else {
        stdout + "\n"@ + stderr
    }
}

pub open spec fn ask_answer(end: AskEnd) -> Result<Text, Text> {
    match end {
        AskEnd::TimedOut => Err("graphify timed out"@),
        AskEnd::Failed(e) => Err("spawn graphify: "@ + e@),
        AskEnd::Exited { success, code, stdout, stderr } => {
            let kept = tail(printed(stdout@, stderr@), 50_000);
            if success {
                Ok(kept)
            } else {
                Err(("exit "@ + signed(code_of(code)) + ":\n"@) + kept)
            }
        },
    }
}

/// The answer to a question: the end of what was printed.
pub fn ask(end: AskEnd) -> (r: Result<String, String>)
    ensures
        match r {
            Ok(t) => ask_answer(end) == Ok::<Text, Text>(t@),
            Err(e) => ask_answer(end) == Err::<Text, Text>(e@),
        },
{
    match end {
        AskEnd::TimedOut => Err("graphify timed out".to_owned()),
        AskEnd::Failed(e) => Err(join2("spawn graphify: ", &e)),
        AskEnd::Exited { success, code, stdout, stderr } => {
            let mut text = if stderr.unicode_len() == 0 {
                stdout
            } else if stdout.unicode_len() == 0 {
                stderr
            } else {
                join3(&stdout, "\n", &stderr)
            };
            cap_tail(&mut text, QUERY_CAP);
            if success {
                Ok(text)
            } else {
                let head = join3("exit ", &code_text(code), ":\n");
                Err(join2(&head, &text))
            }
        },
    }
}

/// The version is the first line that was printed, without the blanks around it, and nothing behind
/// it.
pub proof fn law_versions_are_the_first_line(p: Probe, first: Text, rest: Seq<Text>)
    requires
        p matches Probe::Exited { success, stdout, .. } && success && stdout@ == joined(seq![first] + rest, seq!['\n']),
        !first.contains('\n'),
        forall|k: int| 0 <= k < rest.len() ==> !(#[trigger] rest[k]).contains('\n'),
    ensures
        version_of(p) == Some(trimmed(first)),
{
    let v = seq![first] + rest;
    assert forall|k: int| 0 <= k < v.len() implies !(#[trigger] v[k]).contains('\n') by {
        if k > 0 {
            assert(v[k] == rest[k - 1]);
        }
    }
    law_joined_pieces_split_back(v, '\n');
    assert(v[0] == first);
}

/// Where there is no version, the reason is the one that was met: the error that came back, the time
/// that ran out, or the code that the program left with.
pub proof fn law_reasons_are_what_was_met(p: Probe)
    ensures
        p matches Probe::Failed(e) ==> version_of(p) is None && reason_of(p) == Some(e@),
        p is TimedOut ==> version_of(p) is None && reason_of(p) == Some("graphify --version timed out"@),
        p matches Probe::NotFound(e) ==> version_of(p) is None && reason_of(p) == Some("graphify not found ("@ + e@ + ")"@),
        p matches Probe::Exited { success, code, .. } ==> (!success ==> version_of(p) is None && reason_of(p) == Some(
            "graphify --version exited "@ + signed(match code {
                Some(c) => c as int,
                None => -1,
            }),
        )),
{
}

/// A stage went well exactly where its program left with success, and what went wrong is told.
pub proof fn law_stages_fail_as_their_program_does(args: Seq<Text>, end: StageEnd)
    ensures
        stage_error(args, end) is None <==> (end matches StageEnd::Exited { success, .. } && success),
        end matches StageEnd::Failed(e) ==> stage_error(args, end) == Some(e@),
        end is TimedOut ==> stage_error(args, end) == Some("stage timed out"@),
{
}

/// A build goes stage by stage: the workspace is read first, the graph is clustered only once that
/// went well, both of this workspace, it is done only once both went well, and a stage that failed
/// ends it.
pub proof fn law_builds_go_stage_by_stage(ws: Text, e: Text, cluster: Option<Option<Text>>)
    ensures
        build_next(ws, false, None, cluster) is Run && build_next(ws, false, None, cluster)->args.contains(ws)
            && build_next(ws, false, None, cluster)->args.contains("--code-only"@),
        build_next(ws, false, Some(None), None) is Run && build_next(ws, false, Some(None), None)->args.contains(ws)
            && build_next(ws, false, Some(None), None)->args[0] == "cluster-only"@,
        build_next(ws, false, Some(None), Some(None)) is Done,
        build_next(ws, false, Some(None), Some(None))->summary == "graph built — "@ + path_join(path_join(ws, "graphify-out"@), "graph.json"@),
        build_next(ws, false, Some(Some(e)), cluster) == BuildStepView::Fail("extract failed: "@ + e),
        build_next(ws, false, Some(None), Some(Some(e))) == BuildStepView::Fail("cluster failed: "@ + e),
{
    assert(build_next(ws, false, None, cluster)->args[0] == ws);
    assert(build_next(ws, false, None, cluster)->args[1] == "--code-only"@);
    assert(build_next(ws, false, Some(None), None)->args[1] == ws);
}

/// A question is asked in its own words: its kind first, and what was asked about behind it, in the
/// order it was given.
pub proof fn law_questions_are_asked_as_put(q: Question)
    ensures
        q matches Question::Query(s) ==> question_args(q)[0] == "query"@ && question_args(q).last() == s@,
        q matches Question::Explain(s) ==> question_args(q)[0] == "explain"@ && question_args(q).last() == s@,
        q matches Question::Affected(s) ==> question_args(q)[0] == "affected"@ && question_args(q).last() == s@,
        q matches Question::Path { from, to } ==> question_args(q)[0] == "path"@ && question_args(q)[1] == from@ && question_args(q).last()
            == to@,
        question_args(q).len() == if q is Path { 3int } else { 2int },
{
}

/// What was printed is kept: both streams, the errors behind the answer, on a line of their own, and
/// one alone where the other is empty.
pub proof fn law_both_streams_are_kept(stdout: Text, stderr: Text)
    ensures
        begins(printed(stdout, stderr), stdout),
        ends(printed(stdout, stderr), stderr),
        stderr.len() == 0 ==> printed(stdout, stderr) == stdout,
        stdout.len() == 0 ==> printed(stdout, stderr) == stderr,
        stdout.len() > 0 && stderr.len() > 0 ==> printed(stdout, stderr).len() == stdout.len() + 1 + stderr.len() && printed(
            stdout,
            stderr,
        )[stdout.len() as int] == '\n',
{
    reveal_strlit("\n");
    assert(stdout.take(stdout.len() as int) =~= stdout);
    assert(stderr.skip(0) =~= stderr);
    assert(stderr.take(0) =~= Seq::<char>::empty());
    assert(stdout.skip(stdout.len() as int) =~= Seq::<char>::empty());
    if stdout.len() == 0 {
        assert(stdout =~= Seq::<char>::empty());
    }
    if stderr.len() == 0 {
        assert(stderr =~= Seq::<char>::empty());
    }
    let all = stdout + "\n"@ + stderr;
    assert(all.take(stdout.len() as int) =~= stdout);
    assert(all.skip(all.len() - stderr.len()) =~= stderr);
}

/// An answer is what the program printed where it left with success, whole as long as it is no longer
/// than fifty thousand bytes; anything else is told as an error that holds it.
pub proof fn law_answers_are_what_was_printed(end: AskEnd)
    ensures
        end matches AskEnd::Exited { success, stdout, stderr, .. } ==> {
            let said = printed(stdout@, stderr@);
            &&& ask_answer(end) is Ok <==> success
            &&& success && byte_len(said) <= 50_000 ==> ask_answer(end) == Ok::<Text, Text>(said)
            &&& !success && byte_len(said) <= 50_000 ==> ends(ask_answer(end)->Err_0, said)
        },
        end is TimedOut ==> ask_answer(end) == Err::<Text, Text>("graphify timed out"@),
        end matches AskEnd::Failed(e) ==> ask_answer(end) is Err && ends(ask_answer(end)->Err_0, e@),
{
    match end {
        AskEnd::Exited { success, code, stdout, stderr } => {
            let said = printed(stdout@, stderr@);
            if !success && byte_len(said) <= 50_000 {
                law_beginnings_and_ends("exit "@ + signed(code_of(code)) + ":\n"@, said);
            }
        },
        AskEnd::Failed(e) => {
            law_beginnings_and_ends("spawn graphify: "@, e@);
        },
        _ => {},
    }
}

}
