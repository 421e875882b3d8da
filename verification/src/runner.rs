//! Test cases, their outcomes, and the decisions taken while running a pair
//! of programs.

use vstd::prelude::*;
use vstd::utf8::{decode_utf8, valid_utf8};
use crate::diff::{make_diff, make_diff_spec};
use crate::text::{decimal, join, push_all, push_char, push_decimal};
use crate::words::{
    lemma_shell_words_of_joined, plain_word, program_words, program_words_spec, shell_words_spec,
    strings_view,
};

verus! {

/// How to feed input to the programs under test.
#[derive(Debug, Clone)]
#[non_exhaustive]
pub enum InputSource {
    /// Pass these as CLI arguments.
    Args(Vec<String>),
    /// Pipe stdin from the parent process.
    Stdin,
}

/// The contents of an [`InputSource`].
pub enum InputView {
    /// The arguments, as character sequences.
    Args(Seq<Seq<char>>),
    /// Standard input is piped through.
    Stdin,
}

impl View for InputSource {
    type V = InputView;

    open spec fn view(&self) -> InputView {
        match self {
            InputSource::Args(a) => InputView::Args(strings_view(a@)),
            InputSource::Stdin => InputView::Stdin,
        }
    }
}

/// Result of comparing one test case across both programs.
#[derive(Debug)]
#[non_exhaustive]
pub enum RunResult {
    /// Both programs produced identical output and exit code.
    Pass {
        /// Human-readable label for this test case.
        label: String,
    },
    /// The programs diverged on output or exit code.
    Fail {
        /// Human-readable label for this test case.
        label: String,
        /// Unified-style diff of stdout, if it differed.
        stdout_diff: Option<String>,
        /// Unified-style diff of stderr, if it differed.
        stderr_diff: Option<String>,
        /// Exit code of program A.
        exit_a: i32,
        /// Exit code of program B.
        exit_b: i32,
    },
    /// One or both programs could not be executed.
    Error {
        /// Human-readable label for this test case.
        label: String,
        /// Description of what went wrong.
        message: String,
    },
}

/// The contents of a [`RunResult`].
pub enum Outcome {
    /// Both programs agreed.
    Pass { label: Seq<char> },
    /// The programs diverged.
    Fail {
        label: Seq<char>,
        stdout_diff: Option<Seq<char>>,
        stderr_diff: Option<Seq<char>>,
        exit_a: i32,
        exit_b: i32,
    },
    /// A program could not be run.
    Error { label: Seq<char>, message: Seq<char> },
}

/// The contents of an optional string.
pub open spec fn opt_view(o: Option<String>) -> Option<Seq<char>> {
    match o {
        Some(s) => Some(s@),
        None => None,
    }
}

impl View for RunResult {
    type V = Outcome;

    open spec fn view(&self) -> Outcome {
        match self {
            RunResult::Pass { label } => Outcome::Pass { label: label@ },
            RunResult::Fail { label, stdout_diff, stderr_diff, exit_a, exit_b } => Outcome::Fail {
                label: label@,
                stdout_diff: opt_view(*stdout_diff),
                stderr_diff: opt_view(*stderr_diff),
                exit_a: *exit_a,
                exit_b: *exit_b,
            },
            RunResult::Error { label, message } => Outcome::Error {
                label: label@,
                message: message@,
            },
        }
    }
}

/// What one program printed and how it exited.
pub struct ProgramOutput {
    /// The bytes written to standard output.
    pub stdout: Vec<u8>,
    /// The bytes written to standard error.
    pub stderr: Vec<u8>,
    /// Exit code, or `-1` when the program was ended by a signal.
    pub exit_code: i32,
}

/// The label of a test case: its arguments joined by spaces, or a
/// placeholder when there are none or input comes from stdin.
pub open spec fn label_spec(input: InputView) -> Seq<char> {
    match input {
        InputView::Args(a) => if a.len() == 0 {
            "(no args)"@
        } else {
            join(a, " "@)
        },
        InputView::Stdin => "(stdin)"@,
    }
}

/// The label under which a test case is reported.
pub fn input_label(input: &InputSource) -> (label: String)
    ensures
        label@ == label_spec(input@),
{
    match input {
        InputSource::Args(args) => {
            if args.len() == 0 {
                String::from_str("(no args)")
            } else {
                let ghost ws = strings_view(args@);
                let mut label = String::new();
                let mut i: usize = 0;
                while i < args.len()
                    invariant
                        i <= args.len(),
                        ws == strings_view(args@),
                        i == 0 ==> label@ == Seq::<char>::empty(),
                        i > 0 ==> label@ == join(ws.take(i as int), " "@),
                    decreases args.len() - i,
                {
                    if i > 0 {
                        push_char(&mut label, ' ');
                    }
                    push_all(&mut label, args[i].as_str());
                    proof {
                        reveal_strlit(" ");
                        assert(ws.take(i + 1).drop_last() =~= ws.take(i as int));
                        assert(ws.take(i + 1).last() == args@[i as int]@);
                        if i == 0 {
                            assert(ws.take(1) =~= seq![args@[0]@]);
                        }
                    }
                    i = i + 1;
                }
                assert(ws.take(args.len() as int) =~= ws);
                label
            }
        },
        InputSource::Stdin => String::from_str("(stdin)"),
    }
}

/// The arguments an input source adds to the command line.
pub open spec fn input_args(input: InputView) -> Seq<Seq<char>> {
    match input {
        InputView::Args(a) => a,
        InputView::Stdin => seq![],
    }
}

/// A test case adds exactly its own arguments to the command line, none
/// dropped, added or reordered (empty ones included), and reading stdin adds
/// none.
pub proof fn lemma_test_case_args_unfiltered(a: Seq<Seq<char>>)
    ensures
        input_args(InputView::Args(a)) == a,
        input_args(InputView::Args(a)).len() == a.len(),
        input_args(InputView::Stdin).len() == 0,
{
}

/// Parse a program string into command + args.
/// Supports "python old.py" -> ("python", ["old.py"]) and keeps a quoted
/// stretch as one argument: "bash -c 'echo hi'" -> ("bash", ["-c", "'echo hi'"]).
/// A string without any word is taken whole as the command.
pub fn parse_program(prog: &str) -> (r: (String, Vec<String>))
    ensures
        program_words_spec(prog@).len() == 0 ==> r.0@ == prog@ && r.1@.len() == 0,
        program_words_spec(prog@).len() > 0 ==> r.0@ == program_words_spec(prog@)[0] && strings_view(r.1@)
            == program_words_spec(prog@).drop_first(),
{
    let mut parts = program_words(prog);
    if parts.len() == 0 {
        (String::from_str(prog), Vec::new())
    } else {
        let ghost before = parts@;
        let cmd = parts.remove(0);
        assert(strings_view(parts@) =~= strings_view(before).drop_first());
        (cmd, parts)
    }
}

/// The command to start and the arguments to give it when running `prog` on
/// `input`: the program string's own arguments, then the input's.
pub fn invocation(prog: &str, input: &InputSource) -> (r: (String, Vec<String>))
    ensures
        program_words_spec(prog@).len() == 0 ==> r.0@ == prog@ && strings_view(r.1@) == input_args(input@),
        program_words_spec(prog@).len() > 0 ==> r.0@ == program_words_spec(prog@)[0] && strings_view(r.1@)
            == program_words_spec(prog@).drop_first() + input_args(input@),
        input@ is Stdin ==> strings_view(r.1@) == (if program_words_spec(prog@).len() == 0 {
            Seq::<Seq<char>>::empty()
        } else {
            program_words_spec(prog@).drop_first()
        }),
        input@ matches InputView::Args(a) ==> strings_view(r.1@) == (if program_words_spec(
            prog@,
        ).len() == 0 {
            Seq::<Seq<char>>::empty()
        } else {
            program_words_spec(prog@).drop_first()
        }) + a,
{
    let (cmd, mut args) = parse_program(prog);
    let ghost base = strings_view(args@);
    match input {
        InputSource::Args(extra) => {
            let mut i: usize = 0;
            while i < extra.len()
                invariant
                    i <= extra.len(),
                    strings_view(args@) == base + strings_view(extra@).take(i as int),
                decreases extra.len() - i,
            {
                let ghost before = args@;
                args.push(extra[i].clone());
                assert(strings_view(extra@).take(i + 1) =~= strings_view(extra@).take(i as int).push(
                    extra@[i as int]@,
                ));
                assert(strings_view(args@) =~= strings_view(before).push(extra@[i as int]@));
                i = i + 1;
            }
            assert(strings_view(extra@).take(extra.len() as int) =~= strings_view(extra@));
        },
        InputSource::Stdin => {
            assert(base + seq![] =~= base);
        },
    }
    (cmd, args)
}

/// What one program's run looks like from the outside.
pub open spec fn output_view(o: &ProgramOutput) -> (Seq<u8>, Seq<u8>, i32) {
    (o.stdout@, o.stderr@, o.exit_code)
}

/// What `String::from_utf8_lossy` makes of `bytes`: the text they encode,
/// with each invalid sequence replaced by U+FFFD.
pub uninterp spec fn lossy_text(bytes: Seq<u8>) -> Seq<char>;

/// Decodes captured output as text for display.
///
/// Calls `String::from_utf8_lossy`. Not proved: the contract takes on trust
/// that the result depends on the bytes alone (it is named `lossy_text`) and,
/// as the standard library documents, that valid UTF-8 decodes to exactly
/// the text it encodes. What replaces invalid sequences is left unsaid.
#[verifier::external_body]
fn decode_lossy(bytes: &Vec<u8>) -> (text: String)
    ensures
        text@ == lossy_text(bytes@),
        valid_utf8(bytes@) ==> text@ == decode_utf8(bytes@),
{
    String::from_utf8_lossy(bytes).into_owned()
}

/// Whether two byte sequences are the same.
fn bytes_equal(x: &Vec<u8>, y: &Vec<u8>) -> (eq: bool)
    ensures
        eq == (x@ == y@),
{
    if x.len() != y.len() {
        assert(x@.len() != y@.len());
        return false;
    }
    let mut k: usize = 0;
    while k < x.len()
        invariant
            k <= x.len() == y.len(),
            forall|m: int| 0 <= m < k ==> #[trigger] x@[m] == y@[m],
        decreases x.len() - k,
    {
        if x[k] != y[k] {
            return false;
        }
        k = k + 1;
    }
    assert(x@ =~= y@);
    true
}

/// The outcome of comparing two runs: `Pass` when the bytes written to
/// stdout, the exit code and (if asked for) the bytes written to stderr
/// agree, else `Fail` with a diff of the text of each stream that differs
/// and both exit codes.
pub open spec fn compare_spec(
    label: Seq<char>,
    a: (Seq<u8>, Seq<u8>, i32),
    b: (Seq<u8>, Seq<u8>, i32),
    compare_stderr: bool,
) -> Outcome {
    let stdout_match = a.0 == b.0;
    let stderr_match = !compare_stderr || a.1 == b.1;
    let exit_match = a.2 == b.2;
    if stdout_match && stderr_match && exit_match {
        Outcome::Pass { label }
    } else {
        Outcome::Fail {
            label,
            stdout_diff: if stdout_match {
                None
            } else {
                Some(make_diff_spec(lossy_text(a.0), lossy_text(b.0)))
            },
            stderr_diff: if stderr_match {
                None
            } else {
                Some(make_diff_spec(lossy_text(a.1), lossy_text(b.1)))
            },
            exit_a: a.2,
            exit_b: b.2,
        }
    }
}

/// Compare the outputs of programs A and B for the test case `label`: the
/// bytes they wrote decide; the diffs show those bytes decoded as text.
pub fn compare_outputs(label: String, a: &ProgramOutput, b: &ProgramOutput, compare_stderr: bool) -> (r:
    RunResult)
    ensures
        r@ == compare_spec(label@, output_view(a), output_view(b), compare_stderr),
{
    let stdout_match = bytes_equal(&a.stdout, &b.stdout);
    let stderr_match = !compare_stderr || bytes_equal(&a.stderr, &b.stderr);
    let exit_match = a.exit_code == b.exit_code;
    if stdout_match && stderr_match && exit_match {
        RunResult::Pass { label }
    } else {
        let stdout_diff = if !stdout_match {
            let ta = decode_lossy(&a.stdout);
            let tb = decode_lossy(&b.stdout);
            Some(make_diff(ta.as_str(), tb.as_str()))
        } else {
            None
        };
        let stderr_diff = if !stderr_match {
            let ta = decode_lossy(&a.stderr);
            let tb = decode_lossy(&b.stderr);
            Some(make_diff(ta.as_str(), tb.as_str()))
        } else {
            None
        };
        RunResult::Fail { label, stdout_diff, stderr_diff, exit_a: a.exit_code, exit_b: b.exit_code }
    }
}

/// The step of a test case that could not be carried out.
#[derive(Debug, Clone, Copy, PartialEq, Eq)]
pub enum FailureStage {
    /// Reading the parent's standard input.
    ReadStdin,
    /// Starting or waiting for program A.
    RunA,
    /// Starting or waiting for program B.
    RunB,
}

/// The text that introduces the error message of each stage.
pub open spec fn stage_prefix(stage: FailureStage) -> Seq<char> {
    match stage {
        FailureStage::ReadStdin => "Failed to read stdin: "@,
        FailureStage::RunA => "A failed to execute: "@,
        FailureStage::RunB => "B failed to execute: "@,
    }
}

/// The `Error` result for a test case whose `stage` failed with `detail`.
pub fn failure_result(label: String, stage: FailureStage, detail: &str) -> (r: RunResult)
    ensures
        r@ == (Outcome::Error { label: label@, message: stage_prefix(stage) + detail@ }),
{
    let mut message = match stage {
        FailureStage::ReadStdin => String::from_str("Failed to read stdin: "),
        FailureStage::RunA => String::from_str("A failed to execute: "),
        FailureStage::RunB => String::from_str("B failed to execute: "),
    };
    push_all(&mut message, detail);
    RunResult::Error { label, message }
}

/// How long to wait between two polls of a running program, in
/// milliseconds.
pub const POLL_INTERVAL_MILLIS: u64 = 50;

/// What to do after polling a running program.
#[derive(Debug, Clone, Copy, PartialEq, Eq)]
pub enum PollAction {
    /// The program has exited: collect its output.
    Collect,
    /// The time limit is used up: kill the program and report a timeout.
    Kill,
    /// Sleep for one poll interval and poll again.
    Sleep,
}

/// The decision after one poll: collect once the program has exited, kill
/// it once `elapsed` has reached `timeout` (both in nanoseconds), else wait.
pub fn poll_action(exited: bool, elapsed: u128, timeout: u128) -> (act: PollAction)
    ensures
        exited ==> act == PollAction::Collect,
        !exited && elapsed >= timeout ==> act == PollAction::Kill,
        !exited && elapsed < timeout ==> act == PollAction::Sleep,
{
    if exited {
        PollAction::Collect
    } else if elapsed >= timeout {
        PollAction::Kill
    } else {
        PollAction::Sleep
    }
}

/// The message for a program killed after `secs` whole seconds.
pub fn timeout_message(secs: u64) -> (m: String)
    ensures
        m@ == "timed out after "@ + decimal(secs as nat) + "s"@,
{
    let mut m = String::from_str("timed out after ");
    push_decimal(&mut m, secs as u128);
    push_all(&mut m, "s");
    m
}

/// A test case's label splits back into its arguments, when there is at
/// least one and none is empty or holds whitespace or quotes.
pub proof fn lemma_label_splits_back(ws: Seq<Seq<char>>)
    requires
        ws.len() > 0,
        forall|k: int| 0 <= k < ws.len() ==> plain_word(#[trigger] ws[k]),
    ensures
        shell_words_spec(label_spec(InputView::Args(ws))) == ws,
{
    lemma_shell_words_of_joined(ws);
}

/// A program compared with an identical run of itself passes.
pub proof fn lemma_identical_runs_pass(
    label: Seq<char>,
    out: (Seq<u8>, Seq<u8>, i32),
    compare_stderr: bool,
)
    ensures
        compare_spec(label, out, out, compare_stderr) == (Outcome::Pass { label }),
{
}

/// A comparison passes exactly when the bytes written to stdout, the exit
/// code and (when asked for) the bytes written to stderr agree; a failure always shows why: the exit codes differ or
/// it carries a diff of a stream that differs.
pub proof fn lemma_failure_has_a_reason(
    label: Seq<char>,
    a: (Seq<u8>, Seq<u8>, i32),
    b: (Seq<u8>, Seq<u8>, i32),
    compare_stderr: bool,
)
    ensures
        compare_spec(label, a, b, compare_stderr) is Pass <==> (a.0 == b.0 && a.2 == b.2 && (
        !compare_stderr || a.1 == b.1)),
        compare_spec(label, a, b, compare_stderr) matches Outcome::Fail {
            stdout_diff,
            stderr_diff,
            exit_a,
            exit_b,
            ..
        } ==> exit_a != exit_b || stdout_diff is Some || stderr_diff is Some,
        compare_spec(label, a, b, compare_stderr) matches Outcome::Fail {
            stdout_diff,
            stderr_diff,
            exit_a,
            exit_b,
            ..
        } ==> exit_a == a.2 && exit_b == b.2 && (stdout_diff is Some <==> a.0 != b.0) && (
        stderr_diff is Some <==> (compare_stderr && a.1 != b.1)),
        compare_spec(label, a, b, compare_stderr) matches Outcome::Pass { label: l } ==> l == label,
        compare_spec(label, a, b, compare_stderr) matches Outcome::Fail { label: l, .. } ==> l
            == label,
        !(compare_spec(label, a, b, compare_stderr) is Error),
        !compare_stderr ==> (compare_spec(label, a, b, compare_stderr) matches Outcome::Fail {
            stderr_diff,
            ..
        } ==> stderr_diff is None),
{
}

} // verus!
