//! The command-line driver's decisions: which test cases to run, how each
//! outcome is reported, and how the run ends.

use vstd::prelude::*;
use crate::diff::{line_ranges, lines, starts_with};
use crate::runner::{opt_view, InputSource, InputView, Outcome, RunResult};
use crate::text::{chars_of, decimal, push_all, push_char, push_decimal, push_signed, signed_decimal};
use crate::words::{shell_words, shell_words_spec, strings_view};

verus! {

/// The contents of a list of test cases.
pub open spec fn inputs_view(v: Seq<InputSource>) -> Seq<InputView> {
    v.map_values(|i: InputSource| i@)
}

/// The test cases run when no inputs are given: no arguments, a word, a
/// phrase, an empty argument, a number, a negative number, and three words.
pub open spec fn smoke_inputs() -> Seq<InputView> {
    seq![
        InputView::Args(seq![]),
        InputView::Args(seq!["hello"@]),
        InputView::Args(seq!["Hello, World!"@]),
        InputView::Args(seq![""@]),
        InputView::Args(seq!["42"@]),
        InputView::Args(seq!["-1"@]),
        InputView::Args(seq!["a"@, "b"@, "c"@]),
    ]
}

/// The test cases for a run: one reading stdin when `use_stdin`, else one
/// per given input (split into words as [`shell_words`] does), else the
/// smoke inputs.
pub open spec fn test_cases_spec(use_stdin: bool, inputs: Option<Seq<Seq<char>>>) -> Seq<InputView> {
    if use_stdin {
        seq![InputView::Stdin]
    } else {
        match inputs {
            Some(ins) => ins.map_values(|w: Seq<char>| InputView::Args(shell_words_spec(w))),
            None => smoke_inputs(),
        }
    }
}

fn one_arg(s: &str) -> (v: Vec<String>)
    ensures
        strings_view(v@) == seq![s@],
{
    let mut v = Vec::new();
    v.push(String::from_str(s));
    assert(strings_view(v@) =~= seq![s@]);
    v
}

/// The test cases for a run (see [`test_cases_spec`]).
pub fn test_cases(use_stdin: bool, inputs: Option<&Vec<String>>) -> (cases: Vec<InputSource>)
    ensures
        inputs_view(cases@) == test_cases_spec(
            use_stdin,
            match inputs {
                Some(v) => Some(strings_view(v@)),
                None => None,
            },
        ),
        use_stdin ==> inputs_view(cases@) == seq![InputView::Stdin],
{
    let mut cases: Vec<InputSource> = Vec::new();
    if use_stdin {
        cases.push(InputSource::Stdin);
        assert(inputs_view(cases@) =~= seq![InputView::Stdin]);
        return cases;
    }
    match inputs {
        Some(args) => {
            let ghost want = strings_view(args@).map_values(
                |w: Seq<char>| InputView::Args(shell_words_spec(w)),
            );
            let mut i: usize = 0;
            while i < args.len()
                invariant
                    i <= args.len(),
                    want == strings_view(args@).map_values(
                        |w: Seq<char>| InputView::Args(shell_words_spec(w)),
                    ),
                    inputs_view(cases@) == want.take(i as int),
                decreases args.len() - i,
            {
                let ws = shell_words(args[i].as_str());
                let ghost before = cases@;
                cases.push(InputSource::Args(ws));
                assert(want.take(i + 1) =~= want.take(i as int).push(want[i as int]));
                assert(inputs_view(cases@) =~= inputs_view(before).push(cases@[i as int]@));
                i = i + 1;
            }
            assert(want.take(args.len() as int) =~= want);
        },
        None => {
            let none: Vec<String> = Vec::new();
            assert(strings_view(none@) =~= seq![]);
            cases.push(InputSource::Args(none));
            cases.push(InputSource::Args(one_arg("hello")));
            cases.push(InputSource::Args(one_arg("Hello, World!")));
            cases.push(InputSource::Args(one_arg("")));
            cases.push(InputSource::Args(one_arg("42")));
            cases.push(InputSource::Args(one_arg("-1")));
            let mut abc = Vec::new();
            abc.push(String::from_str("a"));
            abc.push(String::from_str("b"));
            abc.push(String::from_str("c"));
            assert(strings_view(abc@) =~= seq!["a"@, "b"@, "c"@]);
            cases.push(InputSource::Args(abc));
            assert(inputs_view(cases@) =~= smoke_inputs());
        },
    }
    cases
}

/// The contents of a list of results.
pub open spec fn outcomes(v: Seq<RunResult>) -> Seq<Outcome> {
    v.map_values(|r: RunResult| r@)
}

/// How many of `s` passed.
pub open spec fn count_pass(s: Seq<Outcome>) -> nat
    decreases s.len(),
{
    if s.len() == 0 {
        0
    } else {
        count_pass(s.drop_last()) + if s.last() is Pass { 1nat } else { 0nat }
    }
}

/// How many of `s` failed.
pub open spec fn count_fail(s: Seq<Outcome>) -> nat
    decreases s.len(),
{
    if s.len() == 0 {
        0
    } else {
        count_fail(s.drop_last()) + if s.last() is Fail { 1nat } else { 0nat }
    }
}

/// How many of `s` could not be run.
pub open spec fn count_error(s: Seq<Outcome>) -> nat
    decreases s.len(),
{
    if s.len() == 0 {
        0
    } else {
        count_error(s.drop_last()) + if s.last() is Error { 1nat } else { 0nat }
    }
}

/// Every result is counted exactly once.
pub proof fn lemma_counts_cover(s: Seq<Outcome>)
    ensures
        count_pass(s) + count_fail(s) + count_error(s) == s.len(),
    decreases s.len(),
{
    if s.len() > 0 {
        lemma_counts_cover(s.drop_last());
    }
}

/// How many test cases passed, failed and could not be run.
#[derive(Debug, Clone, Copy, PartialEq, Eq)]
pub struct Tally {
    /// Test cases whose programs agreed.
    pub passed: usize,
    /// Test cases whose programs diverged.
    pub failed: usize,
    /// Test cases that could not be run.
    pub errored: usize,
}

/// Counts the results by kind.
pub fn tally(results: &Vec<RunResult>) -> (t: Tally)
    ensures
        t.passed == count_pass(outcomes(results@)),
        t.failed == count_fail(outcomes(results@)),
        t.errored == count_error(outcomes(results@)),
        t.passed + t.failed + t.errored == results.len(),
{
    let ghost all = outcomes(results@);
    let mut t = Tally { passed: 0, failed: 0, errored: 0 };
    let mut i: usize = 0;
    while i < results.len()
        invariant
            i <= results.len(),
            all == outcomes(results@),
            t.passed == count_pass(all.take(i as int)),
            t.failed == count_fail(all.take(i as int)),
            t.errored == count_error(all.take(i as int)),
        decreases results.len() - i,
    {
        proof {
            lemma_counts_cover(all.take(i as int));
            assert(all.take(i + 1).drop_last() =~= all.take(i as int));
            assert(all.take(i + 1).last() == results@[i as int]@);
        }
        match &results[i] {
            RunResult::Pass { .. } => {
                t.passed = t.passed + 1;
            },
            RunResult::Fail { .. } => {
                t.failed = t.failed + 1;
            },
            RunResult::Error { .. } => {
                t.errored = t.errored + 1;
            },
        }
        i = i + 1;
    }
    proof {
        assert(all.take(results.len() as int) =~= all);
        lemma_counts_cover(all);
    }
    t
}

/// Whether a run with this tally succeeded: nothing failed and nothing
/// errored. The program exits with status 0 exactly then.
pub fn all_passed(t: &Tally) -> (ok: bool)
    ensures
        ok == (t.failed == 0 && t.errored == 0),
{
    t.failed == 0 && t.errored == 0
}

/// The banner printed before the test cases run.
pub open spec fn header_spec(prog_a: Seq<char>, prog_b: Seq<char>) -> Seq<Seq<char>> {
    seq![
        "\n\x1b[1m\x1b[35mdifftest\x1b[0m  comparing two programs\n"@,
        "  \x1b[2mA (oracle):\x1b[0m    \x1b[36m"@ + prog_a + "\x1b[0m"@,
        "  \x1b[2mB (candidate):\x1b[0m  \x1b[36m"@ + prog_b + "\x1b[0m"@,
        ""@,
    ]
}

/// The banner printed before the test cases run, one string per line
/// written.
pub fn header_lines(prog_a: &str, prog_b: &str) -> (out: Vec<String>)
    ensures
        strings_view(out@) == header_spec(prog_a@, prog_b@),
{
    let mut out: Vec<String> = Vec::new();
    out.push(String::from_str("\n\x1b[1m\x1b[35mdifftest\x1b[0m  comparing two programs\n"));
    let mut la = String::from_str("  \x1b[2mA (oracle):\x1b[0m    \x1b[36m");
    push_all(&mut la, prog_a);
    push_all(&mut la, "\x1b[0m");
    out.push(la);
    let mut lb = String::from_str("  \x1b[2mB (candidate):\x1b[0m  \x1b[36m");
    push_all(&mut lb, prog_b);
    push_all(&mut lb, "\x1b[0m");
    out.push(lb);
    out.push(String::new());
    proof {
        reveal_strlit("");
        assert(out@[3]@ == ""@);
        assert(strings_view(out@)[0] == header_spec(prog_a@, prog_b@)[0]);
        assert(strings_view(out@)[1] == header_spec(prog_a@, prog_b@)[1]);
        assert(strings_view(out@)[2] == header_spec(prog_a@, prog_b@)[2]);
        assert(strings_view(out@).len() == 4);
    }
    assert(strings_view(out@) =~= header_spec(prog_a@, prog_b@));
    out
}

/// The line announcing how many test cases will run.
pub open spec fn running_spec(n: nat) -> Seq<char> {
    "  \x1b[2mRunning "@ + decimal(n) + " test case"@ + (if n == 1 {
        ""@
    } else {
        "s"@
    }) + "...\x1b[0m\n"@
}

/// The line announcing how many test cases will run.
pub fn running_line(n: usize) -> (line: String)
    ensures
        line@ == running_spec(n as nat),
{
    let mut line = String::from_str("  \x1b[2mRunning ");
    push_decimal(&mut line, n as u128);
    push_all(&mut line, " test case");
    if n == 1 {
        push_all(&mut line, "");
    } else {
        push_all(&mut line, "s");
    }
    push_all(&mut line, "...\x1b[0m\n");
    line
}

/// A diff line as shown: removed lines red, added lines green, both
/// indented.
pub open spec fn colored_diff_line(l: Seq<char>) -> Seq<char> {
    if starts_with(l, '-') {
        "          \x1b[31m"@ + l + "\x1b[0m"@
    } else if starts_with(l, '+') {
        "          \x1b[32m"@ + l + "\x1b[0m"@
    } else {
        "          "@ + l
    }
}

/// A titled diff as shown: the title, then each line of the diff.
pub open spec fn diff_block_spec(title: Seq<char>, diff: Seq<char>) -> Seq<Seq<char>> {
    seq![title] + lines(diff).map_values(|l: Seq<char>| colored_diff_line(l))
}

fn push_diff_block(out: &mut Vec<String>, title: &str, diff: &String)
    ensures
        strings_view(final(out)@) == strings_view(old(out)@) + diff_block_spec(title@, diff@),
{
    let ghost start = strings_view(out@);
    out.push(String::from_str(title));
    let v = chars_of(diff.as_str());
    let r = line_ranges(&v);
    let ghost ls = lines(diff@);
    let ghost want = ls.map_values(|l: Seq<char>| colored_diff_line(l));
    assert(strings_view(out@) =~= start + seq![title@]);
    let mut k: usize = 0;
    while k < r.len()
        invariant
            k <= r.len() == ls.len(),
            ls == lines(v@),
            want == ls.map_values(|l: Seq<char>| colored_diff_line(l)),
            forall|j: int|
                0 <= j < r.len() ==> {
                    &&& (#[trigger] r@[j]).0 <= r@[j].1 <= v.len()
                    &&& v@.subrange(r@[j].0 as int, r@[j].1 as int) == ls[j]
                },
            strings_view(out@) == start + seq![title@] + want.take(k as int),
        decreases r.len() - k,
    {
        let (from, to) = r[k];
        let ghost _rk = r@[k as int];
        let ghost l = ls[k as int];
        let mut line = String::new();
        let red = from < to && v[from] == '-';
        let green = from < to && v[from] == '+';
        if red {
            push_all(&mut line, "          \x1b[31m");
        } else if green {
            push_all(&mut line, "          \x1b[32m");
        } else {
            push_all(&mut line, "          ");
        }
        let ghost pre = line@;
        let mut m = from;
        while m < to
            invariant
                from <= m <= to <= v.len(),
                line@ == pre + v@.subrange(from as int, m as int),
            decreases to - m,
        {
            push_char(&mut line, v[m]);
            assert(v@.subrange(from as int, m + 1) =~= v@.subrange(from as int, m as int).push(
                v@[m as int],
            ));
            m = m + 1;
        }
        if red || green {
            push_all(&mut line, "\x1b[0m");
        }
        proof {
            assert(l.len() > 0 ==> l[0] == v@[from as int]);
            assert(line@ =~= colored_diff_line(l));
        }
        let ghost before = out@;
        out.push(line);
        proof {
            assert(strings_view(out@) =~= strings_view(before).push(colored_diff_line(l)));
            assert(want.take(k + 1) =~= want.take(k as int).push(want[k as int]));
        }
        k = k + 1;
    }
    assert(want.take(r.len() as int) =~= want);
}

/// How one test case's outcome is reported: a status line, and for a
/// failure outside quiet mode the differing exit codes and the diffs.
pub open spec fn result_spec(o: Outcome, quiet: bool) -> Seq<Seq<char>> {
    match o {
        Outcome::Pass { label } => seq!["  \x1b[1m\x1b[32mPASS\x1b[0m  "@ + label],
        Outcome::Fail { label, stdout_diff, stderr_diff, exit_a, exit_b } => {
            let head = seq!["  \x1b[1m\x1b[31mFAIL\x1b[0m  "@ + label];
            if quiet {
                head
            } else {
                head + (if exit_a != exit_b {
                    seq![
                        "        \x1b[2mexit code:\x1b[0m A="@ + signed_decimal(exit_a as int)
                            + ", B="@ + signed_decimal(exit_b as int),
                    ]
                } else {
                    seq![]
                }) + (match stdout_diff {
                    Some(d) => diff_block_spec("        \x1b[2mstdout:\x1b[0m"@, d),
                    None => seq![],
                }) + (match stderr_diff {
                    Some(d) => diff_block_spec("        \x1b[2mstderr:\x1b[0m"@, d),
                    None => seq![],
                })
            }
        },
        Outcome::Error { label, message } => seq![
            "  \x1b[1m\x1b[33mERR \x1b[0m  "@ + label + " \u{2014} "@ + message,
        ],
    }
}

/// How one test case's outcome is reported, one string per line written.
pub fn result_lines(r: &RunResult, quiet: bool) -> (out: Vec<String>)
    ensures
        strings_view(out@) == result_spec(r@, quiet),
{
    let mut out: Vec<String> = Vec::new();
    match r {
        RunResult::Pass { label } => {
            let mut line = String::from_str("  \x1b[1m\x1b[32mPASS\x1b[0m  ");
            push_all(&mut line, label.as_str());
            out.push(line);
            assert(strings_view(out@) =~= result_spec(r@, quiet));
        },
        RunResult::Fail { label, stdout_diff, stderr_diff, exit_a, exit_b } => {
            let mut line = String::from_str("  \x1b[1m\x1b[31mFAIL\x1b[0m  ");
            push_all(&mut line, label.as_str());
            out.push(line);
            let ghost head = strings_view(out@);
            if !quiet {
                if *exit_a != *exit_b {
                    let mut ex = String::from_str("        \x1b[2mexit code:\x1b[0m A=");
                    push_signed(&mut ex, *exit_a);
                    push_all(&mut ex, ", B=");
                    push_signed(&mut ex, *exit_b);
                    out.push(ex);
                }
                let ghost with_exit = strings_view(out@);
                match stdout_diff {
                    Some(d) => push_diff_block(&mut out, "        \x1b[2mstdout:\x1b[0m", d),
                    None => {},
                }
                let ghost with_stdout = strings_view(out@);
                match stderr_diff {
                    Some(d) => push_diff_block(&mut out, "        \x1b[2mstderr:\x1b[0m", d),
                    None => {},
                }
                proof {
                    let exit_part: Seq<Seq<char>> = if *exit_a != *exit_b {
                        seq![
                            "        \x1b[2mexit code:\x1b[0m A="@ + signed_decimal(*exit_a as int)
                                + ", B="@ + signed_decimal(*exit_b as int),
                        ]
                    } else {
                        seq![]
                    };
                    assert(with_exit =~= head + exit_part);
                    let out_part: Seq<Seq<char>> = match opt_view(*stdout_diff) {
                        Some(d) => diff_block_spec("        \x1b[2mstdout:\x1b[0m"@, d),
                        None => seq![],
                    };
                    assert(with_stdout =~= with_exit + out_part);
                    let err_part: Seq<Seq<char>> = match opt_view(*stderr_diff) {
                        Some(d) => diff_block_spec("        \x1b[2mstderr:\x1b[0m"@, d),
                        None => seq![],
                    };
                    assert(strings_view(out@) =~= with_stdout + err_part);
                    assert(strings_view(out@) =~= result_spec(r@, quiet));
                }
            } else {
                assert(strings_view(out@) =~= result_spec(r@, quiet));
            }
        },
        RunResult::Error { label, message } => {
            let mut line = String::from_str("  \x1b[1m\x1b[33mERR \x1b[0m  ");
            push_all(&mut line, label.as_str());
            push_all(&mut line, " \u{2014} ");
            push_all(&mut line, message.as_str());
            out.push(line);
            assert(strings_view(out@) =~= result_spec(r@, quiet));
        },
    }
    out
}

/// The closing summary: a blank line, the verdict, a blank line.
pub open spec fn summary_spec(passed: nat, failed: nat, errored: nat) -> Seq<Seq<char>> {
    let total = passed + failed + errored;
    let verdict = if failed == 0 && errored == 0 {
        "  \x1b[1m\x1b[32m\u{2713}\x1b[0m "@ + decimal(passed) + "/"@ + decimal(total)
            + " passed \u{2014} \x1b[32mprograms are behaviorally equivalent\x1b[0m"@
    } else {
        "  \x1b[1m\x1b[31m\u{2717}\x1b[0m "@ + decimal(passed) + "/"@ + decimal(total)
            + " passed, \x1b[31m"@ + decimal(failed) + " failed\x1b[0m"@ + (if errored > 0 {
            ", \x1b[33m"@ + decimal(errored) + " errors\x1b[0m"@
        } else {
            ""@
        })
    };
    seq![""@, verdict, ""@]
}

/// The closing summary, one string per line written.
pub fn summary_lines(t: &Tally) -> (out: Vec<String>)
    ensures
        strings_view(out@) == summary_spec(t.passed as nat, t.failed as nat, t.errored as nat),
        out@[1]@[11] == '\u{2713}' <==> (t.failed == 0 && t.errored == 0),
{
    let total: u128 = t.passed as u128 + t.failed as u128 + t.errored as u128;
    let mut out: Vec<String> = Vec::new();
    out.push(String::new());
    let mut verdict;
    if all_passed(t) {
        verdict = String::from_str("  \x1b[1m\x1b[32m\u{2713}\x1b[0m ");
        push_decimal(&mut verdict, t.passed as u128);
        push_all(&mut verdict, "/");
        push_decimal(&mut verdict, total);
        push_all(&mut verdict, " passed \u{2014} \x1b[32mprograms are behaviorally equivalent\x1b[0m");
    } else {
        verdict = String::from_str("  \x1b[1m\x1b[31m\u{2717}\x1b[0m ");
        push_decimal(&mut verdict, t.passed as u128);
        push_all(&mut verdict, "/");
        push_decimal(&mut verdict, total);
        push_all(&mut verdict, " passed, \x1b[31m");
        push_decimal(&mut verdict, t.failed as u128);
        push_all(&mut verdict, " failed\x1b[0m");
        if t.errored > 0 {
            push_all(&mut verdict, ", \x1b[33m");
            push_decimal(&mut verdict, t.errored as u128);
            push_all(&mut verdict, " errors\x1b[0m");
        } else {
            push_all(&mut verdict, "");
        }
    }
    out.push(verdict);
    out.push(String::new());
    proof {
        reveal_strlit("");
        let want = summary_spec(t.passed as nat, t.failed as nat, t.errored as nat);
        assert(strings_view(out@)[0] == want[0]);
        assert(strings_view(out@)[1] == want[1]);
        assert(strings_view(out@)[2] == want[2]);
    }
    assert(strings_view(out@) =~= summary_spec(t.passed as nat, t.failed as nat, t.errored as nat));
    proof {
        lemma_verdict_follows_counts(t.passed as nat, t.failed as nat, t.errored as nat);
        assert(out@[1]@ == strings_view(out@)[1]);
    }
    out
}

/// In quiet mode every outcome is reported on a single line.
pub proof fn lemma_quiet_is_one_line(o: Outcome)
    ensures
        result_spec(o, true).len() == 1,
{
}

/// A run succeeds exactly when every test case passed.
pub proof fn lemma_success_means_all_passed(results: Seq<Outcome>)
    ensures
        (count_fail(results) == 0 && count_error(results) == 0) <==> count_pass(results)
            == results.len(),
{
    lemma_counts_cover(results);
}

/// `--stdin` decides on its own: with it there is exactly one test case,
/// reading stdin, whether or not inputs were given. Without it, each given
/// input is one test case holding that input's words, in order; with no
/// inputs there are the seven smoke cases, the first without arguments.
pub proof fn lemma_which_test_cases(inputs: Option<Seq<Seq<char>>>, ins: Seq<Seq<char>>)
    ensures
        test_cases_spec(true, inputs) == seq![InputView::Stdin],
        test_cases_spec(false, Some(ins)).len() == ins.len(),
        forall|k: int|
            0 <= k < ins.len() ==> #[trigger] test_cases_spec(false, Some(ins))[k] == InputView::Args(
                shell_words_spec(ins[k]),
            ),
        test_cases_spec(false, None).len() == 7,
        test_cases_spec(false, None)[0] == InputView::Args(Seq::<Seq<char>>::empty()),
{
}

/// The position of the verdict mark in the summary's verdict line.
pub open spec fn verdict_mark(passed: nat, failed: nat, errored: nat) -> char {
    summary_spec(passed, failed, errored)[1][11]
}

/// The summary declares the programs equivalent, with a check mark, exactly
/// when nothing failed and nothing errored; otherwise it shows a cross,
/// also when every failure is an error that stopped a program from running.
pub proof fn lemma_verdict_follows_counts(passed: nat, failed: nat, errored: nat)
    ensures
        (verdict_mark(passed, failed, errored) == '\u{2713}') <==> (failed == 0 && errored == 0),
        (verdict_mark(passed, failed, errored) == '\u{2717}') <==> !(failed == 0 && errored == 0),
{
    reveal_strlit("  \x1b[1m\x1b[32m\u{2713}\x1b[0m ");
    reveal_strlit("  \x1b[1m\x1b[31m\u{2717}\x1b[0m ");
    let ok = "  \x1b[1m\x1b[32m\u{2713}\x1b[0m "@;
    let bad = "  \x1b[1m\x1b[31m\u{2717}\x1b[0m "@;
    assert(ok[11] == '\u{2713}');
    assert(bad[11] == '\u{2717}');
    let v = summary_spec(passed, failed, errored)[1];
    if failed == 0 && errored == 0 {
        let rest = decimal(passed) + "/"@ + decimal(passed + failed + errored)
            + " passed \u{2014} \x1b[32mprograms are behaviorally equivalent\x1b[0m"@;
        assert(v =~= ok + rest);
        assert((ok + rest)[11] == ok[11]);
    } else {
        let rest = decimal(passed) + "/"@ + decimal(passed + failed + errored) + " passed, \x1b[31m"@
            + decimal(failed) + " failed\x1b[0m"@ + (if errored > 0 {
            ", \x1b[33m"@ + decimal(errored) + " errors\x1b[0m"@
        } else {
            ""@
        });
        assert(v =~= bad + rest);
        assert((bad + rest)[11] == bad[11]);
    }
}

/// Adding one result raises the count of its own kind by one and leaves
/// the other two counts as they were.
pub proof fn lemma_count_one_more(s: Seq<Outcome>, o: Outcome)
    ensures
        count_pass(s.push(o)) == count_pass(s) + (if o is Pass { 1int } else { 0int }),
        count_fail(s.push(o)) == count_fail(s) + (if o is Fail { 1int } else { 0int }),
        count_error(s.push(o)) == count_error(s) + (if o is Error { 1int } else { 0int }),
{
    assert(s.push(o).drop_last() =~= s);
}

} // verus!
