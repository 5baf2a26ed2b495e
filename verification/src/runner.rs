//! The outer driver's decision logic: how a builder invocation is
//! rewritten to publish its event stream, and when the repair loop runs
//! the builder again.

use vstd::prelude::*;
use vstd::string::StrSliceExecFns;
use vstd::string::StringExecFns;

use crate::text::dec_digits;
use crate::text::is_prefix;
use crate::text::u16_to_dec;

verus! {

/// The outcome of one builder run.
#[derive(Clone, Copy, Debug, PartialEq, Eq, Structural)]
pub struct ExecuteResult {
    pub exit_code: i32,
    pub errors_corrected: u32,
}

/// An ASCII capital folded to its small form; anything else unchanged.
pub open spec fn lower_char(c: char) -> char {
    if 'A' <= c && c <= 'Z' {
        (((c as u8) + 32) as char)
    } else {
        c
    }
}

pub open spec fn lower_seq(s: Seq<char>) -> Seq<char> {
    s.map_values(|c: char| lower_char(c))
}

fn lower_ascii(c: char) -> (r: char)
    ensures
        r == lower_char(c),
{
    if 'A' <= c && c <= 'Z' {
        proof {
            assert(c as u8 >= 65 && c as u8 <= 90);
        }
        ((c as u8) + 32) as char
    } else {
        c
    }
}

/// Whether the strings agree after ASCII case folding.
pub fn eq_ignore_ascii_case_str(a: &str, b: &str) -> (r: bool)
    ensures
        r == (lower_seq(a@) == lower_seq(b@)),
{
    let alen = a.unicode_len();
    let blen = b.unicode_len();
    if alen != blen {
        proof {
            assert(lower_seq(a@).len() == a@.len());
            assert(lower_seq(b@).len() == b@.len());
        }
        return false;
    }
    let mut i: usize = 0;
    while i < alen
        invariant
            0 <= i <= alen,
            alen == a@.len(),
            alen == b@.len(),
            forall|j: int| 0 <= j < i ==> lower_char(a@[j]) == lower_char(b@[j]),
        decreases alen - i,
    {
        if lower_ascii(a.get_char(i)) != lower_ascii(b.get_char(i)) {
            proof {
                assert(lower_seq(a@)[i as int] == lower_char(a@[i as int]));
                assert(lower_seq(b@)[i as int] == lower_char(b@[i as int]));
            }
            return false;
        }
        i = i + 1;
    }
    proof {
        assert(lower_seq(a@) =~= lower_seq(b@));
    }
    true
}

/// First index at or after `i` whose argument does not start with `--`.
pub open spec fn first_nonflag(args: Seq<Seq<char>>, i: int) -> int
    decreases args.len() - i + 1,
{
    if i < 0 || i >= args.len() {
        args.len() as int
    } else if is_prefix(args[i], "--"@) {
        first_nonflag(args, i + 1)
    } else {
        i
    }
}

proof fn lemma_first_nonflag(args: Seq<Seq<char>>, i: int)
    requires
        0 <= i <= args.len(),
    ensures
        i <= first_nonflag(args, i) <= args.len(),
        first_nonflag(args, i) < args.len() ==> !is_prefix(args[first_nonflag(args, i)], "--"@),
        forall|j: int| i <= j < first_nonflag(args, i) ==> is_prefix(args[j], "--"@),
    decreases args.len() - i + 1,
{
    if i < args.len() && is_prefix(args[i], "--"@) {
        lemma_first_nonflag(args, i + 1);
    }
}

/// The event-reporting flags injected after the recognized subcommand.
pub open spec fn bes_section(subcommand: Seq<char>, port: u16) -> Seq<Seq<char>> {
    seq![
        subcommand,
        "--build_event_publish_all_actions"@,
        "--color"@,
        "yes"@,
        "--bes_backend"@,
        "grpc://127.0.0.1:"@ + dec_digits(port as nat),
    ]
}

/// The rewritten argument vector: the binary dropped, leading `--` flags
/// kept, and the event-reporting flags spliced in after the first
/// recognized subcommand (`build` or `test`, any case). Anything else is
/// left alone.
pub open spec fn update_command_spec(command: Seq<Seq<char>>, srv_port: u16) -> Option<
    Seq<Seq<char>>,
> {
    let rest = command.skip(1);
    let idx = first_nonflag(rest, 0);
    if command.len() == 0 || idx >= rest.len() {
        None
    } else if lower_seq(rest[idx]) == "build"@ || lower_seq(rest[idx]) == "test"@ {
        Some(rest.take(idx) + bes_section(rest[idx], srv_port) + rest.skip(idx + 1))
    } else {
        None
    }
}

/// Rewrites a builder invocation so the builder publishes its event
/// stream to this process, or reports that the invocation holds no
/// recognized subcommand.
pub fn update_command(command: &Vec<String>, srv_port: u16) -> (r: Option<Vec<String>>)
    ensures
        r.deep_view() == update_command_spec(command.deep_view(), srv_port),
{
    proof {
        reveal_strlit("--");
    }
    if command.len() == 0 {
        return None;
    }
    let ghost cv = command.deep_view();
    let ghost rest = cv.skip(1);
    let n = command.len();
    let mut idx: usize = 1;
    proof {
        lemma_first_nonflag(rest, 0);
    }
    while idx < n
        invariant
            1 <= idx <= n,
            n == command@.len(),
            n >= 1,
            command.deep_view() == cv,
            rest == cv.skip(1),
            forall|j: int| 0 <= j < idx - 1 ==> is_prefix(#[trigger] rest[j], "--"@),
        decreases n - idx,
    {
        proof {
            reveal_strlit("--");
            assert(rest[idx - 1] == command@[idx as int]@);
        }
        let dashes: &str = "--";
        if !crate::text::starts_with_str(command[idx].as_str(), dashes) {
            proof {
                lemma_first_nonflag(rest, 0);
                assert(first_nonflag(rest, 0) == idx - 1);
            }
            let sub = &command[idx];
            proof {
                reveal_strlit("build");
                reveal_strlit("test");
                assert(lower_seq("build"@) =~= "build"@);
                assert(lower_seq("test"@) =~= "test"@);
                assert(sub@ == rest[idx - 1]);
            }
            if eq_ignore_ascii_case_str(sub.as_str(), "build") || eq_ignore_ascii_case_str(
                sub.as_str(),
                "test",
            ) {
                let mut out: Vec<String> = Vec::new();
                let mut k: usize = 1;
                while k < idx
                    invariant
                        1 <= k <= idx <= n,
                        n == command@.len(),
                        command.deep_view() == cv,
                        rest == cv.skip(1),
                        out.deep_view() == rest.take(k - 1),
                    decreases idx - k,
                {
                    let ghost prev = out.deep_view();
                    out.push(command[k].clone());
                    proof {
                        assert(out.deep_view() =~= prev.push(rest[k - 1]));
                        assert(rest.take(k as int) =~= rest.take(k - 1).push(rest[k - 1]));
                    }
                    k = k + 1;
                }
                out.push(command[idx].clone());
                out.push(String::from_str("--build_event_publish_all_actions"));
                out.push(String::from_str("--color"));
                out.push(String::from_str("yes"));
                out.push(String::from_str("--bes_backend"));
                let port_str = u16_to_dec(srv_port);
                out.push(crate::text::concat2("grpc://127.0.0.1:", port_str.as_str()));
                let mut k2: usize = idx + 1;
                proof {
                    assert(out.deep_view() =~= rest.take(idx - 1) + bes_section(
                        rest[idx - 1],
                        srv_port,
                    ) + rest.skip(idx as int).take(0));
                }
                while k2 < n
                    invariant
                        idx + 1 <= k2 <= n,
                        1 <= idx < n,
                        n == command@.len(),
                        command.deep_view() == cv,
                        rest == cv.skip(1),
                        out.deep_view() == rest.take(idx - 1) + bes_section(
                            rest[idx - 1],
                            srv_port,
                        ) + rest.skip(idx as int).take(k2 - idx - 1),
                    decreases n - k2,
                {
                    let ghost prev = out.deep_view();
                    out.push(command[k2].clone());
                    proof {
                        assert(rest.skip(idx as int)[k2 - idx - 1] == rest[k2 - 1]);
                        assert(rest[k2 - 1] == command@[k2 as int]@);
                        assert(out.deep_view() =~= prev.push(rest.skip(idx as int)[k2 - idx - 1]));
                        assert(rest.skip(idx as int).take(k2 - idx) =~= rest.skip(
                            idx as int,
                        ).take(k2 - idx - 1).push(rest.skip(idx as int)[k2 - idx - 1]));
                        assert(rest.take(idx - 1) + bes_section(rest[idx - 1], srv_port)
                            + rest.skip(idx as int).take(k2 - idx) =~= (rest.take(idx - 1)
                            + bes_section(rest[idx - 1], srv_port) + rest.skip(idx as int).take(
                            k2 - idx - 1,
                        )).push(rest.skip(idx as int)[k2 - idx - 1]));
                    }
                    k2 = k2 + 1;
                }
                proof {
                    assert(rest.skip(idx as int).take(n - idx - 1) =~= rest.skip(idx as int));
                    assert(out.deep_view() =~= rest.take(idx - 1) + bes_section(
                        rest[idx - 1],
                        srv_port,
                    ) + rest.skip(idx as int));
                }
                return Some(out);
            } else {
                return None;
            }
        }
        idx = idx + 1;
    }
    proof {
        lemma_first_nonflag(rest, 0);
        assert(first_nonflag(rest, 0) == rest.len());
    }
    None
}

/// Whether the outer driver should run the builder again: only while the
/// last run failed, the planner still corrected something, and the
/// iteration cap is not reached.
pub fn should_retry(last: &ExecuteResult, iterations_run: u32, max_iterations: u32) -> (r: bool)
    ensures
        r == (last.exit_code != 0 && last.errors_corrected > 0 && iterations_run
            < max_iterations),
{
    last.exit_code != 0 && last.errors_corrected > 0 && iterations_run < max_iterations
}

} // verus!
