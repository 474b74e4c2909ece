//! What the arguments of the program ask for.
use vstd::prelude::*;

use crate::text::{is_either, either, lemma_texts_push, opt_text, same, texts};

verus! {

/// What the program is to do.
#[derive(Debug)]
pub enum Launch {
    /// Show the usage, because it was asked for or because the arguments are no good.
    Usage { asked: bool },
    /// Debug a firmware behind a remote stub.
    Remote { firmware: String, endpoint: Option<String>, tui: bool },
    /// Debug a program on this machine.
    Local { program: String, tui: bool },
}

/// What the program is to do, as mathematical values.
pub enum LaunchShape {
    Usage { asked: bool },
    Remote { firmware: Seq<char>, endpoint: Option<Seq<char>>, tui: bool },
    Local { program: Seq<char>, tui: bool },
}

impl View for Launch {
    type V = LaunchShape;

    open spec fn view(&self) -> LaunchShape {
        match self {
            Launch::Usage { asked } => LaunchShape::Usage { asked: *asked },
            Launch::Remote { firmware, endpoint, tui } => LaunchShape::Remote {
                firmware: firmware@,
                endpoint: opt_text(*endpoint),
                tui: *tui,
            },
            Launch::Local { program, tui } => LaunchShape::Local { program: program@, tui: *tui },
        }
    }
}

/// The arguments without those that ask for the terminal interface.
pub open spec fn without_tui(args: Seq<Seq<char>>) -> Seq<Seq<char>>
    decreases args.len(),
{
    if args.len() == 0 {
        Seq::empty()
    } else if args.last() == "--tui"@ {
        without_tui(args.drop_last())
    } else {
        without_tui(args.drop_last()).push(args.last())
    }
}

/// What the arguments ask for, once those for the terminal interface are taken out.
pub open spec fn launch_with(rest: Seq<Seq<char>>, tui: bool) -> LaunchShape {
    if rest.len() == 0 {
        LaunchShape::Usage { asked: false }
    } else if either(rest[0], "--arm-gdb"@, "--gdb-remote"@) {
        if rest.len() < 2 {
            LaunchShape::Usage { asked: false }
        } else {
            LaunchShape::Remote {
                firmware: rest[1],
                endpoint: if rest.len() < 3 {
                    None
                } else {
                    Some(rest[2])
                },
                tui,
            }
        }
    } else {
        LaunchShape::Local { program: rest[0], tui }
    }
}

/// What the arguments ask for.
pub open spec fn launch_of(args: Seq<Seq<char>>) -> LaunchShape {
    if args.contains("--help"@) || args.contains("-h"@) {
        LaunchShape::Usage { asked: true }
    } else {
        launch_with(without_tui(args), args.contains("--tui"@))
    }
}

/// Whether one of the arguments is one of two words.
fn has_either(args: &Vec<String>, a: &str, b: &str) -> (r: bool)
    ensures
        r == (texts(args@).contains(a@) || texts(args@).contains(b@)),
{
    let ghost all = texts(args@);
    for i in 0..args.len()
        invariant
            all == texts(args@),
            forall|j: int| 0 <= j < i ==> #[trigger] all[j] != a@ && all[j] != b@,
    {
        if is_either(args[i].as_str(), a, b) {
            assert(all[i as int] == args@[i as int]@);
            assert(all.contains(all[i as int]));
            return true;
        }
    }
    false
}

/// The arguments without those that ask for the terminal interface.
fn drop_tui(args: &Vec<String>) -> (r: Vec<String>)
    ensures
        texts(r@) == without_tui(texts(args@)),
{
    let mut out: Vec<String> = Vec::new();
    let ghost all = texts(args@);
    assert(all.take(0) =~= Seq::<Seq<char>>::empty());
    assert(texts(out@) =~= Seq::<Seq<char>>::empty());
    for i in 0..args.len()
        invariant
            all == texts(args@),
            texts(out@) == without_tui(all.take(i as int)),
    {
        assert(all.take(i + 1).drop_last() =~= all.take(i as int));
        assert(all.take(i + 1).last() == args@[i as int]@);
        if !same(args[i].as_str(), "--tui") {
            let arg = args[i].clone();
            proof {
                lemma_texts_push(out@, arg);
            }
            out.push(arg);
        }
    }
    assert(all.take(args@.len() as int) =~= all);
    out
}

/// Finds out what the arguments behind the name of the program ask for.
pub fn parse_args(args: &Vec<String>) -> (r: Launch)
    ensures
        r@ == launch_of(texts(args@)),
{
    if has_either(args, "--help", "-h") {
        return Launch::Usage { asked: true };
    }
    let tui = has_either(args, "--tui", "--tui");
    let rest = drop_tui(args);
    if rest.len() == 0 {
        return Launch::Usage { asked: false };
    }
    if is_either(rest[0].as_str(), "--arm-gdb", "--gdb-remote") {
        if rest.len() < 2 {
            return Launch::Usage { asked: false };
        }
        let endpoint = if rest.len() < 3 {
            None
        } else {
            Some(rest[2].clone())
        };
        return Launch::Remote { firmware: rest[1].clone(), endpoint, tui };
    }
    Launch::Local { program: rest[0].clone(), tui }
}

/// The words that ask for the terminal interface may stand anywhere among the arguments.
pub proof fn lemma_tui_anywhere(before: Seq<Seq<char>>, after: Seq<Seq<char>>)
    ensures
        without_tui(before.push("--tui"@) + after) == without_tui(before + after),
    decreases after.len(),
{
    if after.len() == 0 {
        assert(before.push("--tui"@) + after =~= before.push("--tui"@));
        assert(before.push("--tui"@).drop_last() =~= before);
        assert(before + after =~= before);
    } else {
        lemma_tui_anywhere(before, after.drop_last());
        assert((before.push("--tui"@) + after).drop_last() =~= before.push("--tui"@)
            + after.drop_last());
        assert((before + after).drop_last() =~= before + after.drop_last());
    }
}

// ---------------------------------------------------------------------------
// Usage

/// A line of the usage for arguments.
pub open spec fn usage_line(program: Seq<char>, args: Seq<char>) -> Seq<char> {
    "  "@ + program + args + "\n"@
}

/// The supported ways to call the program.
pub open spec fn usage_of(program: Seq<char>) -> Seq<char> {
    "Usage:\n"@ + usage_line(program, " <linux-program>"@) + usage_line(
        program,
        " --tui <linux-program>"@,
    ) + usage_line(program, " --arm-gdb <firmware.elf> [host:port]"@) + usage_line(
        program,
        " --tui --arm-gdb <firmware.elf> [host:port]"@,
    ) + usage_line(program, " --gdb-remote <firmware.elf> [host:port]"@)
}

/// Appends a line of the usage.
fn push_usage_line(out: &mut String, program: &str, args: &str)
    ensures
        final(out)@ == old(out)@ + usage_line(program@, args@),
{
    let ghost before = out@;
    out.append("  ");
    out.append(program);
    out.append(args);
    out.append("\n");
    assert(out@ =~= before + usage_line(program@, args@));
}

/// The supported ways to call the program.
pub fn usage(program: &str) -> (r: String)
    ensures
        r@ == usage_of(program@),
{
    let mut out = "Usage:\n".to_owned();
    push_usage_line(&mut out, program, " <linux-program>");
    push_usage_line(&mut out, program, " --tui <linux-program>");
    push_usage_line(&mut out, program, " --arm-gdb <firmware.elf> [host:port]");
    push_usage_line(&mut out, program, " --tui --arm-gdb <firmware.elf> [host:port]");
    push_usage_line(&mut out, program, " --gdb-remote <firmware.elf> [host:port]");
    out
}

} // verus!
