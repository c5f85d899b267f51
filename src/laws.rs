use vstd::prelude::*;

use crate::command::after_run;
use crate::error::Fault;
use crate::grammar::parse_text;
use crate::grammar::scan;
use crate::grammar::CharClass;
use crate::render::command_text;
use crate::round_trip::lemma_parse_from_text;
use crate::round_trip::lemma_scan_exact;
use crate::round_trip::writable_command;
use crate::command::at;
use crate::command::first_from;
use crate::command::judge_from;
use crate::command::run_from;
use crate::command::step_eval;
use crate::key::Key;
use crate::step::CommandKey;

verus! {

/// An off step checked when no frame is left under the cursor holds.
pub proof fn lemma_off_holds_without_frames(
    key: Key,
    f: Seq<Key>,
    c: int,
    default_buffer: u32,
    default_hold: u32,
)
    requires
        c >= f.len(),
    ensures
        step_eval(CommandKey::Off { key }, f, c, default_buffer, default_hold).0,
{
}

/// The frames not yet consumed when the cursor stands at `c`.
pub open spec fn unconsumed(f: Seq<Key>, c: int) -> Seq<Key> {
    f.subrange(0, f.len() - c)
}

proof fn lemma_scan_shift(f: Seq<Key>, key: Key, c: int, x: int)
    requires
        0 <= c <= f.len(),
        0 <= x <= f.len() - c,
    ensures
        first_from(f, key, c + x) == first_from(unconsumed(f, c), key, x) + c,
        run_from(f, key, c + x) == run_from(unconsumed(f, c), key, x),
        after_run(f, key, c + x) == after_run(unconsumed(f, c), key, x) + c,
        c + x <= first_from(f, key, c + x) <= f.len(),
        0 <= run_from(f, key, c + x) <= f.len() - (c + x),
    decreases f.len() - c - x,
{
    let g = unconsumed(f, c);
    if x < g.len() {
        assert(at(g, x) == at(f, c + x));
        lemma_scan_shift(f, key, c, x + 1);
    }
}

/// A step reads only frames that the cursor has not passed, and moves the
/// cursor only further into the past: checking it with the cursor at `c`
/// is checking it with the cursor at the start of the frames not yet
/// consumed, and it leaves the cursor `c` further on.
pub proof fn lemma_step_reads_only_unconsumed(
    step: CommandKey,
    f: Seq<Key>,
    c: int,
    default_buffer: u32,
    default_hold: u32,
)
    requires
        0 <= c <= f.len(),
    ensures
        c <= step_eval(step, f, c, default_buffer, default_hold).1 <= f.len(),
        step_eval(step, f, c, default_buffer, default_hold).0 == step_eval(
            step,
            unconsumed(f, c),
            0,
            default_buffer,
            default_hold,
        ).0,
        step_eval(step, f, c, default_buffer, default_hold).1 == step_eval(
            step,
            unconsumed(f, c),
            0,
            default_buffer,
            default_hold,
        ).1 + c,
{
    let g = unconsumed(f, c);
    match step {
        CommandKey::On { key } => {
            if c < f.len() {
                assert(at(g, 0) == at(f, c));
            }
        },
        CommandKey::Off { key } => {
            if c < f.len() {
                assert(at(g, 0) == at(f, c));
            }
        },
        _ => {
            let key = step.key();
            lemma_scan_shift(f, key, c, 0);
            let p = first_from(f, key, c);
            if p < f.len() {
                lemma_scan_shift(f, key, c, p + 1 - c);
                lemma_scan_shift(f, key, c, p - c);
            }
        },
    }
}

/// Steps are checked from the last one back over a single pass: a command
/// checked with the cursor at `c` sees only the frames not yet consumed.
pub proof fn lemma_judge_reads_only_unconsumed(
    steps: Seq<CommandKey>,
    f: Seq<Key>,
    c: int,
    default_buffer: u32,
    default_hold: u32,
)
    requires
        0 <= c <= f.len(),
    ensures
        judge_from(steps, f, c, default_buffer, default_hold) == judge_from(
            steps,
            unconsumed(f, c),
            0,
            default_buffer,
            default_hold,
        ),
    decreases steps.len(),
{
    if steps.len() > 0 {
        let g = unconsumed(f, c);
        lemma_step_reads_only_unconsumed(steps.last(), f, c, default_buffer, default_hold);
        let next = step_eval(steps.last(), f, c, default_buffer, default_hold).1;
        let gnext = step_eval(steps.last(), g, 0, default_buffer, default_hold).1;
        lemma_judge_reads_only_unconsumed(steps.drop_last(), f, next, default_buffer, default_hold);
        lemma_step_reads_only_unconsumed(steps.last(), g, 0, default_buffer, default_hold);
        assert(g.subrange(0, g.len() - 0) =~= g);
        lemma_judge_reads_only_unconsumed(steps.drop_last(), g, gnext, default_buffer, default_hold);
        assert(unconsumed(g, gnext) =~= unconsumed(f, next));
    }
}

/// Reading the canonical text of a command gives back the same steps, with
/// the same key sets and the same windows set or left out, for every
/// command that text can write.
pub proof fn lemma_round_trip(steps: Seq<CommandKey>)
    requires
        writable_command(steps),
    ensures
        parse_text(command_text(steps)) == Ok::<Seq<CommandKey>, Fault>(steps),
{
    let t = command_text(steps);
    let first = steps[0];
    assert(t[0] == crate::render::step_text(first)[0]) by {
        if steps.len() > 1 {
            assert((crate::render::step_text(first) + seq!['>'] + command_text(
                steps.drop_first(),
            ))[0] == crate::render::step_text(first)[0]);
        }
    }
    lemma_scan_exact(t, 0, 0, CharClass::Space);
    assert(scan(t, 0, CharClass::Space) == 0);
    assert(t.subrange(0, t.len() as int) =~= t);
    lemma_parse_from_text(t, 0, steps);
}

} // verus!
