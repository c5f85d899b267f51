use vstd::prelude::*;

use crate::error::Error;
use crate::error::Fault;
use crate::grammar::build_command;
use crate::grammar::parse_text;
use crate::key::Key;
use crate::step::CommandKey;

verus! {

/// The frame that lies `c` frames back from the most recent one: cursor
/// position `c` over a history `f` that is ordered oldest first.
pub open spec fn at(f: Seq<Key>, c: int) -> Key {
    f[f.len() - 1 - c]
}

/// The first cursor position at or after `c` whose frame holds `key`, or
/// the length of the history where there is none.
pub open spec fn first_from(f: Seq<Key>, key: Key, c: int) -> int
    decreases f.len() - c,
{
    if c >= f.len() {
        f.len() as int
    } else if at(f, c).has(key) {
        c
    } else {
        first_from(f, key, c + 1)
    }
}

/// How many consecutive frames from cursor position `c` on hold `key`.
pub open spec fn run_from(f: Seq<Key>, key: Key, c: int) -> int
    decreases f.len() - c,
{
    if c >= f.len() {
        0
    } else if at(f, c).has(key) {
        1 + run_from(f, key, c + 1)
    } else {
        0
    }
}

/// The cursor after counting the run that starts at `c`: the frame that
/// ends the run is left for the next step.
pub open spec fn after_run(f: Seq<Key>, key: Key, c: int) -> int {
    c + run_from(f, key, c)
}

pub open spec fn or_default(w: Option<u32>, d: u32) -> int {
    match w {
        Some(v) => v as int,
        None => d as int,
    }
}

/// Whether one step holds with the cursor at `c`, and where it leaves the
/// cursor.
pub open spec fn step_eval(
    step: CommandKey,
    f: Seq<Key>,
    c: int,
    default_buffer: u32,
    default_hold: u32,
) -> (bool, int) {
    let n = f.len() as int;
    match step {
        CommandKey::Push { key, buffer_frame } => {
            let p = first_from(f, key, c);
            if p >= n {
                (false, n)
            } else {
                (
                    (p - c) + run_from(f, key, p + 1) < or_default(buffer_frame, default_buffer),
                    after_run(f, key, p + 1),
                )
            }
        },
        CommandKey::Release { key, buffer_frame } => {
            let p = first_from(f, key, c);
            if p >= n {
                (false, n)
            } else {
                (0 < p - c && p - c < or_default(buffer_frame, default_buffer) + 1, p + 1)
            }
        },
        CommandKey::Hold { key, buffer_frame, hold_frame } => {
            let p = first_from(f, key, c);
            if p >= n {
                (false, n)
            } else {
                (
                    p - c < or_default(buffer_frame, default_buffer) + 1 && run_from(f, key, p + 1)
                        >= or_default(hold_frame, default_hold) - 1,
                    after_run(f, key, p + 1),
                )
            }
        },
        CommandKey::On { key } => {
            if c >= n {
                (false, n)
            } else {
                (at(f, c).has(key), c + 1)
            }
        },
        CommandKey::Off { key } => {
            if c >= n {
                (true, n)
            } else {
                (!at(f, c).has(key), c + 1)
            }
        },
    }
}

/// Whether the steps all hold, the last one checked first with the cursor
/// at `c`, each earlier one from where the one after it left the cursor.
pub open spec fn judge_from(
    steps: Seq<CommandKey>,
    f: Seq<Key>,
    c: int,
    default_buffer: u32,
    default_hold: u32,
) -> bool
    decreases steps.len(),
{
    if steps.len() == 0 {
        true
    } else {
        let (ok, next) = step_eval(steps.last(), f, c, default_buffer, default_hold);
        ok && judge_from(steps.drop_last(), f, next, default_buffer, default_hold)
    }
}

/// Whether a frame history (oldest first) satisfies the steps.
pub open spec fn judge(
    steps: Seq<CommandKey>,
    f: Seq<Key>,
    default_buffer: u32,
    default_hold: u32,
) -> bool {
    judge_from(steps, f, 0, default_buffer, default_hold)
}

/// A parsed command: its steps in the order in which they are to happen.
#[derive(Debug)]
pub struct Command {
    keys: Vec<CommandKey>,
}

impl View for Command {
    type V = Seq<CommandKey>;

    closed spec fn view(&self) -> Seq<CommandKey> {
        self.keys@
    }
}

fn find_from(f: &[Key], key: Key, c: usize) -> (r: usize)
    requires
        c <= f@.len(),
    ensures
        r == first_from(f@, key, c as int),
        c <= r <= f@.len(),
{
    let n = f.len();
    let mut j = c;
    while j < n
        invariant
            n == f@.len(),
            c <= j <= n,
            first_from(f@, key, c as int) == first_from(f@, key, j as int),
        decreases n - j,
    {
        if f[n - 1 - j].contains(key) {
            return j;
        }
        j = j + 1;
    }
    j
}

fn run_len(f: &[Key], key: Key, c: usize) -> (r: usize)
    requires
        c <= f@.len(),
    ensures
        r == run_from(f@, key, c as int),
        c + r <= f@.len(),
{
    let n = f.len();
    let mut j = c;
    while j < n
        invariant
            n == f@.len(),
            c <= j <= n,
            run_from(f@, key, c as int) == (j - c) + run_from(f@, key, j as int),
        decreases n - j,
    {
        if !f[n - 1 - j].contains(key) {
            return j - c;
        }
        j = j + 1;
    }
    j - c
}

fn skip_run(f: &[Key], key: Key, c: usize) -> (r: (usize, usize))
    requires
        c <= f@.len(),
    ensures
        r.0 == run_from(f@, key, c as int),
        r.1 == after_run(f@, key, c as int),
        c + r.0 <= r.1 <= f@.len(),
{
    let n = f.len();
    let e = run_len(f, key, c);
    assert(c + e <= n);
    (e, c + e)
}

fn eval_step(step: &CommandKey, f: &[Key], c: usize, default_buffer: u32, default_hold: u32) -> (r:
    (bool, usize))
    requires
        c <= f@.len(),
    ensures
        r.0 == step_eval(*step, f@, c as int, default_buffer, default_hold).0,
        r.1 == step_eval(*step, f@, c as int, default_buffer, default_hold).1,
        c <= r.1 <= f@.len(),
{
    let n = f.len();
    match *step {
        CommandKey::Push { key, buffer_frame } => {
            let buffer = match buffer_frame {
                Some(v) => v,
                None => default_buffer,
            };
            let p = find_from(f, key, c);
            if p >= n {
                return (false, n);
            }
            let (e, next) = skip_run(f, key, p + 1);
            (((p - c + e) as u64) < (buffer as u64), next)
        },
        CommandKey::Release { key, buffer_frame } => {
            let buffer = match buffer_frame {
                Some(v) => v,
                None => default_buffer,
            };
            let p = find_from(f, key, c);
            if p >= n {
                return (false, n);
            }
            (0 < p - c && ((p - c) as u64) < (buffer as u64) + 1, p + 1)
        },
        CommandKey::Hold { key, buffer_frame, hold_frame } => {
            let buffer = match buffer_frame {
                Some(v) => v,
                None => default_buffer,
            };
            let hold = match hold_frame {
                Some(v) => v,
                None => default_hold,
            };
            let p = find_from(f, key, c);
            if p >= n {
                return (false, n);
            }
            let (e, next) = skip_run(f, key, p + 1);
            (((p - c) as u64) < (buffer as u64) + 1 && (e as u64) + 1 >= (hold as u64), next)
        },
        CommandKey::On { key } => {
            if c >= n {
                return (false, n);
            }
            (f[n - 1 - c].contains(key), c + 1)
        },
        CommandKey::Off { key } => {
            if c >= n {
                return (true, n);
            }
            (!f[n - 1 - c].contains(key), c + 1)
        },
    }
}

impl Command {
    /// Reads a command from its text.
    pub fn build(command: &str) -> (r: Result<Command, Error>)
        ensures
            r matches Ok(c) ==> parse_text(command@) == Ok::<Seq<CommandKey>, Fault>(c@),
            r matches Err(e) ==> parse_text(command@) == Err::<Seq<CommandKey>, Fault>(e@),
    {
        build_command(command)
    }

    pub fn new(keys: Vec<CommandKey>) -> (r: Command)
        ensures
            r@ == keys@,
    {
        Command { keys }
    }

    /// The steps, in declaration order.
    pub fn keys(&self) -> (r: &[CommandKey])
        ensures
            r@ == self@,
    {
        self.keys.as_slice()
    }

    /// Whether the frame history `inputs` (oldest first) satisfies this
    /// command. Steps are checked from the last one back, against frames
    /// from the most recent one back, with one cursor that never rewinds;
    /// `default_buffer` and `default_hold` stand in for the windows that a
    /// step leaves out.
    pub fn judge_inputs(&self, inputs: &[Key], default_buffer: u32, default_hold: u32) -> (r: bool)
        ensures
            r == judge(self@, inputs@, default_buffer, default_hold),
    {
        let mut i: usize = self.keys.len();
        let mut c: usize = 0;
        assert(self@.subrange(0, i as int) =~= self@);
        while i > 0
            invariant
                i <= self@.len(),
                c <= inputs@.len(),
                judge(self@, inputs@, default_buffer, default_hold) == judge_from(
                    self@.subrange(0, i as int),
                    inputs@,
                    c as int,
                    default_buffer,
                    default_hold,
                ),
            decreases i,
        {
            let ghost steps = self@.subrange(0, i as int);
            assert(steps.drop_last() =~= self@.subrange(0, i - 1));
            let (ok, next) = eval_step(&self.keys[i - 1], inputs, c, default_buffer, default_hold);
            if !ok {
                return false;
            }
            c = next;
            i = i - 1;
        }
        true
    }
}

} // verus!
