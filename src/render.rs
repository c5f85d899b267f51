use vstd::prelude::*;

use crate::command::Command;
use crate::step::CommandKey;

verus! {

/// The character of a flag where `bits` holds it, else nothing.
pub open spec fn flag_text(bits: u16, flag: u16, c: char) -> Seq<char> {
    if bits & flag == flag {
        seq![c]
    } else {
        Seq::empty()
    }
}

/// The canonical text of a key set: directions, diagonals, neutral, then
/// buttons, each flag once.
#[verifier::opaque]
pub open spec fn key_text(bits: u16) -> Seq<char> {
    flag_text(bits, 0x0010, '6') + flag_text(bits, 0x0020, '4') + flag_text(bits, 0x0040, '8')
        + flag_text(bits, 0x0080, '2') + flag_text(bits, 0x0200, '9') + flag_text(bits, 0x0100, '3')
        + flag_text(bits, 0x0800, '7') + flag_text(bits, 0x0400, '1') + flag_text(
        bits,
        0x1000,
        '\u{30fb}',
    ) + flag_text(bits, 0x0001, 'A') + flag_text(bits, 0x0002, 'B') + flag_text(bits, 0x0004, 'C')
        + flag_text(bits, 0x0008, 'D')
}

pub open spec fn digit_char(d: int) -> char {
    seq!['0', '1', '2', '3', '4', '5', '6', '7', '8', '9'][d]
}

/// The decimal digits of `v`, most significant first, without leading zeros.
pub open spec fn dec_text(v: nat) -> Seq<char>
    decreases v,
{
    if v < 10 {
        seq![digit_char(v as int)]
    } else {
        dec_text(v / 10) + seq![digit_char((v % 10) as int)]
    }
}

/// A window as written: its delimiters round its digits, or nothing where
/// the step leaves the window out.
pub open spec fn window_text_of(open: char, close: char, w: Option<u32>) -> Seq<char> {
    match w {
        Some(v) => seq![open] + dec_text(v as nat) + seq![close],
        None => Seq::empty(),
    }
}

/// The canonical text of one step.
pub open spec fn step_text(st: CommandKey) -> Seq<char> {
    match st {
        CommandKey::Push { key, buffer_frame } => seq!['p'] + key_text(key@) + window_text_of(
            '[',
            ']',
            buffer_frame,
        ),
        CommandKey::Release { key, buffer_frame } => seq!['r'] + key_text(key@)
            + window_text_of('[', ']', buffer_frame),
        CommandKey::Hold { key, buffer_frame, hold_frame } => seq!['h'] + key_text(key@)
            + window_text_of('[', ']', buffer_frame) + window_text_of('(', ')', hold_frame),
        CommandKey::On { key } => seq!['n'] + key_text(key@),
        CommandKey::Off { key } => seq!['f'] + key_text(key@),
    }
}

/// The canonical text of a command: its steps' texts joined by `>`.
pub open spec fn command_text(steps: Seq<CommandKey>) -> Seq<char>
    decreases steps.len(),
{
    if steps.len() == 0 {
        Seq::empty()
    } else if steps.len() == 1 {
        step_text(steps[0])
    } else {
        step_text(steps[0]) + seq!['>'] + command_text(steps.drop_first())
    }
}

fn append_flag(out: &mut String, bits: u16, flag: u16, lit: &str)
    requires
        lit@.len() == 1,
    ensures
        final(out)@ == old(out)@ + flag_text(bits, flag, lit@[0]),
{
    if bits & flag == flag {
        out.append(lit);
        assert(lit@ =~= seq![lit@[0]]);
    } else {
        assert(old(out)@ + Seq::<char>::empty() =~= old(out)@);
    }
}

fn key_to_text(bits: u16) -> (r: String)
    ensures
        r@ == key_text(bits),
{
    let mut out = String::new();
    proof {
        reveal(key_text);
        reveal_strlit("6");
    }
    append_flag(&mut out, bits, 0x0010, "6");
    assert(out@ =~= flag_text(bits, 0x0010, '6'));
    proof {
        reveal_strlit("4");
    }
    append_flag(&mut out, bits, 0x0020, "4");
    proof {
        reveal_strlit("8");
    }
    append_flag(&mut out, bits, 0x0040, "8");
    proof {
        reveal_strlit("2");
    }
    append_flag(&mut out, bits, 0x0080, "2");
    proof {
        reveal_strlit("9");
    }
    append_flag(&mut out, bits, 0x0200, "9");
    proof {
        reveal_strlit("3");
    }
    append_flag(&mut out, bits, 0x0100, "3");
    proof {
        reveal_strlit("7");
    }
    append_flag(&mut out, bits, 0x0800, "7");
    proof {
        reveal_strlit("1");
    }
    append_flag(&mut out, bits, 0x0400, "1");
    proof {
        reveal_strlit("\u{30fb}");
    }
    append_flag(&mut out, bits, 0x1000, "\u{30fb}");
    proof {
        reveal_strlit("A");
    }
    append_flag(&mut out, bits, 0x0001, "A");
    proof {
        reveal_strlit("B");
    }
    append_flag(&mut out, bits, 0x0002, "B");
    proof {
        reveal_strlit("C");
    }
    append_flag(&mut out, bits, 0x0004, "C");
    proof {
        reveal_strlit("D");
    }
    append_flag(&mut out, bits, 0x0008, "D");
    out
}

fn digit_lit(d: u32) -> (r: &'static str)
    requires
        d < 10,
    ensures
        r@ == seq![digit_char(d as int)],
{
    proof {
        reveal_strlit("0");
        reveal_strlit("1");
        reveal_strlit("2");
        reveal_strlit("3");
        reveal_strlit("4");
        reveal_strlit("5");
        reveal_strlit("6");
        reveal_strlit("7");
        reveal_strlit("8");
        reveal_strlit("9");
    }
    match d {
        0 => "0",
        1 => "1",
        2 => "2",
        3 => "3",
        4 => "4",
        5 => "5",
        6 => "6",
        7 => "7",
        8 => "8",
        _ => "9",
    }
}

fn append_dec(out: &mut String, v: u32)
    ensures
        final(out)@ == old(out)@ + dec_text(v as nat),
    decreases v,
{
    if v >= 10 {
        append_dec(out, v / 10);
    }
    out.append(digit_lit(v % 10));
    assert(out@ =~= old(out)@ + dec_text(v as nat));
}

fn window_to_text(open: &str, close: &str, w: Option<u32>) -> (r: String)
    requires
        open@.len() == 1,
        close@.len() == 1,
    ensures
        r@ == window_text_of(open@[0], close@[0], w),
{
    let mut out = String::new();
    match w {
        Some(v) => {
            out.append(open);
            assert(out@ =~= seq![open@[0]]);
            append_dec(&mut out, v);
            out.append(close);
            assert(close@ =~= seq![close@[0]]);
        },
        None => {},
    }
    out
}

fn step_to_text(st: &CommandKey) -> (r: String)
    ensures
        r@ == step_text(*st),
{
    let mut out = String::new();
    proof {
        reveal_strlit("p");
        reveal_strlit("r");
        reveal_strlit("h");
        reveal_strlit("n");
        reveal_strlit("f");
        reveal_strlit("[");
        reveal_strlit("]");
        reveal_strlit("(");
        reveal_strlit(")");
    }
    match *st {
        CommandKey::Push { key, buffer_frame } => {
            out.append("p");
            assert(out@ =~= seq!['p']);
            out.append(&key_to_text(key.bits()));
            out.append(&window_to_text("[", "]", buffer_frame));
        },
        CommandKey::Release { key, buffer_frame } => {
            out.append("r");
            assert(out@ =~= seq!['r']);
            out.append(&key_to_text(key.bits()));
            out.append(&window_to_text("[", "]", buffer_frame));
        },
        CommandKey::Hold { key, buffer_frame, hold_frame } => {
            out.append("h");
            assert(out@ =~= seq!['h']);
            out.append(&key_to_text(key.bits()));
            out.append(&window_to_text("[", "]", buffer_frame));
            out.append(&window_to_text("(", ")", hold_frame));
        },
        CommandKey::On { key } => {
            out.append("n");
            assert(out@ =~= seq!['n']);
            out.append(&key_to_text(key.bits()));
        },
        CommandKey::Off { key } => {
            out.append("f");
            assert(out@ =~= seq!['f']);
            out.append(&key_to_text(key.bits()));
        },
    }
    out
}

proof fn lemma_command_text_push(p: Seq<CommandKey>, x: CommandKey)
    requires
        p.len() > 0,
    ensures
        command_text(p.push(x)) == command_text(p) + seq!['>'] + step_text(x),
    decreases p.len(),
{
    assert(p.push(x).drop_first() =~= p.drop_first().push(x));
    assert(p.push(x)[0] == p[0]);
    if p.len() == 1 {
        assert(p.drop_first().push(x) =~= seq![x]);
        assert(seq![x][0] == x);
        assert(command_text(seq![x]) == step_text(x));
        assert(command_text(p.push(x)) =~= command_text(p) + seq!['>'] + step_text(x));
    } else {
        lemma_command_text_push(p.drop_first(), x);
        assert(command_text(p.push(x)) =~= command_text(p) + seq!['>'] + step_text(x));
    }
}

/// The canonical text of a command: `<opcode><keys>[<buffer>](<hold>)` for
/// each step, a window only where the step sets it, steps joined by `>`.
pub fn command_to_text(command: &Command) -> (r: String)
    ensures
        r@ == command_text(command@),
{
    let keys = command.keys();
    let mut out = String::new();
    let mut i: usize = 0;
    while i < keys.len()
        invariant
            0 <= i <= keys@.len(),
            keys@ == command@,
            out@ == command_text(keys@.subrange(0, i as int)),
        decreases keys@.len() - i,
    {
        let ghost before = keys@.subrange(0, i as int);
        assert(keys@.subrange(0, i + 1) =~= before.push(keys@[i as int]));
        let ghost prev = out@;
        if i > 0 {
            out.append(">");
            out.append(&step_to_text(&keys[i]));
            proof {
                reveal_strlit(">");
                lemma_command_text_push(before, keys@[i as int]);
                assert(out@ =~= prev + seq!['>'] + step_text(keys@[i as int]));
            }
        } else {
            out.append(&step_to_text(&keys[i]));
            assert(out@ =~= step_text(keys@[0]));
            assert(keys@.subrange(0, 1)[0] == keys@[0]);
        }
        i = i + 1;
    }
    assert(keys@.subrange(0, i as int) =~= keys@);
    out
}

} // verus!
