use vstd::prelude::*;

use crate::error::Fault;
use crate::grammar::finish_step;
use crate::grammar::hold_first;
use crate::grammar::is_opcode;
use crate::grammar::parse_from;
use crate::grammar::parse_step;
use crate::grammar::window_end;
use crate::key::Key;
use crate::render::command_text;
use crate::render::step_text;
use crate::render::window_text_of;
use crate::step::CommandKey;
use crate::grammar::cluster_key;
use crate::grammar::in_class;
use crate::grammar::is_delimiter;
use crate::grammar::is_space;
use crate::grammar::scan;
use crate::grammar::window_at;
use crate::grammar::window_text;
use crate::grammar::CharClass;
use crate::key::char_flag;
use crate::render::dec_text;
use crate::render::digit_char;
use crate::render::flag_text;
use crate::render::key_text;
use crate::step::all_digits;
use crate::step::dec_value;
use crate::step::digit_value;
use crate::step::is_digit;
use crate::step::window_of;

verus! {

/// `t` stands in `s` from position `i` on.
pub open spec fn text_at(s: Seq<char>, i: int, t: Seq<char>) -> bool {
    0 <= i && i + t.len() <= s.len() && s.subrange(i, i + t.len()) == t
}

pub proof fn lemma_text_at_index(s: Seq<char>, i: int, t: Seq<char>, x: int)
    requires
        text_at(s, i, t),
        0 <= x < t.len(),
    ensures
        s[i + x] == t[x],
{
    assert(s.subrange(i, i + t.len())[x] == s[i + x]);
}

pub proof fn lemma_text_at_split(s: Seq<char>, i: int, a: Seq<char>, b: Seq<char>)
    requires
        text_at(s, i, a + b),
    ensures
        text_at(s, i, a),
        text_at(s, i + a.len(), b),
{
    assert forall|x: int| 0 <= x < a.len() implies s.subrange(i, i + a.len())[x] == a[x] by {
        lemma_text_at_index(s, i, a + b, x);
    }
    assert(s.subrange(i, i + a.len()) =~= a);
    assert forall|x: int| 0 <= x < b.len() implies s.subrange(
        i + a.len(),
        i + a.len() + b.len(),
    )[x] == b[x] by {
        lemma_text_at_index(s, i, a + b, a.len() + x);
    }
    assert(s.subrange(i + a.len(), i + a.len() + b.len()) =~= b);
}

pub proof fn lemma_scan_exact(s: Seq<char>, i: int, len: int, class: CharClass)
    requires
        0 <= i,
        0 <= len,
        i + len <= s.len(),
        forall|x: int| i <= x < i + len ==> in_class(#[trigger] s[x], class),
        i + len == s.len() || !in_class(s[i + len], class),
    ensures
        scan(s, i, class) == i + len,
    decreases len,
{
    if len > 0 {
        lemma_scan_exact(s, i + 1, len - 1, class);
    }
}

/// A cluster that names a key set holds only characters that name flags.
pub proof fn lemma_cluster_key_chars(t: Seq<char>)
    requires
        cluster_key(t) is Some,
    ensures
        forall|x: int| 0 <= x < t.len() ==> char_flag(#[trigger] t[x]) is Some,
    decreases t.len(),
{
    if t.len() > 0 {
        lemma_cluster_key_chars(t.drop_last());
        assert forall|x: int| 0 <= x < t.len() implies char_flag(#[trigger] t[x]) is Some by {
            if x < t.len() - 1 {
                assert(t[x] == t.drop_last()[x]);
            }
        }
    }
}

proof fn lemma_cluster_key_step(a: Seq<char>, x: u16, bits: u16, flag: u16, c: char)
    requires
        cluster_key(a) == Some(x),
        char_flag(c) == Some(flag),
    ensures
        cluster_key(a + flag_text(bits, flag, c)) == Some(x | (bits & flag)),
{
    assert(forall|x: u16, b: u16, fl: u16|
        (fl == 1u16 || fl == 2u16 || fl == 4u16 || fl == 8u16 || fl == 16u16 || fl == 32u16 || fl
            == 64u16 || fl == 128u16 || fl == 256u16 || fl == 512u16 || fl == 1024u16 || fl
            == 2048u16) ==> ((b & fl == fl ==> x | fl == x | (b & fl)) && (b & fl != fl ==> x == x
            | (b & fl)))) by (bit_vector);
    if bits & flag == flag {
        let t = a + seq![c];
        assert(t.drop_last() =~= a);
        assert(t.last() == c);
    } else {
        assert(a + Seq::<char>::empty() =~= a);
    }
}

/// The canonical text of a key set without the neutral flag reads back as
/// that key set.
pub proof fn lemma_key_text(bits: u16)
    requires
        bits <= 0x0fff,
    ensures
        cluster_key(key_text(bits)) == Some(bits),
{
    reveal(key_text);
    let t0 = Seq::<char>::empty();
    let t1 = t0 + flag_text(bits, 0x0010, '6');
    lemma_cluster_key_step(t0, 0, bits, 0x0010, '6');
    assert(t1 =~= flag_text(bits, 0x0010, '6'));
    let x1 = 0u16 | (bits & 0x0010);
    let t2 = t1 + flag_text(bits, 0x0020, '4');
    lemma_cluster_key_step(t1, x1, bits, 0x0020, '4');
    let x2 = x1 | (bits & 0x0020);
    let t3 = t2 + flag_text(bits, 0x0040, '8');
    lemma_cluster_key_step(t2, x2, bits, 0x0040, '8');
    let x3 = x2 | (bits & 0x0040);
    let t4 = t3 + flag_text(bits, 0x0080, '2');
    lemma_cluster_key_step(t3, x3, bits, 0x0080, '2');
    let x4 = x3 | (bits & 0x0080);
    let t5 = t4 + flag_text(bits, 0x0200, '9');
    lemma_cluster_key_step(t4, x4, bits, 0x0200, '9');
    let x5 = x4 | (bits & 0x0200);
    let t6 = t5 + flag_text(bits, 0x0100, '3');
    lemma_cluster_key_step(t5, x5, bits, 0x0100, '3');
    let x6 = x5 | (bits & 0x0100);
    let t7 = t6 + flag_text(bits, 0x0800, '7');
    lemma_cluster_key_step(t6, x6, bits, 0x0800, '7');
    let x7 = x6 | (bits & 0x0800);
    let t8 = t7 + flag_text(bits, 0x0400, '1');
    lemma_cluster_key_step(t7, x7, bits, 0x0400, '1');
    let x8 = x7 | (bits & 0x0400);
    assert(bits <= 0x0fff ==> bits & 0x1000 != 0x1000) by (bit_vector);
    let t9 = t8 + flag_text(bits, 0x1000, '\u{30fb}');
    assert(t9 =~= t8);
    let t10 = t9 + flag_text(bits, 0x0001, 'A');
    lemma_cluster_key_step(t9, x8, bits, 0x0001, 'A');
    let x10 = x8 | (bits & 0x0001);
    let t11 = t10 + flag_text(bits, 0x0002, 'B');
    lemma_cluster_key_step(t10, x10, bits, 0x0002, 'B');
    let x11 = x10 | (bits & 0x0002);
    let t12 = t11 + flag_text(bits, 0x0004, 'C');
    lemma_cluster_key_step(t11, x11, bits, 0x0004, 'C');
    let x12 = x11 | (bits & 0x0004);
    let t13 = t12 + flag_text(bits, 0x0008, 'D');
    lemma_cluster_key_step(t12, x12, bits, 0x0008, 'D');
    let x13 = x12 | (bits & 0x0008);
    assert(t13 == key_text(bits));
    let b = bits;
    assert(b <= 0x0fff ==> (((((((((((((0u16 | (b & 0x0010)) | (b & 0x0020)) | (b & 0x0040)) | (b
        & 0x0080)) | (b & 0x0200)) | (b & 0x0100)) | (b & 0x0800)) | (b & 0x0400)) | (b & 0x0001))
        | (b & 0x0002)) | (b & 0x0004)) | (b & 0x0008)) == b)) by (bit_vector);
}

proof fn lemma_digit_char(d: int)
    requires
        0 <= d < 10,
    ensures
        is_digit(digit_char(d)),
        digit_value(digit_char(d)) == d,
{
    let t = seq!['0', '1', '2', '3', '4', '5', '6', '7', '8', '9'];
    assert(t[0] == '0' && t[1] == '1' && t[2] == '2' && t[3] == '3' && t[4] == '4');
    assert(t[5] == '5' && t[6] == '6' && t[7] == '7' && t[8] == '8' && t[9] == '9');
}

/// The decimal text of a number is a run of digits that reads back as it.
pub proof fn lemma_dec_text(v: nat)
    ensures
        dec_text(v).len() > 0,
        all_digits(dec_text(v)),
        dec_value(dec_text(v)) == v,
    decreases v,
{
    let t = dec_text(v);
    if v < 10 {
        lemma_digit_char(v as int);
        assert(t.drop_last() =~= Seq::<char>::empty());
        assert(t.last() == digit_char(v as int));
        assert(dec_value(Seq::<char>::empty()) == 0);
        assert(dec_value(t) == 0 * 10 + digit_value(digit_char(v as int)));
    } else {
        lemma_dec_text(v / 10);
        lemma_digit_char((v % 10) as int);
        assert(t.drop_last() =~= dec_text(v / 10));
        assert(t.last() == digit_char((v % 10) as int));
        assert forall|x: int| 0 <= x < t.len() implies is_digit(#[trigger] t[x]) by {
            if x < t.len() - 1 {
                assert(t[x] == dec_text(v / 10)[x]);
            }
        }
        assert(v == (v / 10) * 10 + v % 10);
        assert(dec_value(t) == dec_value(dec_text(v / 10)) * 10 + digit_value(
            digit_char((v % 10) as int),
        ));
    }
}

/// A window written out in full at `e` reads back as its value.
pub proof fn lemma_window_present(s: Seq<char>, e: int, open: char, close: char, v: u32)
    requires
        text_at(s, e, seq![open] + dec_text(v as nat) + seq![close]),
        !is_space(open),
        is_delimiter(close),
    ensures
        window_at(s, e, open, close) == Ok::<Option<(int, int, int)>, Fault>(
            Some((e + 1, e + 1 + dec_text(v as nat).len(), e + 2 + dec_text(v as nat).len())),
        ),
        window_of(
            window_text(
                s,
                Some((e + 1, e + 1 + dec_text(v as nat).len(), e + 2 + dec_text(v as nat).len())),
            ),
        ) == Ok::<Option<u32>, Fault>(Some(v)),
{
    let d = dec_text(v as nat);
    let n = d.len() as int;
    lemma_dec_text(v as nat);
    lemma_text_at_split(s, e, seq![open] + d, seq![close]);
    lemma_text_at_split(s, e, seq![open], d);
    lemma_text_at_index(s, e, seq![open], 0);
    lemma_text_at_index(s, e + 1 + n, seq![close], 0);
    lemma_text_at_index(s, e + 1, d, 0);
    lemma_scan_exact(s, e, 0, CharClass::Space);
    lemma_scan_exact(s, e + 1, 0, CharClass::Space);
    assert forall|x: int| e + 1 <= x < e + 1 + n implies in_class(#[trigger] s[x], CharClass::Word) by {
        lemma_text_at_index(s, e + 1, d, x - (e + 1));
    }
    lemma_scan_exact(s, e + 1, n, CharClass::Word);
    lemma_scan_exact(s, e + 1 + n, 0, CharClass::Space);
    assert(s.subrange(e + 1, e + 1 + n) == d);
}

/// Where no window opens at `e`, none is read.
pub proof fn lemma_window_absent(s: Seq<char>, e: int, open: char, close: char)
    requires
        0 <= e <= s.len(),
        e == s.len() || (!is_space(s[e]) && s[e] != open),
    ensures
        window_at(s, e, open, close) == Ok::<Option<(int, int, int)>, Fault>(None),
{
    lemma_scan_exact(s, e, 0, CharClass::Space);
}

/// Where a window is written out at `e`, or is absent and no window of the
/// same kind opens there, it reads back as written.
proof fn lemma_window_reads(s: Seq<char>, e: int, open: char, close: char, w: Option<u32>)
    requires
        text_at(s, e, window_text_of(open, close, w)),
        !is_space(open),
        is_delimiter(close),
        w is None ==> (e == s.len() || (!is_space(s[e]) && s[e] != open)),
    ensures
        window_at(s, e, open, close) matches Ok(win) && window_end(win, e) == e
            + window_text_of(open, close, w).len() && window_of(window_text(s, win)) == Ok::<
            Option<u32>,
            Fault,
        >(w),
{
    match w {
        Some(v) => {
            lemma_window_present(s, e, open, close, v);
        },
        None => {
            lemma_window_absent(s, e, open, close);
        },
    }
}

/// A key set that a button cluster can write: at least one flag, and none
/// but the twelve that cluster characters name.
pub open spec fn writable_key(k: Key) -> bool {
    0 < k@ && k@ <= 0x0fff
}

/// A step written at `i`, followed by the end of the text or by `>`.
pub open spec fn step_at(s: Seq<char>, i: int, st: CommandKey) -> bool {
    text_at(s, i, step_text(st)) && (i + step_text(st).len() == s.len() || s[i
        + step_text(st).len()] == '>')
}

proof fn lemma_step_head(s: Seq<char>, i: int, op: char, bits: u16)
    requires
        text_at(s, i, seq![op] + key_text(bits)),
        is_opcode(op),
        0 < bits <= 0x0fff,
        i + 1 + key_text(bits).len() == s.len() || !in_class(
            s[i + 1 + key_text(bits).len()],
            CharClass::Word,
        ),
    ensures
        parse_step(s, i) == finish_step(s, op, Key::from_view(bits), i + 1 + key_text(bits).len()),
{
    let kt = key_text(bits);
    let k = kt.len() as int;
    lemma_key_text(bits);
    lemma_cluster_key_chars(kt);
    if k == 0 {
        assert(kt =~= Seq::<char>::empty());
        assert(cluster_key(kt) == Some(0u16));
    }
    lemma_text_at_split(s, i, seq![op], kt);
    lemma_text_at_index(s, i, seq![op], 0);
    lemma_text_at_index(s, i + 1, kt, 0);
    lemma_scan_exact(s, i + 1, 0, CharClass::Space);
    assert forall|x: int| i + 1 <= x < i + 1 + k implies in_class(
        #[trigger] s[x],
        CharClass::Word,
    ) by {
        lemma_text_at_index(s, i + 1, kt, x - (i + 1));
        assert(char_flag(kt[x - (i + 1)]) is Some);
    }
    lemma_scan_exact(s, i + 1, k, CharClass::Word);
    assert(s.subrange(i + 1, i + 1 + k) == kt);
}

proof fn lemma_bracket_step_round_trip(
    s: Seq<char>,
    i: int,
    op: char,
    bits: u16,
    buffer_frame: Option<u32>,
)
    requires
        op == 'p' || op == 'r',
        0 < bits <= 0x0fff,
        text_at(s, i, seq![op] + key_text(bits) + window_text_of('[', ']', buffer_frame)),
        ({
            let end = i + 1 + key_text(bits).len() + window_text_of('[', ']', buffer_frame).len();
            end == s.len() || s[end] == '>'
        }),
    ensures
        parse_step(s, i) == Ok::<(CommandKey, int), Fault>(
            (
                if op == 'p' {
                    CommandKey::Push { key: Key::from_view(bits), buffer_frame }
                } else {
                    CommandKey::Release { key: Key::from_view(bits), buffer_frame }
                },
                i + 1 + key_text(bits).len() + window_text_of('[', ']', buffer_frame).len(),
            ),
        ),
{
    let head = seq![op] + key_text(bits);
    let wb = window_text_of('[', ']', buffer_frame);
    lemma_text_at_split(s, i, head, wb);
    let e = i + head.len();
    if buffer_frame is Some {
        lemma_text_at_index(s, e, wb, 0);
    }
    lemma_step_head(s, i, op, bits);
    lemma_window_reads(s, e, '[', ']', buffer_frame);
}

/// A step written out in full reads back as itself, and the read ends
/// where its text does.
pub proof fn lemma_step_round_trip(s: Seq<char>, i: int, st: CommandKey)
    requires
        step_at(s, i, st),
        writable_key(st.key()),
    ensures
        parse_step(s, i) == Ok::<(CommandKey, int), Fault>((st, i + step_text(st).len())),
{
    let end = i + step_text(st).len();
    Key::lemma_view_ext(st.key());
    match st {
        CommandKey::Push { key, buffer_frame } => {
            lemma_bracket_step_round_trip(s, i, 'p', key@, buffer_frame);
        },
        CommandKey::Release { key, buffer_frame } => {
            lemma_bracket_step_round_trip(s, i, 'r', key@, buffer_frame);
        },
        CommandKey::Hold { key, buffer_frame, hold_frame } => {
            let head = seq!['h'] + key_text(key@);
            let wb = window_text_of('[', ']', buffer_frame);
            let wh = window_text_of('(', ')', hold_frame);
            lemma_text_at_split(s, i, head + wb, wh);
            lemma_text_at_split(s, i, head, wb);
            let e = i + head.len();
            let e1 = e + wb.len();
            if buffer_frame is Some {
                lemma_text_at_index(s, e, wb, 0);
            }
            if hold_frame is Some {
                lemma_text_at_index(s, e1, wh, 0);
            }
            lemma_step_head(s, i, 'h', key@);
            lemma_scan_exact(s, e, 0, CharClass::Space);
            if buffer_frame is None && hold_frame is Some {
                assert(e1 == e);
                assert(hold_first(s, e));
                lemma_window_reads(s, e, '(', ')', hold_frame);
                assert(text_at(s, end, window_text_of('[', ']', None))) by {
                    assert(s.subrange(end, end) =~= Seq::<char>::empty());
                }
                lemma_window_reads(s, end, '[', ']', None);
            } else {
                assert(!hold_first(s, e));
                lemma_window_reads(s, e, '[', ']', buffer_frame);
                lemma_window_reads(s, e1, '(', ')', hold_frame);
            }
        },
        CommandKey::On { key } => {
            assert(step_text(st) == seq!['n'] + key_text(key@));
            lemma_step_head(s, i, 'n', key@);
        },
        CommandKey::Off { key } => {
            assert(step_text(st) == seq!['f'] + key_text(key@));
            lemma_step_head(s, i, 'f', key@);
        },
    }
}

/// A command that text can write: at least one step, each with a
/// writable key set.
pub open spec fn writable_command(steps: Seq<CommandKey>) -> bool {
    steps.len() > 0 && forall|i: int| 0 <= i < steps.len() ==> writable_key(#[trigger] steps[i].key())
}

proof fn lemma_command_text_head(steps: Seq<CommandKey>)
    requires
        steps.len() > 0,
    ensures
        command_text(steps).len() > 0,
        is_opcode(command_text(steps)[0]),
{
    let t = step_text(steps[0]);
    assert(t.len() > 0 && is_opcode(t[0]));
    if steps.len() > 1 {
        assert((t + seq!['>'] + command_text(steps.drop_first()))[0] == t[0]);
    }
}

pub proof fn lemma_parse_from_text(s: Seq<char>, i: int, steps: Seq<CommandKey>)
    requires
        writable_command(steps),
        text_at(s, i, command_text(steps)),
        i + command_text(steps).len() == s.len(),
    ensures
        parse_from(s, i) == Ok::<Seq<CommandKey>, Fault>(steps),
    decreases steps.len(),
{
    let st = steps[0];
    let t = step_text(st);
    let len = t.len() as int;
    assert(writable_key(steps[0].key()));
    if steps.len() == 1 {
        assert(command_text(steps) == t);
        lemma_step_round_trip(s, i, st);
        lemma_scan_exact(s, i + len, 0, CharClass::Space);
        assert(seq![st] =~= steps);
    } else {
        let rest = steps.drop_first();
        assert(command_text(steps) == t + seq!['>'] + command_text(rest));
        lemma_text_at_split(s, i, t + seq!['>'], command_text(rest));
        lemma_text_at_split(s, i, t, seq!['>']);
        lemma_text_at_index(s, i + len, seq!['>'], 0);
        lemma_step_round_trip(s, i, st);
        lemma_scan_exact(s, i + len, 0, CharClass::Space);
        lemma_command_text_head(rest);
        lemma_text_at_index(s, i + len + 1, command_text(rest), 0);
        lemma_scan_exact(s, i + len + 1, 0, CharClass::Space);
        assert forall|x: int| 0 <= x < rest.len() implies writable_key(#[trigger] rest[x].key()) by {
            assert(rest[x] == steps[x + 1]);
        }
        lemma_parse_from_text(s, i + len + 1, rest);
        assert(seq![st] + rest =~= steps);
    }
}

} // verus!
