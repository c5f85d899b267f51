use vstd::prelude::*;

use crate::command::Command;
use crate::error::Error;
use crate::error::Fault;
use crate::key::char_flag;
use crate::key::key_of_char;
use crate::key::Key;
use crate::step::to_hold_command_key;
use crate::step::to_push_command_key;
use crate::step::to_release_command_key;
use crate::step::window_of;
use crate::step::CommandKey;

verus! {

pub open spec fn is_space(c: char) -> bool {
    c == ' ' || c == '\t' || c == '\n' || c == '\r'
}

/// Characters that end a button cluster besides whitespace.
pub open spec fn is_delimiter(c: char) -> bool {
    c == '[' || c == ']' || c == '(' || c == ')' || c == '>'
}

/// What a scan runs over: whitespace, or a word, which is a run of
/// characters that are neither whitespace nor delimiters (a button cluster,
/// or the number of a window).
#[derive(Clone, Copy)]
pub enum CharClass {
    Space,
    Word,
}

pub open spec fn in_class(c: char, class: CharClass) -> bool {
    match class {
        CharClass::Space => is_space(c),
        CharClass::Word => !is_space(c) && !is_delimiter(c),
    }
}

/// The end of the run of characters of `class` that starts at `i`.
pub open spec fn scan(s: Seq<char>, i: int, class: CharClass) -> int
    decreases s.len() - i,
{
    if 0 <= i < s.len() && in_class(s[i], class) {
        scan(s, i + 1, class)
    } else {
        i
    }
}

pub open spec fn rest(s: Seq<char>, i: int) -> Seq<char> {
    s.subrange(i, s.len() as int)
}

/// The key set that a button cluster names: the union of its characters'
/// flags, or `None` where one of them names nothing.
pub open spec fn cluster_key(t: Seq<char>) -> Option<u16>
    decreases t.len(),
{
    if t.len() == 0 {
        Some(0u16)
    } else {
        match (cluster_key(t.drop_last()), char_flag(t.last())) {
            (Some(a), Some(b)) => Some(a | b),
            _ => None,
        }
    }
}

/// An optional window `open word close` after whitespace from `i`, with
/// whitespace allowed inside the delimiters: the span of its word, which is
/// to hold the digits of a frame count, and the position after `close`.
pub open spec fn window_at(s: Seq<char>, i: int, open: char, close: char) -> Result<
    Option<(int, int, int)>,
    Fault,
> {
    let j = scan(s, i, CharClass::Space);
    if j < s.len() && s[j] == open {
        let k = scan(s, j + 1, CharClass::Space);
        let d = scan(s, k, CharClass::Word);
        let m = scan(s, d, CharClass::Space);
        if d == k {
            Err(Fault::GrammarMismatch(rest(s, k)))
        } else if m < s.len() && s[m] == close {
            Ok(Some((k, d, m + 1)))
        } else {
            Err(Fault::GrammarMismatch(rest(s, m)))
        }
    } else {
        Ok(None)
    }
}

pub open spec fn window_text(s: Seq<char>, w: Option<(int, int, int)>) -> Option<Seq<char>> {
    match w {
        Some((k, d, _)) => Some(s.subrange(k, d)),
        None => None,
    }
}

pub open spec fn window_end(w: Option<(int, int, int)>, i: int) -> int {
    match w {
        Some((_, _, e)) => e,
        None => i,
    }
}

pub open spec fn is_opcode(c: char) -> bool {
    c == 'p' || c == 'r' || c == 'h' || c == 'n' || c == 'f'
}

/// A hold step reads its hold window first where the text after the
/// cluster opens one, else its buffer window first.
pub open spec fn hold_first(s: Seq<char>, e: int) -> bool {
    let j = scan(s, e, CharClass::Space);
    j < s.len() && s[j] == '('
}

/// The windows of a step of kind `op` whose cluster, naming `key`, ends at
/// `e`: the step and the position after it.
pub open spec fn finish_step(s: Seq<char>, op: char, key: Key, e: int) -> Result<
    (CommandKey, int),
    Fault,
> {
    if op == 'n' {
        Ok((CommandKey::On { key }, e))
    } else if op == 'f' {
        Ok((CommandKey::Off { key }, e))
    } else if op == 'h' {
        let first = hold_first(s, e);
        let (o1, c1, o2, c2) = if first {
            ('(', ')', '[', ']')
        } else {
            ('[', ']', '(', ')')
        };
        match window_at(s, e, o1, c1) {
            Err(f) => Err(f),
            Ok(w1) => match window_at(s, window_end(w1, e), o2, c2) {
                Err(f) => Err(f),
                Ok(w2) => {
                    let (wh, wb) = if first {
                        (w1, w2)
                    } else {
                        (w2, w1)
                    };
                    match window_of(window_text(s, wh)) {
                        Err(f) => Err(f),
                        Ok(h) => match window_of(window_text(s, wb)) {
                            Err(f) => Err(f),
                            Ok(b) => Ok(
                                (
                                    CommandKey::Hold { key, buffer_frame: b, hold_frame: h },
                                    window_end(w2, window_end(w1, e)),
                                ),
                            ),
                        },
                    }
                },
            },
        }
    } else {
        match window_at(s, e, '[', ']') {
            Err(f) => Err(f),
            Ok(w) => match window_of(window_text(s, w)) {
                Err(f) => Err(f),
                Ok(b) => Ok(
                    (
                        if op == 'p' {
                            CommandKey::Push { key, buffer_frame: b }
                        } else {
                            CommandKey::Release { key, buffer_frame: b }
                        },
                        window_end(w, e),
                    ),
                ),
            },
        }
    }
}

/// The step that starts at `i`: an opcode, whitespace, a button cluster
/// and the step's windows; with the position after it.
pub open spec fn parse_step(s: Seq<char>, i: int) -> Result<(CommandKey, int), Fault> {
    if i < 0 || i >= s.len() || !is_opcode(s[i]) {
        Err(Fault::GrammarMismatch(rest(s, i)))
    } else {
        let j = scan(s, i + 1, CharClass::Space);
        let e = scan(s, j, CharClass::Word);
        if e == j {
            Err(Fault::GrammarMismatch(rest(s, j)))
        } else {
            match cluster_key(s.subrange(j, e)) {
                None => Err(Fault::KeyName),
                Some(bits) => finish_step(s, s[i], Key::from_view(bits), e),
            }
        }
    }
}

/// What follows a `>` at `k`: where no step can be read there, the text
/// from the `>` on is left over.
pub open spec fn after_separator(s: Seq<char>, k: int, r: Result<Seq<CommandKey>, Fault>) -> Result<
    Seq<CommandKey>,
    Fault,
> {
    match r {
        Err(Fault::GrammarMismatch(_)) => Err(Fault::TrailingInput(rest(s, k))),
        _ => r,
    }
}

/// The steps from `i` to the end of the text: steps joined by `>`, with
/// whitespace around each `>` and at the end.
pub open spec fn parse_from(s: Seq<char>, i: int) -> Result<Seq<CommandKey>, Fault>
    decreases s.len() - i,
    via parse_from_decreases
{
    match parse_step(s, i) {
        Err(f) => Err(f),
        Ok((st, e)) => {
            let k = scan(s, e, CharClass::Space);
            if k >= s.len() {
                Ok(seq![st])
            } else if s[k] == '>' {
                match after_separator(s, k, parse_from(s, scan(s, k + 1, CharClass::Space))) {
                    Err(f) => Err(f),
                    Ok(more) => Ok(seq![st] + more),
                }
            } else {
                Err(Fault::TrailingInput(rest(s, k)))
            }
        },
    }
}

/// What a command text reads as: its steps, or why it is rejected.
pub open spec fn parse_text(s: Seq<char>) -> Result<Seq<CommandKey>, Fault> {
    parse_from(s, scan(s, 0, CharClass::Space))
}

pub proof fn lemma_scan_bounds(s: Seq<char>, i: int, class: CharClass)
    ensures
        i <= scan(s, i, class),
        0 <= i <= s.len() ==> scan(s, i, class) <= s.len(),
        forall|x: int| i <= x < scan(s, i, class) ==> in_class(#[trigger] s[x], class),
        0 <= scan(s, i, class) < s.len() ==> !in_class(s[scan(s, i, class)], class),
        i < 0 ==> scan(s, i, class) == i,
    decreases s.len() - i,
{
    if 0 <= i < s.len() && in_class(s[i], class) {
        lemma_scan_bounds(s, i + 1, class);
    }
}

proof fn lemma_window_end(s: Seq<char>, i: int, open: char, close: char)
    ensures
        window_at(s, i, open, close) matches Ok(w) ==> window_end(w, i) >= i,
{
    let j = scan(s, i, CharClass::Space);
    lemma_scan_bounds(s, i, CharClass::Space);
    let k = scan(s, j + 1, CharClass::Space);
    lemma_scan_bounds(s, j + 1, CharClass::Space);
    let d = scan(s, k, CharClass::Word);
    lemma_scan_bounds(s, k, CharClass::Word);
    lemma_scan_bounds(s, d, CharClass::Space);
}

proof fn lemma_step_advances(s: Seq<char>, i: int)
    ensures
        parse_step(s, i) matches Ok((_, e)) ==> e > i,
{
    if !(i < 0 || i >= s.len() || !is_opcode(s[i])) {
        let j = scan(s, i + 1, CharClass::Space);
        lemma_scan_bounds(s, i + 1, CharClass::Space);
        let e = scan(s, j, CharClass::Word);
        lemma_scan_bounds(s, j, CharClass::Word);
        lemma_window_end(s, e, '(', ')');
        lemma_window_end(s, e, '[', ']');
        match window_at(s, e, '(', ')') {
            Ok(w) => {
                lemma_window_end(s, window_end(w, e), '[', ']');
            },
            _ => {},
        }
        match window_at(s, e, '[', ']') {
            Ok(w) => {
                lemma_window_end(s, window_end(w, e), '(', ')');
            },
            _ => {},
        }
    }
}

#[via_fn]
proof fn parse_from_decreases(s: Seq<char>, i: int) {
    lemma_step_advances(s, i);
    match parse_step(s, i) {
        Ok((_, e)) => {
            let k = scan(s, e, CharClass::Space);
            lemma_scan_bounds(s, e, CharClass::Space);
            lemma_scan_bounds(s, k + 1, CharClass::Space);
        },
        _ => {},
    }
}

fn in_class_exec(c: char, class: CharClass) -> (r: bool)
    ensures
        r == in_class(c, class),
{
    let space = c == ' ' || c == '\t' || c == '\n' || c == '\r';
    match class {
        CharClass::Space => space,
        CharClass::Word => !space && !(c == '[' || c == ']' || c == '(' || c == ')' || c == '>'),
    }
}

fn scan_exec(input: &str, n: usize, i: usize, class: CharClass) -> (r: usize)
    requires
        n == input@.len(),
        i <= n,
    ensures
        r == scan(input@, i as int, class),
        i <= r <= n,
{
    let mut j = i;
    while j < n
        invariant
            n == input@.len(),
            i <= j <= n,
            scan(input@, i as int, class) == scan(input@, j as int, class),
        decreases n - j,
    {
        if !in_class_exec(input.get_char(j), class) {
            return j;
        }
        j = j + 1;
    }
    j
}

fn cluster_key_exec(input: &str, j: usize, e: usize) -> (r: Option<Key>)
    requires
        j <= e <= input@.len(),
    ensures
        r matches Some(k) ==> cluster_key(input@.subrange(j as int, e as int)) == Some(k@),
        r is None ==> cluster_key(input@.subrange(j as int, e as int)) is None,
{
    let mut acc: Option<Key> = Some(Key::empty());
    let mut x = j;
    assert(input@.subrange(j as int, j as int).len() == 0);
    while x < e
        invariant
            j <= x <= e <= input@.len(),
            acc matches Some(k) ==> cluster_key(input@.subrange(j as int, x as int)) == Some(
                k@,
            ),
            acc is None ==> cluster_key(input@.subrange(j as int, x as int)) is None,
        decreases e - x,
    {
        let ghost pre = input@.subrange(j as int, x as int);
        assert(input@.subrange(j as int, x + 1).drop_last() =~= pre);
        assert(input@.subrange(j as int, x + 1).last() == input@[x as int]);
        let flag = key_of_char(input.get_char(x));
        acc = match (acc, flag) {
            (Some(a), Some(b)) => Some(a.union(b)),
            _ => None,
        };
        x = x + 1;
    }
    acc
}

fn grammar_error(input: &str, n: usize, k: usize) -> (e: Error)
    requires
        n == input@.len(),
        k <= n,
    ensures
        e@ == Fault::GrammarMismatch(rest(input@, k as int)),
{
    Error::GrammarMismatch { rest: input.substring_char(k, n).to_owned() }
}

pub open spec fn span_view(w: Option<(usize, usize, usize)>) -> Option<(int, int, int)> {
    match w {
        Some((k, d, m)) => Some((k as int, d as int, m as int)),
        None => None,
    }
}

fn window_exec(input: &str, n: usize, i: usize, open: char, close: char) -> (r: Result<
    Option<(usize, usize, usize)>,
    Error,
>)
    requires
        n == input@.len(),
        i <= n,
    ensures
        r matches Ok(w) ==> window_at(input@, i as int, open, close) == Ok::<
            Option<(int, int, int)>,
            Fault,
        >(span_view(w)),
        r matches Ok(w) ==> i <= window_end(span_view(w), i as int) <= n,
        r matches Ok(w) ==> (w matches Some((k, d, m)) ==> k <= d <= m <= n),
        r matches Err(e) ==> window_at(input@, i as int, open, close) == Err::<
            Option<(int, int, int)>,
            Fault,
        >(e@),
{
    let j = scan_exec(input, n, i, CharClass::Space);
    if j < n && input.get_char(j) == open {
        let k = scan_exec(input, n, j + 1, CharClass::Space);
        let d = scan_exec(input, n, k, CharClass::Word);
        let m = scan_exec(input, n, d, CharClass::Space);
        if d == k {
            Err(grammar_error(input, n, k))
        } else if m < n && input.get_char(m) == close {
            Ok(Some((k, d, m + 1)))
        } else {
            Err(grammar_error(input, n, m))
        }
    } else {
        Ok(None)
    }
}

fn window_text_exec<'a>(input: &'a str, w: Option<(usize, usize, usize)>) -> (r: Option<&'a str>)
    requires
        w matches Some((k, d, m)) ==> k <= d <= input@.len(),
    ensures
        crate::step::text_of(r) == window_text(input@, span_view(w)),
{
    match w {
        Some((k, d, _)) => Some(input.substring_char(k, d)),
        None => None,
    }
}

fn window_end_exec(w: Option<(usize, usize, usize)>, i: usize) -> (r: usize)
    ensures
        r == window_end(span_view(w), i as int),
{
    match w {
        Some((_, _, e)) => e,
        None => i,
    }
}

fn finish_step_exec(input: &str, n: usize, op: char, key: Key, e: usize) -> (r: Result<
    (CommandKey, usize),
    Error,
>)
    requires
        n == input@.len(),
        e <= n,
    ensures
        r matches Ok((st, x)) ==> finish_step(input@, op, key, e as int) == Ok::<
            (CommandKey, int),
            Fault,
        >((st, x as int)) && x <= n,
        r matches Err(f) ==> finish_step(input@, op, key, e as int) == Err::<
            (CommandKey, int),
            Fault,
        >(f@),
{
    if op == 'n' {
        Ok((CommandKey::On { key }, e))
    } else if op == 'f' {
        Ok((CommandKey::Off { key }, e))
    } else if op == 'h' {
        let j = scan_exec(input, n, e, CharClass::Space);
        let first = j < n && input.get_char(j) == '(';
        let (o1, c1, o2, c2) = if first {
            ('(', ')', '[', ']')
        } else {
            ('[', ']', '(', ')')
        };
        let w1 = window_exec(input, n, e, o1, c1)?;
        let e1 = window_end_exec(w1, e);
        let w2 = window_exec(input, n, e1, o2, c2)?;
        let e2 = window_end_exec(w2, e1);
        let (wh, wb) = if first {
            (w1, w2)
        } else {
            (w2, w1)
        };
        let st = to_hold_command_key(key, window_text_exec(input, wh), window_text_exec(input, wb))?;
        Ok((st, e2))
    } else {
        let w = window_exec(input, n, e, '[', ']')?;
        let text = window_text_exec(input, w);
        let st = if op == 'p' {
            to_push_command_key(key, text)?
        } else {
            to_release_command_key(key, text)?
        };
        Ok((st, window_end_exec(w, e)))
    }
}

fn parse_step_exec(input: &str, n: usize, i: usize) -> (r: Result<(CommandKey, usize), Error>)
    requires
        n == input@.len(),
        i <= n,
    ensures
        r matches Ok((st, x)) ==> parse_step(input@, i as int) == Ok::<(CommandKey, int), Fault>(
            (st, x as int),
        ) && i < x <= n,
        r matches Err(f) ==> parse_step(input@, i as int) == Err::<(CommandKey, int), Fault>(f@),
{
    proof {
        lemma_step_advances(input@, i as int);
    }
    if i >= n {
        return Err(grammar_error(input, n, i));
    }
    let op = input.get_char(i);
    if !(op == 'p' || op == 'r' || op == 'h' || op == 'n' || op == 'f') {
        return Err(grammar_error(input, n, i));
    }
    let j = scan_exec(input, n, i + 1, CharClass::Space);
    let e = scan_exec(input, n, j, CharClass::Word);
    if e == j {
        return Err(grammar_error(input, n, j));
    }
    match cluster_key_exec(input, j, e) {
        None => Err(Error::UnknownKeyName),
        Some(key) => {
            proof {
                Key::lemma_view_ext(key);
            }
            finish_step_exec(input, n, op, key, e)
        },
    }
}

fn trailing_error(input: &str, n: usize, k: usize) -> (e: Error)
    requires
        n == input@.len(),
        k <= n,
    ensures
        e@ == Fault::TrailingInput(rest(input@, k as int)),
{
    Error::TrailingInput { rest: input.substring_char(k, n).to_owned() }
}

/// What the text from `i` reads as, where the steps `done` came before
/// it, and a `>` at `sep`, if any, led to it.
spec fn read_so_far(
    s: Seq<char>,
    done: Seq<CommandKey>,
    sep: Option<usize>,
    i: int,
) -> Result<Seq<CommandKey>, Fault> {
    let r = match sep {
        Some(k) => after_separator(s, k as int, parse_from(s, i)),
        None => parse_from(s, i),
    };
    match r {
        Ok(more) => Ok(done + more),
        Err(f) => Err(f),
    }
}

/// Reads a command text: steps joined by `>`, each an opcode (`p` push,
/// `r` release, `h` hold, `n` on, `f` off), a button cluster and the
/// step's optional `[buffer]` and, for a hold, `(hold)` windows.
pub fn parse_command(input: &str) -> (r: Result<Command, Error>)
    ensures
        r matches Ok(c) ==> parse_text(input@) == Ok::<Seq<CommandKey>, Fault>(c@),
        r matches Err(e) ==> parse_text(input@) == Err::<Seq<CommandKey>, Fault>(e@),
{
    let n = input.unicode_len();
    let mut i = scan_exec(input, n, 0, CharClass::Space);
    let mut keys: Vec<CommandKey> = Vec::new();
    let mut sep: Option<usize> = None;
    assert(keys@ + Seq::<CommandKey>::empty() =~= Seq::<CommandKey>::empty());
    proof {
        match parse_from(input@, i as int) {
            Ok(more) => {
                assert(keys@ + more =~= more);
            },
            Err(_) => {},
        }
    }
    loop
        invariant
            n == input@.len(),
            i <= n,
            sep matches Some(k) ==> k <= n,
            parse_text(input@) == read_so_far(input@, keys@, sep, i as int),
        decreases n - i,
    {
        let (st, e) = match parse_step_exec(input, n, i) {
            Ok(step) => step,
            Err(err) => {
                if let Some(k) = sep {
                    if let Error::GrammarMismatch { .. } = err {
                        return Err(trailing_error(input, n, k));
                    }
                }
                return Err(err);
            },
        };
        let ghost old_keys = keys@;
        keys.push(st);
        let k = scan_exec(input, n, e, CharClass::Space);
        if k >= n {
            assert(keys@ =~= old_keys + seq![st]);
            return Ok(Command::new(keys));
        }
        if input.get_char(k) != '>' {
            return Err(trailing_error(input, n, k));
        }
        i = scan_exec(input, n, k + 1, CharClass::Space);
        sep = Some(k);
        proof {
            match parse_from(input@, i as int) {
                Ok(more) => {
                    assert(old_keys + (seq![st] + more) =~= keys@ + more);
                },
                Err(_) => {},
            }
        }
    }
}

/// Reads a command text, as [`parse_command`] does.
pub fn build_command(input: &str) -> (r: Result<Command, Error>)
    ensures
        r matches Ok(c) ==> parse_text(input@) == Ok::<Seq<CommandKey>, Fault>(c@),
        r matches Err(e) ==> parse_text(input@) == Err::<Seq<CommandKey>, Fault>(e@),
{
    parse_command(input)
}

} // verus!
