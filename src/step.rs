use vstd::prelude::*;

use crate::error::Error;
use crate::error::Fault;
use crate::key::Key;

verus! {

/// One step of a command. A window that a step leaves out (`None`) takes
/// the default that the matcher is given.
#[derive(Clone, Copy, Debug, PartialEq, Eq, Structural)]
pub enum CommandKey {
    Push { key: Key, buffer_frame: Option<u32> },
    Release { key: Key, buffer_frame: Option<u32> },
    Hold { key: Key, buffer_frame: Option<u32>, hold_frame: Option<u32> },
    On { key: Key },
    Off { key: Key },
}

impl CommandKey {
    pub open spec fn key(self) -> Key {
        match self {
            CommandKey::Push { key, .. } => key,
            CommandKey::Release { key, .. } => key,
            CommandKey::Hold { key, .. } => key,
            CommandKey::On { key } => key,
            CommandKey::Off { key } => key,
        }
    }
}

pub open spec fn is_digit(c: char) -> bool {
    '0' <= c && c <= '9'
}

pub open spec fn digit_value(c: char) -> int {
    c as int - '0' as int
}

/// The number that a run of decimal digits writes, most significant first.
pub open spec fn dec_value(t: Seq<char>) -> int
    decreases t.len(),
{
    if t.len() == 0 {
        0
    } else {
        dec_value(t.drop_last()) * 10 + digit_value(t.last())
    }
}

pub open spec fn all_digits(t: Seq<char>) -> bool {
    forall|i: int| 0 <= i < t.len() ==> is_digit(#[trigger] t[i])
}

/// The frame count that a window's text gives: one or more decimal digits
/// whose value fits in a `u32`.
pub open spec fn frame_of(t: Seq<char>) -> Option<u32> {
    if t.len() > 0 && all_digits(t) && dec_value(t) <= u32::MAX {
        Some(dec_value(t) as u32)
    } else {
        None
    }
}

/// The window of an optional text, or the error that rejects it.
pub open spec fn window_of(t: Option<Seq<char>>) -> Result<Option<u32>, Fault> {
    match t {
        None => Ok(None),
        Some(t) => match frame_of(t) {
            Some(v) => Ok(Some(v)),
            None => Err(Fault::NumberFormat(t)),
        },
    }
}

pub open spec fn text_of(t: Option<&str>) -> Option<Seq<char>> {
    match t {
        None => None,
        Some(t) => Some(t@),
    }
}

/// Reads a frame count written in decimal digits.
pub fn parse_frame(t: &str) -> (r: Result<u32, Error>)
    ensures
        r matches Ok(v) ==> frame_of(t@) == Some(v),
        r matches Err(e) ==> frame_of(t@) is None && e@ == Fault::NumberFormat(t@),
{
    let n = t.unicode_len();
    let mut acc: u64 = 0;
    let mut i: usize = 0;
    while i < n
        invariant
            n == t@.len(),
            0 <= i <= n,
            all_digits(t@.subrange(0, i as int)),
            acc == dec_value(t@.subrange(0, i as int)),
            acc <= u32::MAX,
        decreases n - i,
    {
        let c = t.get_char(i);
        let ghost pre = t@.subrange(0, i as int);
        let ghost next = t@.subrange(0, i + 1);
        assert(next.drop_last() =~= pre);
        if !('0' <= c && c <= '9') {
            assert(!all_digits(t@)) by {
                assert(!is_digit(t@[i as int]));
            }
            return Err(Error::NumberFormat { digits: t.to_owned() });
        }
        let d: u64 = (c as u64) - ('0' as u64);
        acc = acc * 10 + d;
        if acc > 0xffff_ffff {
            proof {
                if all_digits(t@) {
                    lemma_dec_value_prefix_grows(t@, i + 1);
                }
            }
            return Err(Error::NumberFormat { digits: t.to_owned() });
        }
        i = i + 1;
    }
    assert(t@.subrange(0, n as int) =~= t@);
    if n == 0 {
        return Err(Error::NumberFormat { digits: t.to_owned() });
    }
    Ok(acc as u32)
}

proof fn lemma_all_digits_drop_last(t: Seq<char>)
    requires
        t.len() > 0,
        all_digits(t),
    ensures
        all_digits(t.drop_last()),
        is_digit(t.last()),
{
    assert forall|i: int| 0 <= i < t.drop_last().len() implies is_digit(
        #[trigger] t.drop_last()[i],
    ) by {
        assert(t.drop_last()[i] == t[i]);
    }
}

/// The value of a run of digits is at least that of each of its prefixes.
proof fn lemma_dec_value_prefix_grows(t: Seq<char>, k: int)
    requires
        0 <= k <= t.len(),
        all_digits(t),
    ensures
        dec_value(t) >= dec_value(t.subrange(0, k)),
    decreases t.len(),
{
    if k < t.len() {
        assert(t.drop_last() =~= t.drop_last().subrange(0, t.len() - 1));
        lemma_dec_value_nonneg(t.drop_last());
        assert(t.subrange(0, k) =~= t.drop_last().subrange(0, k));
        lemma_dec_value_prefix_grows(t.drop_last(), k);
        lemma_all_digits_drop_last(t);
        assert(is_digit(t[t.len() - 1]));
    } else {
        assert(t.subrange(0, k) =~= t);
    }
}

proof fn lemma_dec_value_nonneg(t: Seq<char>)
    requires
        all_digits(t),
    ensures
        dec_value(t) >= 0,
    decreases t.len(),
{
    if t.len() > 0 {
        lemma_all_digits_drop_last(t);
        lemma_dec_value_nonneg(t.drop_last());
        assert(is_digit(t[t.len() - 1]));
    }
}

fn window(t: Option<&str>) -> (r: Result<Option<u32>, Error>)
    ensures
        r matches Ok(w) ==> window_of(text_of(t)) == Ok::<Option<u32>, Fault>(w),
        r matches Err(e) ==> window_of(text_of(t)) == Err::<Option<u32>, Fault>(e@),
{
    match t {
        None => Ok(None),
        Some(t) => match parse_frame(t) {
            Ok(v) => Ok(Some(v)),
            Err(e) => Err(e),
        },
    }
}

/// Builds a push step from its key and the text of its buffer window.
pub fn to_push_command_key(key: Key, buffer_frame: Option<&str>) -> (r: Result<CommandKey, Error>)
    ensures
        r matches Ok(s) ==> window_of(text_of(buffer_frame)) matches Ok(b) && s == (
        CommandKey::Push { key, buffer_frame: b }),
        r matches Err(e) ==> window_of(text_of(buffer_frame)) == Err::<Option<u32>, Fault>(e@),
{
    let buffer_frame = window(buffer_frame)?;
    Ok(CommandKey::Push { key, buffer_frame })
}

/// Builds a release step from its key and the text of its buffer window.
pub fn to_release_command_key(key: Key, buffer_frame: Option<&str>) -> (r: Result<CommandKey, Error>)
    ensures
        r matches Ok(s) ==> window_of(text_of(buffer_frame)) matches Ok(b) && s == (
        CommandKey::Release { key, buffer_frame: b }),
        r matches Err(e) ==> window_of(text_of(buffer_frame)) == Err::<Option<u32>, Fault>(e@),
{
    let buffer_frame = window(buffer_frame)?;
    Ok(CommandKey::Release { key, buffer_frame })
}

/// Builds a hold step from its key and the texts of its hold and buffer
/// windows; the hold window is read first.
pub fn to_hold_command_key(key: Key, hold_frame: Option<&str>, buffer_frame: Option<&str>) -> (r:
    Result<CommandKey, Error>)
    ensures
        r matches Ok(s) ==> window_of(text_of(hold_frame)) matches Ok(h) && window_of(
            text_of(buffer_frame),
        ) matches Ok(b) && s == (CommandKey::Hold { key, buffer_frame: b, hold_frame: h }),
        r matches Err(e) ==> window_of(text_of(hold_frame)) == Err::<Option<u32>, Fault>(e@) || (
        window_of(text_of(hold_frame)) is Ok && window_of(text_of(buffer_frame)) == Err::<
            Option<u32>,
            Fault,
        >(e@)),
{
    let hold_frame = window(hold_frame)?;
    let buffer_frame = window(buffer_frame)?;
    Ok(CommandKey::Hold { key, buffer_frame, hold_frame })
}

} // verus!
