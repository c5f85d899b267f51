use vstd::prelude::*;

verus! {

/// Largest bit pattern of a well-formed key set: the thirteen flags of the
/// closed universe occupy bits 0 to 12.
pub const ALL_BITS: u16 = 0x1fff;

/// One frame's full input state: a set of buttons and directions, held as
/// a bit mask over a closed universe of thirteen flags.
#[derive(Clone, Copy, Debug, PartialEq, Eq, Structural)]
pub struct Key {
    bits: u16,
}

impl View for Key {
    type V = u16;

    closed spec fn view(&self) -> u16 {
        self.bits
    }
}

/// `a` holds every flag of `b`.
pub open spec fn bits_contain(a: u16, b: u16) -> bool {
    a & b == b
}

impl Key {
    pub const A: u16 = 0x0001;
    pub const B: u16 = 0x0002;
    pub const C: u16 = 0x0004;
    pub const D: u16 = 0x0008;
    pub const FORWARD: u16 = 0x0010;
    pub const BACKWARD: u16 = 0x0020;
    pub const UP: u16 = 0x0040;
    pub const DOWN: u16 = 0x0080;
    pub const FD: u16 = 0x0100;
    pub const FU: u16 = 0x0200;
    pub const BD: u16 = 0x0400;
    pub const BU: u16 = 0x0800;
    pub const NEUTRAL: u16 = 0x1000;

    /// No bit outside the universe is set.
    #[verifier::type_invariant]
    closed spec fn wf(self) -> bool {
        self.bits <= ALL_BITS
    }

    /// The key set with the bit pattern `bits`.
    pub closed spec fn from_view(bits: u16) -> Key {
        Key { bits }
    }

    /// A key set is determined by its bit pattern.
    pub proof fn lemma_view_ext(k: Key)
        ensures
            Key::from_view(k@) == k,
    {
    }

    /// Every flag of `other` is set in `self`.
    pub open spec fn has(self, other: Key) -> bool {
        bits_contain(self@, other@)
    }

    pub fn bits(self) -> (r: u16)
        ensures
            r == self@,
            r <= ALL_BITS,
    {
        proof {
            use_type_invariant(&self);
        }
        self.bits
    }

    /// The key set holding the flags of `bits` that belong to the universe.
    pub fn from_bits_truncate(bits: u16) -> (r: Key)
        ensures
            r@ == bits & ALL_BITS,
    {
        proof {
            assert(bits & 0x1fff <= 0x1fff) by (bit_vector);
        }
        Key { bits: bits & ALL_BITS }
    }

    pub fn empty() -> (r: Key)
        ensures
            r@ == 0,
    {
        Key { bits: 0 }
    }

    pub fn union(self, other: Key) -> (r: Key)
        ensures
            r@ == self@ | other@,
    {
        proof {
            use_type_invariant(&self);
            use_type_invariant(&other);
            let (a, b) = (self.bits, other.bits);
            assert(a <= 0x1fff && b <= 0x1fff ==> a | b <= 0x1fff) by (bit_vector);
        }
        Key { bits: self.bits | other.bits }
    }

    pub fn contains(self, other: Key) -> (r: bool)
        ensures
            r == self.has(other),
    {
        self.bits & other.bits == other.bits
    }

    pub fn is_empty(self) -> (r: bool)
        ensures
            r == (self@ == 0),
    {
        self.bits == 0
    }
}

/// The flag that a single character of a button cluster names: a button
/// letter, or a direction in numeric-pad notation.
pub open spec fn char_flag(c: char) -> Option<u16> {
    if c == 'A' {
        Some(0x0001u16)
    } else if c == 'B' {
        Some(0x0002u16)
    } else if c == 'C' {
        Some(0x0004u16)
    } else if c == 'D' {
        Some(0x0008u16)
    } else if c == '1' {
        Some(0x0400u16)
    } else if c == '2' {
        Some(0x0080u16)
    } else if c == '3' {
        Some(0x0100u16)
    } else if c == '4' {
        Some(0x0020u16)
    } else if c == '6' {
        Some(0x0010u16)
    } else if c == '7' {
        Some(0x0800u16)
    } else if c == '8' {
        Some(0x0040u16)
    } else if c == '9' {
        Some(0x0200u16)
    } else {
        None
    }
}

/// Maps one character of a button cluster to its flag.
pub fn key_of_char(c: char) -> (r: Option<Key>)
    ensures
        r matches Some(k) ==> char_flag(c) == Some(k@),
        r is None <==> char_flag(c) is None,
{
    match c {
        'A' => Some(Key { bits: Key::A }),
        'B' => Some(Key { bits: Key::B }),
        'C' => Some(Key { bits: Key::C }),
        'D' => Some(Key { bits: Key::D }),
        '1' => Some(Key { bits: Key::BD }),
        '2' => Some(Key { bits: Key::DOWN }),
        '3' => Some(Key { bits: Key::FD }),
        '4' => Some(Key { bits: Key::BACKWARD }),
        '6' => Some(Key { bits: Key::FORWARD }),
        '7' => Some(Key { bits: Key::BU }),
        '8' => Some(Key { bits: Key::UP }),
        '9' => Some(Key { bits: Key::FU }),
        _ => None,
    }
}

} // verus!
