//! The fixed keyboard-to-keypad layout: host key characters map onto the
//! sixteen keypad codes 0x0-0xF.

use vstd::prelude::*;

verus! {

/// The keypad code a keyboard character stands for, or `None` for a key
/// outside the mapped layout.
pub open spec fn keypad_code(key: char) -> Option<u8> {
    match key {
        '1' => Some(1u8),
        '2' => Some(2u8),
        '3' => Some(3u8),
        '4' => Some(0xcu8),
        'q' => Some(4u8),
        'w' => Some(5u8),
        'e' => Some(6u8),
        'r' => Some(0xdu8),
        'a' => Some(7u8),
        's' => Some(8u8),
        'd' => Some(9u8),
        'f' => Some(0xeu8),
        'z' => Some(0xau8),
        'x' => Some(0u8),
        'c' => Some(0xbu8),
        'v' => Some(0xfu8),
        _ => None,
    }
}

/// Translates a keyboard character into its 16-key keypad code; every mapped
/// key yields a code of at most 0xF.
pub fn translate_keypad(key: char) -> (r: Option<u8>)
    ensures
        r == keypad_code(key),
        (match r {
            Some(code) => code <= 0xF,
            None => true,
        }),
{
    match key {
        '1' => Some(1),
        '2' => Some(2),
        '3' => Some(3),
        '4' => Some(0xc),
        'q' => Some(4),
        'w' => Some(5),
        'e' => Some(6),
        'r' => Some(0xd),
        'a' => Some(7),
        's' => Some(8),
        'd' => Some(9),
        'f' => Some(0xe),
        'z' => Some(0xa),
        'x' => Some(0),
        'c' => Some(0xb),
        'v' => Some(0xf),
        _ => None,
    }
}

} // verus!
