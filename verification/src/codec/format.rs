//! What the byte form of a value is, and which value bytes are the form of.

use crate::value::Tree;
use vstd::prelude::*;
use vstd::utf8::decode_utf8;
use vstd::utf8::encode_utf8;
use vstd::utf8::valid_utf8;

verus! {

pub const TAG_NULL: u8 = 0;

pub const TAG_BOOL: u8 = 1;

pub const TAG_INTEGER8: u8 = 2;

pub const TAG_INTEGER16: u8 = 3;

pub const TAG_INTEGER32: u8 = 4;

pub const TAG_INTEGER64: u8 = 5;

pub const TAG_FLOAT32: u8 = 6;

pub const TAG_FLOAT64: u8 = 7;

pub const TAG_STRING: u8 = 8;

pub const TAG_ARRAY: u8 = 9;

pub const TAG_OBJECT: u8 = 10;

/// 256 to the power `width`: the number of values that `width` bytes hold.
pub open spec fn radix(width: nat) -> nat
    decreases width,
{
    if width == 0 {
        1
    } else {
        256 * radix((width - 1) as nat)
    }
}

/// The `width` low bytes of `x`, least significant first.
pub open spec fn le_bytes(x: nat, width: nat) -> Seq<u8>
    decreases width,
{
    if width == 0 {
        Seq::empty()
    } else {
        seq![(x % 256) as u8] + le_bytes(x / 256, (width - 1) as nat)
    }
}

/// The number whose bytes, least significant first, are `bytes`.
pub open spec fn le_value(bytes: Seq<u8>) -> nat
    decreases bytes.len(),
{
    if bytes.len() == 0 {
        0
    } else {
        bytes[0] as nat + 256 * le_value(bytes.drop_first())
    }
}

/// The number that stands for `x` in two's complement at `width` bytes.
pub open spec fn to_unsigned(x: int, width: nat) -> nat {
    if x >= 0 {
        x as nat
    } else {
        (x + radix(width)) as nat
    }
}

/// The number that `u` stands for in two's complement at `width` bytes.
pub open spec fn to_signed(u: nat, width: nat) -> int {
    if 2 * u < radix(width) {
        u as int
    } else {
        u - radix(width)
    }
}

/// The byte form of a text.
pub open spec fn encode_text(text: Seq<char>) -> Seq<u8> {
    le_bytes(encode_utf8(text).len(), 8) + encode_utf8(text)
}

/// The byte form of a value.
pub open spec fn encode_spec(tree: Tree) -> Seq<u8>
    decreases tree,
{
    match tree {
        Tree::Null => seq![TAG_NULL],
        Tree::Bool(b) => seq![TAG_BOOL, if b { 1u8 } else { 0u8 }],
        Tree::Integer8(x) => seq![TAG_INTEGER8] + le_bytes(to_unsigned(x as int, 1), 1),
        Tree::Integer16(x) => seq![TAG_INTEGER16] + le_bytes(to_unsigned(x as int, 2), 2),
        Tree::Integer32(x) => seq![TAG_INTEGER32] + le_bytes(to_unsigned(x as int, 4), 4),
        Tree::Integer64(x) => seq![TAG_INTEGER64] + le_bytes(to_unsigned(x as int, 8), 8),
        Tree::Float32(bits) => seq![TAG_FLOAT32] + le_bytes(bits as nat, 4),
        Tree::Float64(bits) => seq![TAG_FLOAT64] + le_bytes(bits as nat, 8),
        Tree::String(text) => seq![TAG_STRING] + encode_text(text),
        Tree::Array(items) => seq![TAG_ARRAY] + le_bytes(items.len(), 8) + encode_items(items, 0),
        Tree::Object(fields) => seq![TAG_OBJECT] + le_bytes(fields.len(), 8) + encode_fields(
            fields,
            0,
        ),
    }
}

/// The byte forms of the items from index `from` on, one after the other.
pub open spec fn encode_items(items: Seq<Tree>, from: int) -> Seq<u8>
    decreases items, items.len() - from,
{
    if 0 <= from < items.len() {
        encode_spec(items[from]) + encode_items(items, from + 1)
    } else {
        Seq::empty()
    }
}

/// The byte forms of the fields from index `from` on, one after the other.
pub open spec fn encode_fields(fields: Seq<(Seq<char>, Tree)>, from: int) -> Seq<u8>
    decreases fields, fields.len() - from,
{
    if 0 <= from < fields.len() {
        encode_text(fields[from].0) + encode_spec(fields[from].1) + encode_fields(fields, from + 1)
    } else {
        Seq::empty()
    }
}

/// Why a byte string is not the byte form of a value.
#[derive(Debug, Clone, Copy, PartialEq, Eq)]
pub enum DecodeError {
    /// No value can be read from the start of the bytes: they end too early,
    /// or hold an unknown tag, a truth value other than 0 and 1, or a text
    /// that is not UTF-8.
    Malformed,
    /// A value was read, and bytes are left after it.
    TrailingBytes,
}

/// The number in the `width` bytes that follow the tag byte, if they are there.
pub open spec fn parse_fixed(bytes: Seq<u8>, width: nat) -> Option<nat> {
    if bytes.len() >= 1 + width {
        Some(le_value(bytes.subrange(1, 1 + width as int)))
    } else {
        None
    }
}

/// The text at the start of `bytes` and the number of bytes it takes.
pub open spec fn parse_text(bytes: Seq<u8>) -> Option<(Seq<char>, int)> {
    if bytes.len() < 8 {
        None
    } else {
        let n = le_value(bytes.subrange(0, 8)) as int;
        if bytes.len() - 8 < n {
            None
        } else if !valid_utf8(bytes.subrange(8, 8 + n)) {
            None
        } else {
            Some((decode_utf8(bytes.subrange(8, 8 + n)), 8 + n))
        }
    }
}

/// The value at the start of `bytes` and the number of bytes it takes.
pub open spec fn parse_value(bytes: Seq<u8>) -> Option<(Tree, int)>
    decreases bytes.len(), 0nat, 0nat,
{
    if bytes.len() == 0 {
        None
    } else if bytes[0] == TAG_NULL {
        Some((Tree::Null, 1))
    } else if bytes[0] == TAG_BOOL {
        if bytes.len() >= 2 && bytes[1] <= 1 {
            Some((Tree::Bool(bytes[1] == 1), 2))
        } else {
            None
        }
    } else if bytes[0] == TAG_INTEGER8 {
        match parse_fixed(bytes, 1) {
            Some(u) => Some((Tree::Integer8(to_signed(u, 1) as i8), 2)),
            None => None,
        }
    } else if bytes[0] == TAG_INTEGER16 {
        match parse_fixed(bytes, 2) {
            Some(u) => Some((Tree::Integer16(to_signed(u, 2) as i16), 3)),
            None => None,
        }
    } else if bytes[0] == TAG_INTEGER32 {
        match parse_fixed(bytes, 4) {
            Some(u) => Some((Tree::Integer32(to_signed(u, 4) as i32), 5)),
            None => None,
        }
    } else if bytes[0] == TAG_INTEGER64 {
        match parse_fixed(bytes, 8) {
            Some(u) => Some((Tree::Integer64(to_signed(u, 8) as i64), 9)),
            None => None,
        }
    } else if bytes[0] == TAG_FLOAT32 {
        match parse_fixed(bytes, 4) {
            Some(u) => Some((Tree::Float32(u as u32), 5)),
            None => None,
        }
    } else if bytes[0] == TAG_FLOAT64 {
        match parse_fixed(bytes, 8) {
            Some(u) => Some((Tree::Float64(u as u64), 9)),
            None => None,
        }
    } else if bytes[0] == TAG_STRING {
        match parse_text(bytes.skip(1)) {
            Some((text, n)) => Some((Tree::String(text), 1 + n)),
            None => None,
        }
    } else if bytes[0] == TAG_ARRAY {
        match parse_fixed(bytes, 8) {
            Some(count) => match parse_items(bytes.skip(9), count) {
                Some((items, n)) => Some((Tree::Array(items), 9 + n)),
                None => None,
            },
            None => None,
        }
    } else if bytes[0] == TAG_OBJECT {
        match parse_fixed(bytes, 8) {
            Some(count) => match parse_fields(bytes.skip(9), count) {
                Some((fields, n)) => Some((Tree::Object(fields), 9 + n)),
                None => None,
            },
            None => None,
        }
    } else {
        None
    }
}

/// The `count` values at the start of `bytes` and the number of bytes they take.
pub open spec fn parse_items(bytes: Seq<u8>, count: nat) -> Option<(Seq<Tree>, int)>
    decreases bytes.len(), 1nat, count,
{
    if count == 0 {
        Some((Seq::empty(), 0))
    } else {
        match parse_value(bytes) {
            Some((item, n)) => if 0 < n <= bytes.len() {
                match parse_items(bytes.skip(n), (count - 1) as nat) {
                    Some((rest, m)) => Some((seq![item] + rest, n + m)),
                    None => None,
                }
            } else {
                None
            },
            None => None,
        }
    }
}

/// The `count` fields at the start of `bytes` and the number of bytes they take.
pub open spec fn parse_fields(bytes: Seq<u8>, count: nat) -> Option<
    (Seq<(Seq<char>, Tree)>, int),
>
    decreases bytes.len(), 1nat, count,
{
    if count == 0 {
        Some((Seq::empty(), 0))
    } else {
        match parse_text(bytes) {
            Some((name, k)) => if 0 < k <= bytes.len() {
                match parse_value(bytes.skip(k)) {
                    Some((value, n)) => if 0 < n <= bytes.len() - k {
                        match parse_fields(bytes.skip(k + n), (count - 1) as nat) {
                            Some((rest, m)) => Some((seq![(name, value)] + rest, k + n + m)),
                            None => None,
                        }
                    } else {
                        None
                    },
                    None => None,
                }
            } else {
                None
            },
            None => None,
        }
    }
}

/// The value whose byte form `bytes` is.
pub open spec fn decode_spec(bytes: Seq<u8>) -> Result<Tree, DecodeError> {
    match parse_value(bytes) {
        Some((tree, n)) => if n == bytes.len() {
            Ok(tree)
        } else {
            Err(DecodeError::TrailingBytes)
        },
        None => Err(DecodeError::Malformed),
    }
}

/// Whether the UTF-8 form of a text has a length that eight bytes hold.
pub open spec fn text_fits(text: Seq<char>) -> bool {
    encode_utf8(text).len() <= u64::MAX
}

impl Tree {
    /// Whether every length in the value is one that eight bytes hold. This
    /// is so for the content of every [`PostcardValue`].
    pub open spec fn fits(self) -> bool
        decreases self,
    {
        match self {
            Tree::String(text) => text_fits(text),
            Tree::Array(items) => items.len() <= u64::MAX && forall|i: int|
                0 <= i < items.len() ==> (#[trigger] items[i]).fits(),
            Tree::Object(fields) => fields.len() <= u64::MAX && forall|i: int|
                0 <= i < fields.len() ==> text_fits((#[trigger] fields[i]).0) && fields[i].1.fits(),
            _ => true,
        }
    }
}

} // verus!
