//! From values to bytes.

use crate::codec::format::DecodeError;
use crate::codec::format::TAG_ARRAY;
use crate::codec::format::TAG_BOOL;
use crate::codec::format::TAG_FLOAT32;
use crate::codec::format::TAG_FLOAT64;
use crate::codec::format::TAG_INTEGER16;
use crate::codec::format::TAG_INTEGER32;
use crate::codec::format::TAG_INTEGER64;
use crate::codec::format::TAG_INTEGER8;
use crate::codec::format::TAG_NULL;
use crate::codec::format::TAG_OBJECT;
use crate::codec::format::TAG_STRING;
use crate::codec::format::decode_spec;
use crate::codec::format::encode_fields;
use crate::codec::format::encode_items;
use crate::codec::format::encode_spec;
use crate::codec::format::encode_text;
use crate::codec::format::le_bytes;
use crate::codec::format::radix;
use crate::codec::format::text_fits;
use crate::codec::format::to_unsigned;
use crate::codec::laws::lemma_decode_encode;
use crate::codec::laws::lemma_radix_values;
use crate::value::PostcardValue;
use crate::value::Tree;
use crate::value::lemma_view_array;
use crate::value::lemma_view_object;
use crate::value::named_trees;
use crate::value::trees;
use vstd::prelude::*;

verus! {

/// Appends the `width` low bytes of `x`, least significant first.
fn write_le(x: u64, width: usize, out: &mut Vec<u8>)
    requires
        width <= 8,
    ensures
        final(out)@ == old(out)@ + le_bytes(x as nat, width as nat),
{
    let ghost goal = old(out)@ + le_bytes(x as nat, width as nat);
    let mut rest = x;
    let mut k: usize = 0;
    while k < width
        invariant
            k <= width,
            out@ + le_bytes(rest as nat, (width - k) as nat) == goal,
        decreases width - k,
    {
        out.push((rest % 256) as u8);
        rest = rest / 256;
        k += 1;
    }
}

/// The number that stands for `x` in two's complement at 1, 2, 4 or 8 bytes.
fn unsigned_of(x: i64, width: usize) -> (u: u64)
    requires
        width == 1 || width == 2 || width == 4 || width == 8,
        -radix(width as nat) <= 2 * x < radix(width as nat),
    ensures
        u == to_unsigned(x as int, width as nat),
{
    proof {
        lemma_radix_values();
    }
    if x >= 0 {
        x as u64
    } else if width == 1 {
        (x + 0x100) as u64
    } else if width == 2 {
        (x + 0x1_0000) as u64
    } else if width == 4 {
        (x + 0x1_0000_0000) as u64
    } else {
        (x as i128 + 0x1_0000_0000_0000_0000) as u64
    }
}

/// Appends the byte form of a text.
pub fn encode_text_into(text: &str, out: &mut Vec<u8>)
    ensures
        final(out)@ == old(out)@ + encode_text(text@),
        text_fits(text@),
{
    let bytes = text.as_bytes();
    write_le(bytes.len() as u64, 8, out);
    let ghost before = out@;
    let mut i: usize = 0;
    while i < bytes.len()
        invariant
            i <= bytes.len(),
            out@ == before + bytes@.take(i as int),
        decreases bytes.len() - i,
    {
        out.push(bytes[i]);
        i += 1;
    }
}

/// Appends the byte form of a value.
#[verifier::loop_isolation(false)]
pub fn encode_into(value: &PostcardValue, out: &mut Vec<u8>)
    ensures
        final(out)@ == old(out)@ + encode_spec(value@),
        value@.fits(),
    decreases value,
{
    proof {
        lemma_radix_values();
    }
    match value {
        PostcardValue::Null => {
            out.push(TAG_NULL);
        },
        PostcardValue::Bool(b) => {
            out.push(TAG_BOOL);
            out.push(if *b { 1 } else { 0 });
        },
        PostcardValue::Integer8(x) => {
            out.push(TAG_INTEGER8);
            write_le(unsigned_of(*x as i64, 1), 1, out);
        },
        PostcardValue::Integer16(x) => {
            out.push(TAG_INTEGER16);
            write_le(unsigned_of(*x as i64, 2), 2, out);
        },
        PostcardValue::Integer32(x) => {
            out.push(TAG_INTEGER32);
            write_le(unsigned_of(*x as i64, 4), 4, out);
        },
        PostcardValue::Integer64(x) => {
            out.push(TAG_INTEGER64);
            write_le(unsigned_of(*x, 8), 8, out);
        },
        PostcardValue::Float32(bits) => {
            out.push(TAG_FLOAT32);
            write_le(*bits as u64, 4, out);
        },
        PostcardValue::Float64(bits) => {
            out.push(TAG_FLOAT64);
            write_le(*bits, 8, out);
        },
        PostcardValue::String(text) => {
            out.push(TAG_STRING);
            encode_text_into(text.as_str(), out);
        },
        PostcardValue::Array(items) => {
            out.push(TAG_ARRAY);
            write_le(items.len() as u64, 8, out);
            let ghost all = trees(items@);
            let ghost goal = out@ + encode_items(all, 0);
            proof {
                lemma_view_array(*items);
            }
            let mut i: usize = 0;
            while i < items.len()
                invariant
                    i <= items.len(),
                    out@ + encode_items(all, i as int) == goal,
                    forall|j: int| 0 <= j < i ==> (#[trigger] all[j]).fits(),
                decreases items.len() - i,
            {
                encode_into(&items[i], out);
                i += 1;
            }
        },
        PostcardValue::Object(fields) => {
            out.push(TAG_OBJECT);
            write_le(fields.len() as u64, 8, out);
            let ghost all = named_trees(fields@);
            let ghost goal = out@ + encode_fields(all, 0);
            proof {
                lemma_view_object(*fields);
            }
            let mut i: usize = 0;
            while i < fields.len()
                invariant
                    i <= fields.len(),
                    out@ + encode_fields(all, i as int) == goal,
                    forall|j: int|
                        0 <= j < i ==> text_fits((#[trigger] all[j]).0) && all[j].1.fits(),
                decreases fields.len() - i,
            {
                encode_text_into(fields[i].0.as_str(), out);
                encode_into(&fields[i].1, out);
                i += 1;
            }
        },
    }
}

/// Appends the byte form of the array of these values.
pub fn encode_array_into(items: &[PostcardValue], out: &mut Vec<u8>)
    ensures
        final(out)@ == old(out)@ + encode_spec(Tree::Array(trees(items@))),
        Tree::Array(trees(items@)).fits(),
{
    let ghost all = trees(items@);
    out.push(TAG_ARRAY);
    write_le(items.len() as u64, 8, out);
    let ghost goal = out@ + encode_items(all, 0);
    let mut i: usize = 0;
    while i < items.len()
        invariant
            i <= items.len(),
            all == trees(items@),
            out@ + encode_items(all, i as int) == goal,
            forall|j: int| 0 <= j < i ==> (#[trigger] all[j]).fits(),
        decreases items.len() - i,
    {
        encode_into(&items[i], out);
        i += 1;
    }
}

/// The byte form of the array of these values. Decoding it gives the array
/// back.
pub fn encode_array(items: &[PostcardValue]) -> (bytes: Vec<u8>)
    ensures
        bytes@ == encode_spec(Tree::Array(trees(items@))),
        decode_spec(bytes@) == Ok::<Tree, DecodeError>(Tree::Array(trees(items@))),
{
    let mut bytes: Vec<u8> = Vec::new();
    encode_array_into(items, &mut bytes);
    proof {
        lemma_decode_encode(Tree::Array(trees(items@)));
    }
    bytes
}

/// The byte form of a value. Decoding it gives the value back.
pub fn encode(value: &PostcardValue) -> (bytes: Vec<u8>)
    ensures
        bytes@ == encode_spec(value@),
        value@.fits(),
        decode_spec(bytes@) == Ok::<Tree, DecodeError>(value@),
{
    let mut bytes: Vec<u8> = Vec::new();
    encode_into(value, &mut bytes);
    proof {
        lemma_decode_encode(value@);
    }
    bytes
}

} // verus!
