//! From bytes to values.

use crate::codec::format::DecodeError;
use crate::codec::format::TAG_ARRAY;
use crate::codec::format::TAG_BOOL;
use crate::codec::format::TAG_FLOAT32;
use crate::codec::format::TAG_FLOAT64;
use crate::codec::format::TAG_INTEGER16;
use crate::codec::format::TAG_INTEGER32;
use crate::codec::format::TAG_INTEGER64;
use crate::codec::format::TAG_INTEGER8;
use crate::codec::format::TAG_NULL;
use crate::codec::format::TAG_OBJECT;
use crate::codec::format::TAG_STRING;
use crate::codec::format::decode_spec;
use crate::codec::format::le_value;
use crate::codec::format::parse_fields;
use crate::codec::format::parse_fixed;
use crate::codec::format::parse_items;
use crate::codec::format::parse_text;
use crate::codec::format::parse_value;
use crate::codec::format::radix;
use crate::codec::format::to_signed;
use crate::codec::laws::lemma_le_value_bound;
use crate::codec::laws::lemma_parse_value_within;
use crate::codec::laws::lemma_radix_values;
use crate::text::text_from_utf8;
use crate::value::PostcardValue;
use crate::value::Tree;
use crate::value::lemma_view_array;
use crate::value::lemma_view_object;
use crate::value::named_trees;
use crate::value::trees;
use vstd::prelude::*;
use vstd::slice::slice_subrange;

verus! {

/// What reading a run of items gives once the items before it are known.
pub open spec fn prepend_items(
    done: Seq<Tree>,
    used: int,
    tail: Option<(Seq<Tree>, int)>,
) -> Option<(Seq<Tree>, int)> {
    match tail {
        Some((rest, n)) => Some((done + rest, used + n)),
        None => None,
    }
}

/// What reading a run of fields gives once the fields before it are known.
pub open spec fn prepend_fields(
    done: Seq<(Seq<char>, Tree)>,
    used: int,
    tail: Option<(Seq<(Seq<char>, Tree)>, int)>,
) -> Option<(Seq<(Seq<char>, Tree)>, int)> {
    match tail {
        Some((rest, n)) => Some((done + rest, used + n)),
        None => None,
    }
}

/// Reads the number in the `width` bytes from `start` on.
fn read_le(bytes: &[u8], start: usize, width: usize) -> (x: u64)
    requires
        width <= 8,
        start + width <= bytes.len(),
    ensures
        x == le_value(bytes@.subrange(start as int, start + width)),
{
    let mut x: u64 = 0;
    let mut k: usize = width;
    while k > 0
        invariant
            k <= width <= 8,
            start + width <= bytes.len(),
            x == le_value(bytes@.subrange(start + k, start + width)),
        decreases k,
    {
        k -= 1;
        proof {
            let tail = bytes@.subrange(start + k + 1, start + width);
            let here = bytes@.subrange(start + k, start + width);
            assert(here.drop_first() =~= tail);
            lemma_le_value_bound(tail);
            reveal_with_fuel(radix, 8);
        }
        x = bytes[start + k] as u64 + 256 * x;
    }
    x
}

/// Reads the text that starts at `start`; gives it with the index after it.
fn decode_text(bytes: &[u8], start: usize) -> (read: Option<(String, usize)>)
    requires
        start <= bytes.len(),
    ensures
        match parse_text(bytes@.skip(start as int)) {
            Some((text, n)) => read matches Some((t, end)) && t@ == text && end == start + n,
            None => read is None,
        },
{
    let ghost here = bytes@.skip(start as int);
    if bytes.len() - start < 8 {
        return None;
    }
    let n = read_le(bytes, start, 8);
    proof {
        assert(here.subrange(0, 8) =~= bytes@.subrange(start as int, start + 8));
    }
    if ((bytes.len() - start - 8) as u64) < n {
        return None;
    }
    let end = start + 8 + n as usize;
    proof {
        assert(here.subrange(8, 8 + n) =~= bytes@.subrange(start + 8, end as int));
    }
    match text_from_utf8(slice_subrange(bytes, start + 8, end)) {
        Some(text) => Some((text, end)),
        None => None,
    }
}

/// Reads the number in the `width` bytes that follow the tag at `start`.
fn decode_fixed(bytes: &[u8], start: usize, width: usize) -> (read: Option<u64>)
    requires
        start < bytes.len(),
        width <= 8,
    ensures
        match parse_fixed(bytes@.skip(start as int), width as nat) {
            Some(u) => read == Some(u as u64) && u < radix(width as nat),
            None => read is None,
        },
{
    let ghost here = bytes@.skip(start as int);
    if bytes.len() - start - 1 < width {
        return None;
    }
    let u = read_le(bytes, start + 1, width);
    proof {
        assert(here.subrange(1, 1 + width) =~= bytes@.subrange(start + 1, start + 1 + width));
        lemma_le_value_bound(here.subrange(1, 1 + width));
    }
    Some(u)
}

/// The number that `u` stands for in two's complement at 1, 2, 4 or 8 bytes.
fn signed_of(u: u64, width: usize) -> (x: i64)
    requires
        width == 1 || width == 2 || width == 4 || width == 8,
        u < radix(width as nat),
    ensures
        x == to_signed(u as nat, width as nat),
{
    proof {
        lemma_radix_values();
    }
    if width == 1 {
        if u < 0x80 {
            u as i64
        } else {
            u as i64 - 0x100
        }
    } else if width == 2 {
        if u < 0x8000 {
            u as i64
        } else {
            u as i64 - 0x1_0000
        }
    } else if width == 4 {
        if u < 0x8000_0000 {
            u as i64
        } else {
            u as i64 - 0x1_0000_0000
        }
    } else {
        if u < 0x8000_0000_0000_0000 {
            u as i64
        } else {
            (u as i128 - 0x1_0000_0000_0000_0000) as i64
        }
    }
}

/// Reads `count` values from `first` on; gives them with the index after them.
fn decode_items(bytes: &[u8], first: usize, count: u64) -> (read: Option<
    (Vec<PostcardValue>, usize),
>)
    requires
        first <= bytes.len(),
    ensures
        match parse_items(bytes@.skip(first as int), count as nat) {
            Some((all, n)) => read matches Some((items, end)) && trees(items@) == all && end
                == first + n && end <= bytes.len(),
            None => read is None,
        },
    decreases bytes.len() - first, 1nat,
{
    let ghost whole = parse_items(bytes@.skip(first as int), count as nat);
    let mut items: Vec<PostcardValue> = Vec::new();
    let mut pos: usize = first;
    let mut i: u64 = 0;
    while i < count
        invariant
            first <= pos <= bytes.len(),
            i <= count,
            items@.len() == i,
            whole == parse_items(bytes@.skip(first as int), count as nat),
            whole == prepend_items(
                trees(items@),
                pos - first,
                parse_items(bytes@.skip(pos as int), (count - i) as nat),
            ),
        decreases count - i,
    {
        proof {
            lemma_parse_value_within(bytes@.skip(pos as int));
        }
        match decode_value(bytes, pos) {
            Some((item, end)) => {
                items.push(item);
                proof {
                    let n = end - pos;
                    assert(bytes@.skip(pos as int).skip(n) =~= bytes@.skip(end as int));
                    let tail = parse_items(bytes@.skip(end as int), (count - i - 1) as nat);
                    match tail {
                        Some((rest, m)) => {
                        },
                        None => {},
                    }
                }
                pos = end;
                i += 1;
            },
            None => {
                return None;
            },
        }
    }
    Some((items, pos))
}

/// Reads `count` fields from `first` on; gives them with the index after them.
fn decode_fields(bytes: &[u8], first: usize, count: u64) -> (read: Option<
    (Vec<(String, PostcardValue)>, usize),
>)
    requires
        first <= bytes.len(),
    ensures
        match parse_fields(bytes@.skip(first as int), count as nat) {
            Some((all, n)) => read matches Some((fields, end)) && named_trees(fields@) == all
                && end == first + n && end <= bytes.len(),
            None => read is None,
        },
    decreases bytes.len() - first, 1nat,
{
    let ghost whole = parse_fields(bytes@.skip(first as int), count as nat);
    let mut fields: Vec<(String, PostcardValue)> = Vec::new();
    let mut pos: usize = first;
    let mut i: u64 = 0;
    while i < count
        invariant
            first <= pos <= bytes.len(),
            i <= count,
            fields@.len() == i,
            whole == parse_fields(bytes@.skip(first as int), count as nat),
            whole == prepend_fields(
                named_trees(fields@),
                pos - first,
                parse_fields(bytes@.skip(pos as int), (count - i) as nat),
            ),
        decreases count - i,
    {
        let ghost done = named_trees(fields@);
        match decode_text(bytes, pos) {
            Some((name, mid)) => {
                proof {
                    assert(bytes@.skip(pos as int).skip(mid - pos) =~= bytes@.skip(mid as int));
                    lemma_parse_value_within(bytes@.skip(mid as int));
                }
                match decode_value(bytes, mid) {
                    Some((value, end)) => {
                        let ghost field = (name@, value@);
                        fields.push((name, value));
                        proof {
                            assert(bytes@.skip(pos as int).skip(end - pos) =~= bytes@.skip(
                                end as int,
                            ));
                            assert(named_trees(fields@) =~= done + seq![field]);
                            let tail = parse_fields(
                                bytes@.skip(end as int),
                                (count - i - 1) as nat,
                            );
                            match tail {
                                Some((rest, m)) => {
                                    assert(done + (seq![field] + rest) =~= named_trees(fields@)
                                        + rest);
                                },
                                None => {},
                            }
                        }
                        pos = end;
                        i += 1;
                    },
                    None => {
                        return None;
                    },
                }
            },
            None => {
                return None;
            },
        }
    }
    Some((fields, pos))
}

/// Reads the value that starts at `start`; gives it with the index after it.
fn decode_value(bytes: &[u8], start: usize) -> (read: Option<(PostcardValue, usize)>)
    requires
        start <= bytes.len(),
    ensures
        match parse_value(bytes@.skip(start as int)) {
            Some((tree, n)) => read matches Some((value, end)) && value@ == tree && end == start
                + n && end <= bytes.len(),
            None => read is None,
        },
    decreases bytes.len() - start, 0nat,
{
    let ghost here = bytes@.skip(start as int);
    proof {
        lemma_radix_values();
    }
    if start == bytes.len() {
        return None;
    }
    let tag = bytes[start];
    if tag == TAG_NULL {
        Some((PostcardValue::Null, start + 1))
    } else if tag == TAG_BOOL {
        if bytes.len() - start >= 2 && bytes[start + 1] <= 1 {
            Some((PostcardValue::Bool(bytes[start + 1] == 1), start + 2))
        } else {
            None
        }
    } else if tag == TAG_INTEGER8 {
        match decode_fixed(bytes, start, 1) {
            Some(u) => Some((PostcardValue::Integer8(signed_of(u, 1) as i8), start + 2)),
            None => None,
        }
    } else if tag == TAG_INTEGER16 {
        match decode_fixed(bytes, start, 2) {
            Some(u) => Some((PostcardValue::Integer16(signed_of(u, 2) as i16), start + 3)),
            None => None,
        }
    } else if tag == TAG_INTEGER32 {
        match decode_fixed(bytes, start, 4) {
            Some(u) => Some((PostcardValue::Integer32(signed_of(u, 4) as i32), start + 5)),
            None => None,
        }
    } else if tag == TAG_INTEGER64 {
        match decode_fixed(bytes, start, 8) {
            Some(u) => Some((PostcardValue::Integer64(signed_of(u, 8)), start + 9)),
            None => None,
        }
    } else if tag == TAG_FLOAT32 {
        match decode_fixed(bytes, start, 4) {
            Some(u) => Some((PostcardValue::Float32(u as u32), start + 5)),
            None => None,
        }
    } else if tag == TAG_FLOAT64 {
        match decode_fixed(bytes, start, 8) {
            Some(u) => Some((PostcardValue::Float64(u), start + 9)),
            None => None,
        }
    } else if tag == TAG_STRING {
        proof {
            assert(here.skip(1) =~= bytes@.skip(start + 1));
        }
        match decode_text(bytes, start + 1) {
            Some((text, end)) => Some((PostcardValue::String(text), end)),
            None => None,
        }
    } else if tag == TAG_ARRAY {
        match decode_fixed(bytes, start, 8) {
            Some(count) => {
                proof {
                    assert(here.skip(9) =~= bytes@.skip(start + 9));
                }
                match decode_items(bytes, start + 9, count) {
                    Some((items, end)) => {
                        proof {
                            lemma_view_array(items);
                        }
                        Some((PostcardValue::Array(items), end))
                    },
                    None => None,
                }
            },
            None => None,
        }
    } else if tag == TAG_OBJECT {
        match decode_fixed(bytes, start, 8) {
            Some(count) => {
                proof {
                    assert(here.skip(9) =~= bytes@.skip(start + 9));
                }
                match decode_fields(bytes, start + 9, count) {
                    Some((fields, end)) => {
                        proof {
                            lemma_view_object(fields);
                        }
                        Some((PostcardValue::Object(fields), end))
                    },
                    None => None,
                }
            },
            None => None,
        }
    } else {
        None
    }
}

/// The value whose byte form `bytes` is.
///
/// Succeeds exactly on the byte strings that [`decode_spec`] accepts, among
/// them every byte form that [`encode`] gives.
pub fn decode(bytes: &[u8]) -> (decoded: Result<PostcardValue, DecodeError>)
    ensures
        match decode_spec(bytes@) {
            Ok(tree) => decoded matches Ok(value) && value@ == tree,
            Err(error) => decoded == Err::<PostcardValue, DecodeError>(error),
        },
{
    proof {
        assert(bytes@.skip(0) =~= bytes@);
    }
    match decode_value(bytes, 0) {
        Some((value, end)) => {
            if end == bytes.len() {
                Ok(value)
            } else {
                Err(DecodeError::TrailingBytes)
            }
        },
        None => Err(DecodeError::Malformed),
    }
}

} // verus!
