//! Writing and reading undo each other.

use crate::codec::format::DecodeError;
use crate::codec::format::TAG_ARRAY;
use crate::codec::format::TAG_FLOAT32;
use crate::codec::format::TAG_FLOAT64;
use crate::codec::format::TAG_INTEGER16;
use crate::codec::format::TAG_INTEGER32;
use crate::codec::format::TAG_INTEGER64;
use crate::codec::format::TAG_INTEGER8;
use crate::codec::format::TAG_NULL;
use crate::codec::format::TAG_OBJECT;
use crate::codec::format::TAG_STRING;
use crate::codec::format::decode_spec;
use crate::codec::format::encode_fields;
use crate::codec::format::encode_items;
use crate::codec::format::encode_spec;
use crate::codec::format::encode_text;
use crate::codec::format::le_bytes;
use crate::codec::format::le_value;
use crate::codec::format::parse_fields;
use crate::codec::format::parse_fixed;
use crate::codec::format::parse_items;
use crate::codec::format::parse_text;
use crate::codec::format::parse_value;
use crate::codec::format::radix;
use crate::codec::format::text_fits;
use crate::codec::format::to_unsigned;
use crate::value::Tree;
use vstd::prelude::*;
use vstd::utf8::decode_utf8_encode_utf8;
use vstd::utf8::encode_utf8;
use vstd::utf8::encode_utf8_decode_utf8;
use vstd::utf8::encode_utf8_valid_utf8;

verus! {

/// The values of [`radix`] at the widths in use.
pub proof fn lemma_radix_values()
    ensures
        radix(0) == 1,
        radix(1) == 0x100,
        radix(2) == 0x1_0000,
        radix(4) == 0x1_0000_0000,
        radix(8) == 0x1_0000_0000_0000_0000,
{
    reveal_with_fuel(radix, 9);
}

/// `width` bytes are `width` bytes.
pub proof fn lemma_le_bytes_len(x: nat, width: nat)
    ensures
        le_bytes(x, width).len() == width,
    decreases width,
{
    if width > 0 {
        lemma_le_bytes_len(x / 256, (width - 1) as nat);
    }
}

/// A number that `width` bytes hold is read back from its bytes.
pub proof fn lemma_le_value_of_bytes(x: nat, width: nat)
    requires
        x < radix(width),
    ensures
        le_value(le_bytes(x, width)) == x,
    decreases width,
{
    if width > 0 {
        let rest = le_bytes(x / 256, (width - 1) as nat);
        lemma_le_value_of_bytes(x / 256, (width - 1) as nat);
        assert(le_bytes(x, width).drop_first() =~= rest);
    }
}

/// The number in `n` bytes is below `radix(n)`.
pub proof fn lemma_le_value_bound(bytes: Seq<u8>)
    ensures
        le_value(bytes) < radix(bytes.len()),
    decreases bytes.len(),
{
    if bytes.len() > 0 {
        lemma_le_value_bound(bytes.drop_first());
    }
}

/// Bytes are the bytes of the number in them.
pub proof fn lemma_le_bytes_of_value(bytes: Seq<u8>)
    ensures
        le_bytes(le_value(bytes), bytes.len()) == bytes,
    decreases bytes.len(),
{
    if bytes.len() > 0 {
        let tail = bytes.drop_first();
        lemma_le_bytes_of_value(tail);
        let x = le_value(bytes);
        assert(x % 256 == bytes[0] as nat);
    }
}

/// A text is read back from its byte form, whatever follows it.
pub proof fn lemma_parse_text(text: Seq<char>, rest: Seq<u8>)
    requires
        text_fits(text),
    ensures
        parse_text(encode_text(text) + rest) == Some((text, encode_text(text).len() as int)),
{
    let utf8 = encode_utf8(text);
    let bytes = encode_text(text) + rest;
    lemma_le_bytes_len(utf8.len(), 8);
    lemma_radix_values();
    lemma_le_value_of_bytes(utf8.len(), 8);
    assert(bytes.subrange(0, 8) =~= le_bytes(utf8.len(), 8));
    assert(bytes.subrange(8, 8 + utf8.len() as int) =~= utf8);
    encode_utf8_valid_utf8(text);
    encode_utf8_decode_utf8(text);
}

/// A number is read back from the bytes that follow a tag.
proof fn lemma_parse_fixed(tag: u8, x: nat, width: nat, rest: Seq<u8>)
    requires
        x < radix(width),
    ensures
        parse_fixed(seq![tag] + le_bytes(x, width) + rest, width) == Some(x),
        (seq![tag] + le_bytes(x, width) + rest).skip(1 + width as int) == rest,
        (seq![tag] + le_bytes(x, width)).len() == 1 + width,
{
    let bytes = seq![tag] + le_bytes(x, width) + rest;
    lemma_le_bytes_len(x, width);
    lemma_le_value_of_bytes(x, width);
    assert(bytes.subrange(1, 1 + width as int) =~= le_bytes(x, width));
    assert(bytes.skip(1 + width as int) =~= rest);
}

/// A value is read back from its byte form, whatever follows it.
pub proof fn lemma_parse_value(tree: Tree, rest: Seq<u8>)
    requires
        tree.fits(),
    ensures
        parse_value(encode_spec(tree) + rest) == Some((tree, encode_spec(tree).len() as int)),
    decreases tree,
{
    let bytes = encode_spec(tree) + rest;
    lemma_radix_values();
    match tree {
        Tree::Null => {},
        Tree::Bool(b) => {},
        Tree::Integer8(x) => {
            lemma_parse_fixed(TAG_INTEGER8, to_unsigned(x as int, 1), 1, rest);
        },
        Tree::Integer16(x) => {
            lemma_parse_fixed(TAG_INTEGER16, to_unsigned(x as int, 2), 2, rest);
        },
        Tree::Integer32(x) => {
            lemma_parse_fixed(TAG_INTEGER32, to_unsigned(x as int, 4), 4, rest);
        },
        Tree::Integer64(x) => {
            lemma_parse_fixed(TAG_INTEGER64, to_unsigned(x as int, 8), 8, rest);
        },
        Tree::Float32(bits) => {
            lemma_parse_fixed(TAG_FLOAT32, bits as nat, 4, rest);
        },
        Tree::Float64(bits) => {
            lemma_parse_fixed(TAG_FLOAT64, bits as nat, 8, rest);
        },
        Tree::String(text) => {
            lemma_parse_text(text, rest);
            assert(bytes.skip(1) =~= encode_text(text) + rest);
        },
        Tree::Array(items) => {
            let body = encode_items(items, 0);
            lemma_parse_fixed(TAG_ARRAY, items.len(), 8, body + rest);
            assert(bytes =~= seq![TAG_ARRAY] + le_bytes(items.len(), 8) + (body + rest));
            lemma_parse_items(items, 0, rest);
            assert(items.skip(0) =~= items);
        },
        Tree::Object(fields) => {
            let body = encode_fields(fields, 0);
            lemma_parse_fixed(TAG_OBJECT, fields.len(), 8, body + rest);
            assert(bytes =~= seq![TAG_OBJECT] + le_bytes(fields.len(), 8) + (body + rest));
            lemma_parse_fields(fields, 0, rest);
            assert(fields.skip(0) =~= fields);
        },
    }
}

/// The items from `from` on are read back from their byte forms.
pub proof fn lemma_parse_items(items: Seq<Tree>, from: int, rest: Seq<u8>)
    requires
        0 <= from <= items.len(),
        forall|i: int| 0 <= i < items.len() ==> (#[trigger] items[i]).fits(),
    ensures
        parse_items(encode_items(items, from) + rest, (items.len() - from) as nat) == Some(
            (items.skip(from), encode_items(items, from).len() as int),
        ),
    decreases items, items.len() - from,
{
    if from < items.len() {
        let head = encode_spec(items[from]);
        let tail = encode_items(items, from + 1);
        let bytes = encode_items(items, from) + rest;
        assert(bytes =~= head + (tail + rest));
        lemma_parse_value(items[from], tail + rest);
        assert(bytes.skip(head.len() as int) =~= tail + rest);
        lemma_parse_items(items, from + 1, rest);
    }
}

/// The fields from `from` on are read back from their byte forms.
pub proof fn lemma_parse_fields(fields: Seq<(Seq<char>, Tree)>, from: int, rest: Seq<u8>)
    requires
        0 <= from <= fields.len(),
        forall|i: int|
            0 <= i < fields.len() ==> text_fits((#[trigger] fields[i]).0) && fields[i].1.fits(),
    ensures
        parse_fields(encode_fields(fields, from) + rest, (fields.len() - from) as nat) == Some(
            (fields.skip(from), encode_fields(fields, from).len() as int),
        ),
    decreases fields, fields.len() - from,
{
    if from < fields.len() {
        let name = encode_text(fields[from].0);
        let head = encode_spec(fields[from].1);
        let tail = encode_fields(fields, from + 1);
        let bytes = encode_fields(fields, from) + rest;
        assert(bytes =~= name + (head + (tail + rest)));
        lemma_parse_text(fields[from].0, head + (tail + rest));
        assert(bytes.skip(name.len() as int) =~= head + (tail + rest));
        lemma_parse_value(fields[from].1, tail + rest);
        assert(bytes.skip((name.len() + head.len()) as int) =~= tail + rest);
        lemma_parse_fields(fields, from + 1, rest);
    }
}

/// Decoding the byte form of a value gives the value back.
pub proof fn lemma_decode_encode(tree: Tree)
    requires
        tree.fits(),
    ensures
        decode_spec(encode_spec(tree)) == Ok::<Tree, DecodeError>(tree),
{
    lemma_parse_value(tree, Seq::empty());
}

/// Values with the same byte form are the same value.
pub proof fn lemma_encode_injective(a: Tree, b: Tree)
    requires
        a.fits(),
        b.fits(),
        encode_spec(a) == encode_spec(b),
    ensures
        a == b,
{
    lemma_decode_encode(a);
    lemma_decode_encode(b);
}

/// The byte forms of the items after the first are those of the rest.
proof fn lemma_encode_items_shift(head: Tree, rest: Seq<Tree>, from: int)
    requires
        0 <= from <= rest.len(),
    ensures
        encode_items(seq![head] + rest, from + 1) == encode_items(rest, from),
    decreases rest.len() - from,
{
    if from < rest.len() {
        lemma_encode_items_shift(head, rest, from + 1);
    }
}

/// The byte forms of the fields after the first are those of the rest.
proof fn lemma_encode_fields_shift(
    head: (Seq<char>, Tree),
    rest: Seq<(Seq<char>, Tree)>,
    from: int,
)
    requires
        0 <= from <= rest.len(),
    ensures
        encode_fields(seq![head] + rest, from + 1) == encode_fields(rest, from),
    decreases rest.len() - from,
{
    if from < rest.len() {
        lemma_encode_fields_shift(head, rest, from + 1);
    }
}

/// The bytes that a text was read from are its byte form.
pub proof fn lemma_encode_parsed_text(bytes: Seq<u8>)
    ensures
        parse_text(bytes) matches Some((text, n)) ==> text_fits(text) && 8 <= n <= bytes.len()
            && encode_text(text) == bytes.subrange(0, n),
{
    if parse_text(bytes) is Some {
        let head = bytes.subrange(0, 8);
        let n = le_value(head) as int;
        let body = bytes.subrange(8, 8 + n);
        lemma_radix_values();
        lemma_le_value_bound(head);
        lemma_le_bytes_of_value(head);
        decode_utf8_encode_utf8(body);
    }
}

/// The bytes after a tag that a number was read from are the number's bytes.
proof fn lemma_encode_parsed_fixed(bytes: Seq<u8>, width: nat)
    requires
        bytes.len() >= 1,
    ensures
        parse_fixed(bytes, width) matches Some(u) ==> u < radix(width) && seq![bytes[0]]
            + le_bytes(u, width) == bytes.subrange(0, 1 + width as int),
{
    if parse_fixed(bytes, width) is Some {
        let body = bytes.subrange(1, 1 + width as int);
        lemma_le_value_bound(body);
        lemma_le_bytes_of_value(body);
    }
}

/// The bytes that a value was read from are its byte form.
pub proof fn lemma_encode_parsed(bytes: Seq<u8>)
    ensures
        parse_value(bytes) matches Some((tree, n)) ==> tree.fits() && 0 < n <= bytes.len()
            && encode_spec(tree) == bytes.subrange(0, n),
    decreases bytes.len(), 0nat, 0nat,
{
    lemma_radix_values();
    if bytes.len() > 0 && parse_value(bytes) is Some {
        let tag = bytes[0];
        if tag == TAG_NULL {
        } else if tag == TAG_INTEGER8 {
            lemma_encode_parsed_fixed(bytes, 1);
        } else if tag == TAG_INTEGER16 {
            lemma_encode_parsed_fixed(bytes, 2);
        } else if tag == TAG_INTEGER32 {
            lemma_encode_parsed_fixed(bytes, 4);
        } else if tag == TAG_INTEGER64 {
            lemma_encode_parsed_fixed(bytes, 8);
        } else if tag == TAG_FLOAT32 {
            lemma_encode_parsed_fixed(bytes, 4);
        } else if tag == TAG_FLOAT64 {
            lemma_encode_parsed_fixed(bytes, 8);
        } else if tag == TAG_STRING {
            let rest = bytes.skip(1);
            lemma_encode_parsed_text(rest);
        } else if tag == TAG_ARRAY {
            lemma_encode_parsed_fixed(bytes, 8);
            let count = parse_fixed(bytes, 8)->0;
            let rest = bytes.skip(9);
            lemma_encode_parsed_items(rest, count);
        } else if tag == TAG_OBJECT {
            lemma_encode_parsed_fixed(bytes, 8);
            let count = parse_fixed(bytes, 8)->0;
            let rest = bytes.skip(9);
            lemma_encode_parsed_fields(rest, count);
        }
    }
}

/// The bytes that items were read from are their byte forms.
pub proof fn lemma_encode_parsed_items(bytes: Seq<u8>, count: nat)
    ensures
        parse_items(bytes, count) matches Some((items, n)) ==> ({
            &&& items.len() == count
            &&& 0 <= n <= bytes.len()
            &&& forall|i: int| 0 <= i < items.len() ==> (#[trigger] items[i]).fits()
            &&& encode_items(items, 0) == bytes.subrange(0, n)
        }),
    decreases bytes.len(), 1nat, count,
{
    if parse_items(bytes, count) is Some {
        if count > 0 {
            lemma_encode_parsed(bytes);
            let (item, k) = parse_value(bytes)->0;
            let after = bytes.skip(k);
            lemma_encode_parsed_items(after, (count - 1) as nat);
            let (rest, m) = parse_items(after, (count - 1) as nat)->0;
            lemma_encode_items_shift(item, rest, 0);
        }
    }
}

/// The bytes that fields were read from are their byte forms.
pub proof fn lemma_encode_parsed_fields(bytes: Seq<u8>, count: nat)
    ensures
        parse_fields(bytes, count) matches Some((fields, n)) ==> ({
            &&& fields.len() == count
            &&& 0 <= n <= bytes.len()
            &&& forall|i: int|
                0 <= i < fields.len() ==> text_fits((#[trigger] fields[i]).0) && fields[i].1.fits()
            &&& encode_fields(fields, 0) == bytes.subrange(0, n)
        }),
    decreases bytes.len(), 1nat, count,
{
    if parse_fields(bytes, count) is Some {
        if count > 0 {
            lemma_encode_parsed_text(bytes);
            let (name, j) = parse_text(bytes)->0;
            let middle = bytes.skip(j);
            lemma_encode_parsed(middle);
            let (value, k) = parse_value(middle)->0;
            let after = bytes.skip(j + k);
            lemma_encode_parsed_fields(after, (count - 1) as nat);
            let (rest, m) = parse_fields(after, (count - 1) as nat)->0;
            lemma_encode_fields_shift((name, value), rest, 0);
            assert(bytes.subrange(0, j) + middle.subrange(0, k) + after.subrange(0, m)
                =~= bytes.subrange(0, j + k + m));
        }
    }
}

/// Encoding a value that was decoded gives the bytes back: a byte string
/// is the byte form of at most one value, and each value has one byte form.
pub proof fn lemma_encode_decode(bytes: Seq<u8>)
    ensures
        decode_spec(bytes) matches Ok(tree) ==> tree.fits() && encode_spec(tree) == bytes,
{
    lemma_encode_parsed(bytes);
}

/// What is read takes at least one byte and no more than there are.
pub proof fn lemma_parse_value_within(bytes: Seq<u8>)
    ensures
        parse_value(bytes) matches Some((tree, n)) ==> 0 < n <= bytes.len(),
    decreases bytes.len(), 0nat, 0nat,
{
    if bytes.len() > 0 {
        if bytes[0] == TAG_ARRAY {
            if bytes.len() >= 9 {
                lemma_parse_items_within(bytes.skip(9), le_value(bytes.subrange(1, 9)));
            }
        } else if bytes[0] == TAG_OBJECT {
            if bytes.len() >= 9 {
                lemma_parse_fields_within(bytes.skip(9), le_value(bytes.subrange(1, 9)));
            }
        }
    }
}

/// What is read takes no more bytes than there are, and is `count` items.
pub proof fn lemma_parse_items_within(bytes: Seq<u8>, count: nat)
    ensures
        parse_items(bytes, count) matches Some((items, n)) ==> 0 <= n <= bytes.len()
            && items.len() == count,
    decreases bytes.len(), 1nat, count,
{
    if count > 0 {
        match parse_value(bytes) {
            Some((item, n)) => {
                if 0 < n <= bytes.len() {
                    lemma_parse_items_within(bytes.skip(n), (count - 1) as nat);
                }
            },
            None => {},
        }
    }
}

/// What is read takes no more bytes than there are, and is `count` fields.
pub proof fn lemma_parse_fields_within(bytes: Seq<u8>, count: nat)
    ensures
        parse_fields(bytes, count) matches Some((fields, n)) ==> 0 <= n <= bytes.len()
            && fields.len() == count,
    decreases bytes.len(), 1nat, count,
{
    if count > 0 {
        match parse_text(bytes) {
            Some((name, k)) => {
                if 0 < k <= bytes.len() {
                    match parse_value(bytes.skip(k)) {
                        Some((value, n)) => {
                            if 0 < n <= bytes.len() - k {
                                lemma_parse_fields_within(
                                    bytes.skip(k + n),
                                    (count - 1) as nat,
                                );
                            }
                        },
                        None => {},
                    }
                }
            },
            None => {},
        }
    }
}

} // verus!
