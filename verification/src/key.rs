//! The cache key of a request: a 64-bit hash of the statement and its
//! parameters, written in decimal.
//!
//! What is hashed is the byte form of the statement, as a text, followed by
//! the byte form of the array of the parameters. Two requests are hashed
//! from the same bytes only if they are the same request; their keys can
//! still be the same, for the hash has only 64 bits.

use crate::codec::format::encode_spec;
use crate::codec::format::encode_text;
use crate::codec::format::text_fits;
use crate::codec::laws::lemma_encode_injective;
use crate::codec::laws::lemma_parse_text;
use crate::codec::writer::encode_array_into;
use crate::codec::writer::encode_text_into;
use crate::value::PostcardValue;
use crate::value::Tree;
use crate::value::trees;
use std::collections::hash_map::DefaultHasher;
use std::hash::Hasher;
use vstd::prelude::*;
use vstd::std_specs::hash::DefaultHasherAdditionalSpecFns;
use vstd::string::StringExecFns;

verus! {

/// The bytes that are hashed for a request: the statement, then the
/// parameters.
pub open spec fn key_material(sql: Seq<char>, params: Seq<Tree>) -> Seq<u8> {
    encode_text(sql) + encode_spec(Tree::Array(params))
}

/// Whether every length in the request is one that eight bytes hold. This
/// is so for every request that is held in memory.
pub open spec fn request_fits(sql: Seq<char>, params: Seq<Tree>) -> bool {
    text_fits(sql) && Tree::Array(params).fits()
}

/// The character of a decimal digit.
pub open spec fn digit_char(digit: nat) -> char {
    if digit == 0 {
        '0'
    } else if digit == 1 {
        '1'
    } else if digit == 2 {
        '2'
    } else if digit == 3 {
        '3'
    } else if digit == 4 {
        '4'
    } else if digit == 5 {
        '5'
    } else if digit == 6 {
        '6'
    } else if digit == 7 {
        '7'
    } else if digit == 8 {
        '8'
    } else {
        '9'
    }
}

/// A number in decimal, without leading zeros.
pub open spec fn decimal(n: nat) -> Seq<char>
    decreases n,
{
    if n < 10 {
        seq![digit_char(n)]
    } else {
        decimal(n / 10).push(digit_char(n % 10))
    }
}

/// The hash of a request.
pub open spec fn key_hash(sql: Seq<char>, params: Seq<Tree>) -> u64 {
    DefaultHasher::spec_finish(seq![key_material(sql, params)])
}

/// The cache key of a request.
pub open spec fn cache_key_of(sql: Seq<char>, params: Seq<Tree>) -> Seq<char> {
    decimal(key_hash(sql, params) as nat)
}

/// The text of one decimal digit.
fn digit_text(digit: u64) -> (text: &'static str)
    requires
        digit < 10,
    ensures
        text@ == seq![digit_char(digit as nat)],
{
    proof {
        reveal_strlit("0");
        reveal_strlit("1");
        reveal_strlit("2");
        reveal_strlit("3");
        reveal_strlit("4");
        reveal_strlit("5");
        reveal_strlit("6");
        reveal_strlit("7");
        reveal_strlit("8");
        reveal_strlit("9");
    }
    let text = if digit == 0 {
        "0"
    } else if digit == 1 {
        "1"
    } else if digit == 2 {
        "2"
    } else if digit == 3 {
        "3"
    } else if digit == 4 {
        "4"
    } else if digit == 5 {
        "5"
    } else if digit == 6 {
        "6"
    } else if digit == 7 {
        "7"
    } else if digit == 8 {
        "8"
    } else {
        "9"
    };
    text
}

/// Appends a number in decimal.
pub fn push_decimal(n: u64, out: &mut String)
    ensures
        final(out)@ == old(out)@ + decimal(n as nat),
    decreases n,
{
    if n >= 10 {
        push_decimal(n / 10, out);
    }
    out.append(digit_text(n % 10));
}

/// The bytes that are hashed for a request.
pub fn request_bytes(query: &str, params: &[PostcardValue]) -> (bytes: Vec<u8>)
    ensures
        bytes@ == key_material(query@, trees(params@)),
        request_fits(query@, trees(params@)),
{
    let mut bytes: Vec<u8> = Vec::new();
    encode_text_into(query, &mut bytes);
    encode_array_into(params, &mut bytes);
    bytes
}

/// Derives the cache key of a request from the statement and its parameters.
///
/// The key is a function of the two: the same request has the same key at
/// every call.
pub fn cache_key(query: &str, params: &[PostcardValue]) -> (key: String)
    ensures
        key@ == cache_key_of(query@, trees(params@)),
{
    let bytes = request_bytes(query, params);
    let mut hasher = DefaultHasher::new();
    hasher.write(bytes.as_slice());
    let hash = hasher.finish();
    let mut key = String::new();
    push_decimal(hash, &mut key);
    key
}

/// Requests with the same statement and the same parameters have the same key.
pub proof fn lemma_same_request_same_key(
    sql_a: Seq<char>,
    params_a: Seq<Tree>,
    sql_b: Seq<char>,
    params_b: Seq<Tree>,
)
    requires
        sql_a == sql_b,
        params_a == params_b,
    ensures
        cache_key_of(sql_a, params_a) == cache_key_of(sql_b, params_b),
{
}

/// Requests that are hashed from the same bytes are the same request: the
/// bytes hold the whole statement and every parameter with its type.
pub proof fn lemma_key_material_injective(
    sql_a: Seq<char>,
    params_a: Seq<Tree>,
    sql_b: Seq<char>,
    params_b: Seq<Tree>,
)
    requires
        request_fits(sql_a, params_a),
        request_fits(sql_b, params_b),
        key_material(sql_a, params_a) == key_material(sql_b, params_b),
    ensures
        sql_a == sql_b,
        params_a == params_b,
{
    let tail_a = encode_spec(Tree::Array(params_a));
    let tail_b = encode_spec(Tree::Array(params_b));
    let bytes = key_material(sql_a, params_a);
    lemma_parse_text(sql_a, tail_a);
    lemma_parse_text(sql_b, tail_b);
    assert(bytes.skip(encode_text(sql_a).len() as int) =~= tail_a);
    assert(bytes.skip(encode_text(sql_b).len() as int) =~= tail_b);
    lemma_encode_injective(Tree::Array(params_a), Tree::Array(params_b));
}

/// The last digit and the digits before it.
proof fn lemma_decimal_parts(n: nat)
    ensures
        decimal(n).len() >= 1,
        decimal(n).last() == digit_char(n % 10),
        n >= 10 ==> decimal(n).drop_last() == decimal(n / 10),
        n < 10 ==> decimal(n).len() == 1,
        n >= 10 ==> decimal(n).len() >= 2,
    decreases n,
{
    if n >= 10 {
        lemma_decimal_parts(n / 10);
        assert(decimal(n).drop_last() =~= decimal(n / 10));
    }
}

/// Numbers with the same decimal text are the same number.
pub proof fn lemma_decimal_injective(a: nat, b: nat)
    requires
        decimal(a) == decimal(b),
    ensures
        a == b,
    decreases a,
{
    lemma_decimal_parts(a);
    lemma_decimal_parts(b);
    if a >= 10 {
        lemma_decimal_injective(a / 10, b / 10);
    }
}

/// Two requests have the same key exactly if they have the same hash.
pub proof fn lemma_same_key_same_hash(
    sql_a: Seq<char>,
    params_a: Seq<Tree>,
    sql_b: Seq<char>,
    params_b: Seq<Tree>,
)
    ensures
        cache_key_of(sql_a, params_a) == cache_key_of(sql_b, params_b) <==> key_hash(
            sql_a,
            params_a,
        ) == key_hash(sql_b, params_b),
{
    if cache_key_of(sql_a, params_a) == cache_key_of(sql_b, params_b) {
        lemma_decimal_injective(
            key_hash(sql_a, params_a) as nat,
            key_hash(sql_b, params_b) as nat,
        );
    }
}

} // verus!
