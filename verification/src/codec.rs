//! The persisted document format, at the specification level.
//!
//! A document is a compact JSON rendering of the persisted fields: an array
//! of list objects `{"name":s,"items":[...]}` whose items are objects
//! `{"name":s,"is_done":b,"is_important":b}`, with no whitespace between
//! tokens and keys in that fixed order. `enc_document` says exactly which
//! bytes are written; `parse_document` says which byte strings are accepted
//! and what they mean. The parser accepts everything the encoder emits (see
//! `lemma_parse_enc_document`, the round-trip law) and is deliberately
//! strict about everything else: an unreadable document must surface as an
//! error rather than be guessed at.
//!
//! Label bytes are emitted raw except for the two JSON metacharacters and
//! control bytes; the parser additionally accepts the conventional short
//! escapes and arbitrary `\u00XX` escapes, so documents written with other
//! escape choices for the same data still load.

use vstd::arithmetic::div_mod::lemma_fundamental_div_mod;
use vstd::prelude::*;
use crate::docs::{ItemDoc, ListDoc};

verus! {

// ---------------------------------------------------------------------
// Fixed token byte strings.
// ---------------------------------------------------------------------
/// `{"name":`
pub open spec fn lit_obj_name() -> Seq<u8> {
    seq![123u8, 34, 110, 97, 109, 101, 34, 58]
}

/// `,"is_done":`
pub open spec fn lit_is_done() -> Seq<u8> {
    seq![44u8, 34, 105, 115, 95, 100, 111, 110, 101, 34, 58]
}

/// `,"is_important":`
pub open spec fn lit_is_important() -> Seq<u8> {
    seq![44u8, 34, 105, 115, 95, 105, 109, 112, 111, 114, 116, 97, 110, 116, 34, 58]
}

/// `,"items":`
pub open spec fn lit_items_key() -> Seq<u8> {
    seq![44u8, 34, 105, 116, 101, 109, 115, 34, 58]
}

/// `true`
pub open spec fn lit_true() -> Seq<u8> {
    seq![116u8, 114, 117, 101]
}

/// `false`
pub open spec fn lit_false() -> Seq<u8> {
    seq![102u8, 97, 108, 115, 101]
}

// ---------------------------------------------------------------------
// Encoding.
// ---------------------------------------------------------------------
/// The lower-case hex digit for `n < 16`.
pub open spec fn hex_digit(n: int) -> u8 {
    if n < 10 {
        (48 + n) as u8
    } else {
        (87 + n) as u8
    }
}

/// How one label byte is written inside a JSON string: quote and backslash
/// get a backslash escape, control bytes a `\u00XX` escape, everything else
/// stands as itself.
pub open spec fn esc_byte(b: u8) -> Seq<u8> {
    if b == 34 {
        seq![92u8, 34]
    } else if b == 92 {
        seq![92u8, 92]
    } else if b < 32 {
        seq![92u8, 117, 48, 48, hex_digit(b as int / 16), hex_digit(b as int % 16)]
    } else {
        seq![b]
    }
}

/// The bytes of a JSON string body (between the quotes).
pub open spec fn enc_str_body(s: Seq<u8>) -> Seq<u8>
    decreases s.len(),
{
    if s.len() == 0 {
        Seq::empty()
    } else {
        esc_byte(s[0]) + enc_str_body(s.drop_first())
    }
}

/// A quoted JSON string.
pub open spec fn enc_str(s: Seq<u8>) -> Seq<u8> {
    seq![34u8] + enc_str_body(s) + seq![34u8]
}

/// A JSON boolean.
pub open spec fn enc_bool(b: bool) -> Seq<u8> {
    if b {
        lit_true()
    } else {
        lit_false()
    }
}

/// An item object.
pub open spec fn enc_item(d: ItemDoc) -> Seq<u8> {
    lit_obj_name() + enc_str(d.name) + lit_is_done() + enc_bool(d.is_done) + lit_is_important()
        + enc_bool(d.is_important) + seq![125u8]
}

/// The items after the first: each preceded by a comma.
pub open spec fn enc_items_rest(ds: Seq<ItemDoc>) -> Seq<u8>
    decreases ds.len(),
{
    if ds.len() == 0 {
        Seq::empty()
    } else {
        seq![44u8] + enc_item(ds[0]) + enc_items_rest(ds.drop_first())
    }
}

/// A JSON array of item objects.
pub open spec fn enc_item_array(ds: Seq<ItemDoc>) -> Seq<u8> {
    if ds.len() == 0 {
        seq![91u8, 93]
    } else {
        seq![91u8] + enc_item(ds[0]) + enc_items_rest(ds.drop_first()) + seq![93u8]
    }
}

/// A list object.
pub open spec fn enc_list(d: ListDoc) -> Seq<u8> {
    lit_obj_name() + enc_str(d.name) + lit_items_key() + enc_item_array(d.items) + seq![125u8]
}

/// The lists after the first: each preceded by a comma.
pub open spec fn enc_lists_rest(ds: Seq<ListDoc>) -> Seq<u8>
    decreases ds.len(),
{
    if ds.len() == 0 {
        Seq::empty()
    } else {
        seq![44u8] + enc_list(ds[0]) + enc_lists_rest(ds.drop_first())
    }
}

/// The whole document: a JSON array of list objects.
pub open spec fn enc_document(ds: Seq<ListDoc>) -> Seq<u8> {
    if ds.len() == 0 {
        seq![91u8, 93]
    } else {
        seq![91u8] + enc_list(ds[0]) + enc_lists_rest(ds.drop_first()) + seq![93u8]
    }
}

// ---------------------------------------------------------------------
// Parsing. Each function consumes a prefix of `s` and yields the value and
// the remaining suffix, or nothing when `s` does not start with the
// expected shape.
// ---------------------------------------------------------------------
/// The value of a hex digit byte, either case.
pub open spec fn hex_val(b: u8) -> Option<u8> {
    if 48 <= b && b <= 57 {
        Some((b - 48) as u8)
    } else if 97 <= b && b <= 102 {
        Some((b - 87) as u8)
    } else if 65 <= b && b <= 70 {
        Some((b - 55) as u8)
    } else {
        None
    }
}

/// The byte meant by a single-character escape `\x`, if `x` is one.
pub open spec fn short_escape(e: u8) -> Option<u8> {
    if e == 34 {
        Some(34u8)
    } else if e == 92 {
        Some(92u8)
    } else if e == 47 {
        Some(47u8)
    } else if e == 98 {
        Some(8u8)
    } else if e == 116 {
        Some(9u8)
    } else if e == 110 {
        Some(10u8)
    } else if e == 102 {
        Some(12u8)
    } else if e == 114 {
        Some(13u8)
    } else {
        None
    }
}

/// Consumes `lit` from the front of `s`.
pub open spec fn parse_lit(s: Seq<u8>, lit: Seq<u8>) -> Option<Seq<u8>> {
    if lit.len() <= s.len() && s.take(lit.len() as int) == lit {
        Some(s.skip(lit.len() as int))
    } else {
        None
    }
}

/// Consumes a string body up to and including the closing quote. Control
/// bytes must be escaped; escapes are the short ones and `\u00XX`.
pub open spec fn parse_str_body(s: Seq<u8>) -> Option<(Seq<u8>, Seq<u8>)>
    decreases s.len(),
{
    if s.len() == 0 {
        None
    } else if s[0] == 34 {
        Some((Seq::empty(), s.drop_first()))
    } else if s[0] == 92 {
        if s.len() < 2 {
            None
        } else {
            match short_escape(s[1]) {
                Some(b) => match parse_str_body(s.skip(2)) {
                    Some(p) => Some((seq![b] + p.0, p.1)),
                    None => None,
                },
                None => if s[1] == 117 {
                    if s.len() < 6 {
                        None
                    } else if s[2] == 48 && s[3] == 48 {
                        match (hex_val(s[4]), hex_val(s[5])) {
                            (Some(h), Some(l)) => match parse_str_body(s.skip(6)) {
                                Some(p) => Some((seq![(16 * h + l) as u8] + p.0, p.1)),
                                None => None,
                            },
                            _ => None,
                        }
                    } else {
                        None
                    }
                } else {
                    None
                },
            }
        }
    } else if s[0] < 32 {
        None
    } else {
        match parse_str_body(s.drop_first()) {
            Some(p) => Some((seq![s[0]] + p.0, p.1)),
            None => None,
        }
    }
}

/// Consumes a quoted JSON string.
pub open spec fn parse_str(s: Seq<u8>) -> Option<(Seq<u8>, Seq<u8>)> {
    if s.len() > 0 && s[0] == 34 {
        parse_str_body(s.drop_first())
    } else {
        None
    }
}

/// Consumes `true` or `false`.
pub open spec fn parse_bool(s: Seq<u8>) -> Option<(bool, Seq<u8>)> {
    match parse_lit(s, lit_true()) {
        Some(r) => Some((true, r)),
        None => match parse_lit(s, lit_false()) {
            Some(r) => Some((false, r)),
            None => None,
        },
    }
}

/// Consumes one item object.
pub open spec fn parse_item(s: Seq<u8>) -> Option<(ItemDoc, Seq<u8>)> {
    match parse_lit(s, lit_obj_name()) {
        Some(s1) => match parse_str(s1) {
            Some(pn) => match parse_lit(pn.1, lit_is_done()) {
                Some(s2) => match parse_bool(s2) {
                    Some(pd) => match parse_lit(pd.1, lit_is_important()) {
                        Some(s3) => match parse_bool(s3) {
                            Some(pi) => match parse_lit(pi.1, seq![125u8]) {
                                Some(s4) => Some(
                                    (
                                        ItemDoc {
                                            name: pn.0,
                                            is_done: pd.0,
                                            is_important: pi.0,
                                        },
                                        s4,
                                    ),
                                ),
                                None => None,
                            },
                            None => None,
                        },
                        None => None,
                    },
                    None => None,
                },
                None => None,
            },
            None => None,
        },
        None => None,
    }
}

/// A successful string-body parse consumes at least the closing quote.
pub proof fn lemma_parse_str_body_progress(s: Seq<u8>)
    ensures
        parse_str_body(s) matches Some(p) ==> p.1.len() < s.len(),
    decreases s.len(),
{
    if s.len() == 0 {
    } else if s[0] == 34 {
    } else if s[0] == 92 {
        if s.len() >= 2 {
            match short_escape(s[1]) {
                Some(b) => {
                    lemma_parse_str_body_progress(s.skip(2));
                },
                None => {
                    if s[1] == 117 && s.len() >= 6 {
                        lemma_parse_str_body_progress(s.skip(6));
                    }
                },
            }
        }
    } else if s[0] < 32 {
    } else {
        lemma_parse_str_body_progress(s.drop_first());
    }
}

/// A successful string parse consumes at least the two quotes.
pub proof fn lemma_parse_str_progress(s: Seq<u8>)
    ensures
        parse_str(s) matches Some(p) ==> p.1.len() + 2 <= s.len(),
{
    if s.len() > 0 && s[0] == 34 {
        lemma_parse_str_body_progress(s.drop_first());
    }
}

/// A successful item parse consumes at least one byte.
pub proof fn lemma_parse_item_progress(s: Seq<u8>)
    ensures
        parse_item(s) matches Some(p) ==> p.1.len() < s.len(),
{
    match parse_lit(s, lit_obj_name()) {
        Some(s1) => {
            lemma_parse_str_progress(s1);
        },
        None => {},
    }
}

/// Consumes item array elements from the first comma or closing bracket on.
pub open spec fn parse_items_more(s: Seq<u8>) -> Option<(Seq<ItemDoc>, Seq<u8>)>
    decreases s.len(),
{
    if s.len() == 0 {
        None
    } else if s[0] == 93 {
        Some((Seq::empty(), s.drop_first()))
    } else if s[0] == 44 {
        match parse_item(s.drop_first()) {
            Some(p) => {
                proof {
                    lemma_parse_item_progress(s.drop_first());
                }
                match parse_items_more(p.1) {
                    Some(q) => Some((seq![p.0] + q.0, q.1)),
                    None => None,
                }
            },
            None => None,
        }
    } else {
        None
    }
}

/// Consumes a whole item array, brackets included.
pub open spec fn parse_item_array(s: Seq<u8>) -> Option<(Seq<ItemDoc>, Seq<u8>)> {
    match parse_lit(s, seq![91u8]) {
        Some(s1) => if s1.len() > 0 && s1[0] == 93 {
            Some((Seq::empty(), s1.drop_first()))
        } else {
            match parse_item(s1) {
                Some(p) => match parse_items_more(p.1) {
                    Some(q) => Some((seq![p.0] + q.0, q.1)),
                    None => None,
                },
                None => None,
            }
        },
        None => None,
    }
}

/// Consumes one list object.
pub open spec fn parse_list(s: Seq<u8>) -> Option<(ListDoc, Seq<u8>)> {
    match parse_lit(s, lit_obj_name()) {
        Some(s1) => match parse_str(s1) {
            Some(pn) => match parse_lit(pn.1, lit_items_key()) {
                Some(s2) => match parse_item_array(s2) {
                    Some(pa) => match parse_lit(pa.1, seq![125u8]) {
                        Some(s3) => Some((ListDoc { name: pn.0, items: pa.0 }, s3)),
                        None => None,
                    },
                    None => None,
                },
                None => None,
            },
            None => None,
        },
        None => None,
    }
}

/// A successful item-array parse consumes at least one byte.
pub proof fn lemma_parse_item_array_progress(s: Seq<u8>)
    ensures
        parse_item_array(s) matches Some(p) ==> p.1.len() < s.len(),
    decreases s.len(),
{
    match parse_lit(s, seq![91u8]) {
        Some(s1) => {
            if s1.len() > 0 && s1[0] == 93 {
            } else {
                match parse_item(s1) {
                    Some(p) => {
                        lemma_parse_item_progress(s1);
                        lemma_parse_items_more_progress(p.1);
                    },
                    None => {},
                }
            }
        },
        None => {},
    }
}

/// A successful items-more parse consumes at least one byte.
pub proof fn lemma_parse_items_more_progress(s: Seq<u8>)
    ensures
        parse_items_more(s) matches Some(p) ==> p.1.len() < s.len(),
    decreases s.len(),
{
    if s.len() == 0 {
    } else if s[0] == 93 {
    } else if s[0] == 44 {
        match parse_item(s.drop_first()) {
            Some(p) => {
                lemma_parse_item_progress(s.drop_first());
                lemma_parse_items_more_progress(p.1);
            },
            None => {},
        }
    }
}

/// A successful list parse consumes at least one byte.
pub proof fn lemma_parse_list_progress(s: Seq<u8>)
    ensures
        parse_list(s) matches Some(p) ==> p.1.len() < s.len(),
{
    match parse_lit(s, lit_obj_name()) {
        Some(s1) => {
            lemma_parse_str_progress(s1);
            match parse_str(s1) {
                Some(pn) => {
                    match parse_lit(pn.1, lit_items_key()) {
                        Some(s2) => {
                            lemma_parse_item_array_progress(s2);
                        },
                        None => {},
                    }
                },
                None => {},
            }
        },
        None => {},
    }
}

/// Consumes list array elements from the first comma or closing bracket on.
pub open spec fn parse_lists_more(s: Seq<u8>) -> Option<(Seq<ListDoc>, Seq<u8>)>
    decreases s.len(),
{
    if s.len() == 0 {
        None
    } else if s[0] == 93 {
        Some((Seq::empty(), s.drop_first()))
    } else if s[0] == 44 {
        match parse_list(s.drop_first()) {
            Some(p) => {
                proof {
                    lemma_parse_list_progress(s.drop_first());
                }
                match parse_lists_more(p.1) {
                    Some(q) => Some((seq![p.0] + q.0, q.1)),
                    None => None,
                }
            },
            None => None,
        }
    } else {
        None
    }
}

/// Consumes a whole list array, brackets included.
pub open spec fn parse_list_array(s: Seq<u8>) -> Option<(Seq<ListDoc>, Seq<u8>)> {
    match parse_lit(s, seq![91u8]) {
        Some(s1) => if s1.len() > 0 && s1[0] == 93 {
            Some((Seq::empty(), s1.drop_first()))
        } else {
            match parse_list(s1) {
                Some(p) => match parse_lists_more(p.1) {
                    Some(q) => Some((seq![p.0] + q.0, q.1)),
                    None => None,
                },
                None => None,
            }
        },
        None => None,
    }
}

/// The meaning of a whole document: a list array with nothing after it.
pub open spec fn parse_document(s: Seq<u8>) -> Option<Seq<ListDoc>> {
    match parse_list_array(s) {
        Some(p) => if p.1.len() == 0 {
            Some(p.0)
        } else {
            None
        },
        None => None,
    }
}

// ---------------------------------------------------------------------
// The round trip: everything the encoder writes, the parser reads back
// unchanged.
// ---------------------------------------------------------------------
/// A literal consumes exactly itself.
pub proof fn lemma_parse_lit_of(lit: Seq<u8>, rest: Seq<u8>)
    ensures
        parse_lit(lit + rest, lit) == Some(rest),
{
    let s = lit + rest;
    assert(s.take(lit.len() as int) =~= lit);
    assert(s.skip(lit.len() as int) =~= rest);
}

/// Concatenation of byte strings is associative.
pub proof fn lemma_add_assoc(a: Seq<u8>, b: Seq<u8>, c: Seq<u8>)
    ensures
        (a + b) + c == a + (b + c),
{
    assert((a + b) + c =~= a + (b + c));
}

/// An encoded string body parses back to the original bytes.
pub proof fn lemma_parse_enc_str_body(v: Seq<u8>, rest: Seq<u8>)
    ensures
        parse_str_body(enc_str_body(v) + seq![34u8] + rest) == Some((v, rest)),
    decreases v.len(),
{
    let s = enc_str_body(v) + seq![34u8] + rest;
    if v.len() == 0 {
        assert(s =~= seq![34u8] + rest);
        assert(s.drop_first() =~= rest);
    } else {
        let b = v[0];
        let tail = enc_str_body(v.drop_first()) + seq![34u8] + rest;
        lemma_parse_enc_str_body(v.drop_first(), rest);
        assert(s =~= esc_byte(b) + tail);
        if b == 34 {
            assert(s[0] == 92 && s[1] == 34);
            assert(s.skip(2) =~= tail);
            assert(seq![34u8] + v.drop_first() =~= v);
        } else if b == 92 {
            assert(s[0] == 92 && s[1] == 92);
            assert(s.skip(2) =~= tail);
            assert(seq![92u8] + v.drop_first() =~= v);
        } else if b < 32 {
            let h = b as int / 16;
            let l = b as int % 16;
            lemma_fundamental_div_mod(b as int, 16);
            assert(s[0] == 92 && s[1] == 117 && s[2] == 48 && s[3] == 48);
            assert(s[4] == hex_digit(h) && s[5] == hex_digit(l));
            assert(short_escape(117u8) is None);
            assert(s.skip(6) =~= tail);
            assert(0 <= h < 2);
            assert(0 <= l < 16);
            assert(hex_val(hex_digit(h)) == Some(h as u8));
            assert(hex_val(hex_digit(l)) == Some(l as u8));
            assert((16 * (h as u8) + (l as u8)) as u8 == b);
            assert(seq![b] + v.drop_first() =~= v);
        } else {
            assert(s[0] == b);
            assert(s.drop_first() =~= tail);
            assert(seq![b] + v.drop_first() =~= v);
        }
    }
}

/// An encoded string parses back to the original bytes.
pub proof fn lemma_parse_enc_str(v: Seq<u8>, rest: Seq<u8>)
    ensures
        parse_str(enc_str(v) + rest) == Some((v, rest)),
{
    let s = enc_str(v) + rest;
    assert(s =~= seq![34u8] + (enc_str_body(v) + seq![34u8] + rest));
    assert(s[0] == 34);
    assert(s.drop_first() =~= enc_str_body(v) + seq![34u8] + rest);
    lemma_parse_enc_str_body(v, rest);
}

/// An encoded boolean parses back to itself.
pub proof fn lemma_parse_enc_bool(b: bool, rest: Seq<u8>)
    ensures
        parse_bool(enc_bool(b) + rest) == Some((b, rest)),
{
    if b {
        lemma_parse_lit_of(lit_true(), rest);
    } else {
        let s = lit_false() + rest;
        if parse_lit(s, lit_true()) is Some {
            assert(s.take(lit_true().len() as int) == lit_true());
            assert(s.take(lit_true().len() as int)[0] == s[0]);
            assert(false);
        }
        lemma_parse_lit_of(lit_false(), rest);
    }
}

/// An encoded item object parses back to the original item document.
pub proof fn lemma_parse_enc_item(d: ItemDoc, rest: Seq<u8>)
    ensures
        parse_item(enc_item(d) + rest) == Some((d, rest)),
{
    let t6 = seq![125u8] + rest;
    let t5 = enc_bool(d.is_important) + t6;
    let t4 = lit_is_important() + t5;
    let t3 = enc_bool(d.is_done) + t4;
    let t2 = lit_is_done() + t3;
    let t1 = enc_str(d.name) + t2;
    let s = enc_item(d) + rest;
    assert(s =~= lit_obj_name() + t1);
    lemma_parse_lit_of(lit_obj_name(), t1);
    lemma_parse_enc_str(d.name, t2);
    lemma_parse_lit_of(lit_is_done(), t3);
    lemma_parse_enc_bool(d.is_done, t4);
    lemma_parse_lit_of(lit_is_important(), t5);
    lemma_parse_enc_bool(d.is_important, t6);
    lemma_parse_lit_of(seq![125u8], rest);
    assert(ItemDoc { name: d.name, is_done: d.is_done, is_important: d.is_important } == d);
}

/// The first byte of an encoded item object is `{`.
pub proof fn lemma_enc_item_first_byte(d: ItemDoc)
    ensures
        enc_item(d).len() > 0,
        enc_item(d)[0] == 123,
{
    assert(enc_item(d) =~= lit_obj_name() + (enc_str(d.name) + lit_is_done() + enc_bool(d.is_done)
        + lit_is_important() + enc_bool(d.is_important) + seq![125u8]));
}

/// Encoded item-array continuations parse back to the original documents.
pub proof fn lemma_parse_enc_items_more(ds: Seq<ItemDoc>, rest: Seq<u8>)
    ensures
        parse_items_more(enc_items_rest(ds) + seq![93u8] + rest) == Some((ds, rest)),
    decreases ds.len(),
{
    let s = enc_items_rest(ds) + seq![93u8] + rest;
    if ds.len() == 0 {
        assert(s =~= seq![93u8] + rest);
        assert(s.drop_first() =~= rest);
        assert(Seq::<ItemDoc>::empty() =~= ds);
    } else {
        let tail = enc_items_rest(ds.drop_first()) + seq![93u8] + rest;
        assert(s =~= seq![44u8] + (enc_item(ds[0]) + tail));
        assert(s[0] == 44);
        assert(s.drop_first() =~= enc_item(ds[0]) + tail);
        lemma_parse_enc_item(ds[0], tail);
        lemma_parse_enc_items_more(ds.drop_first(), rest);
        assert(seq![ds[0]] + ds.drop_first() =~= ds);
    }
}

/// An encoded item array parses back to the original documents.
#[verifier::rlimit(50)]
pub proof fn lemma_parse_enc_item_array(ds: Seq<ItemDoc>, rest: Seq<u8>)
    ensures
        parse_item_array(enc_item_array(ds) + rest) == Some((ds, rest)),
{
    let s = enc_item_array(ds) + rest;
    if ds.len() == 0 {
        let s1 = seq![93u8] + rest;
        assert(s.take(1) =~= seq![91u8]);
        assert(s.skip(1) =~= s1);
        assert(parse_lit(s, seq![91u8]) == Some(s1));
        assert(s1.drop_first() =~= rest);
        assert(Seq::<ItemDoc>::empty() =~= ds);
    } else {
        let a = enc_item(ds[0]);
        let b = enc_items_rest(ds.drop_first());
        let c = seq![93u8] + rest;
        let tail = b + seq![93u8] + rest;
        lemma_add_assoc(b, seq![93u8], rest);
        let s1 = a + tail;
        lemma_add_assoc(seq![91u8] + a + b, seq![93u8], rest);
        lemma_add_assoc(seq![91u8] + a, b, c);
        lemma_add_assoc(seq![91u8], a, b + c);
        assert(s == seq![91u8] + s1);
        lemma_parse_lit_of(seq![91u8], s1);
        lemma_enc_item_first_byte(ds[0]);
        assert(s1[0] == 123);
        lemma_parse_enc_item(ds[0], tail);
        lemma_parse_enc_items_more(ds.drop_first(), rest);
        assert(seq![ds[0]] + ds.drop_first() =~= ds);
    }
}

/// An encoded list object parses back to the original list document.
pub proof fn lemma_parse_enc_list(d: ListDoc, rest: Seq<u8>)
    ensures
        parse_list(enc_list(d) + rest) == Some((d, rest)),
{
    let t4 = seq![125u8] + rest;
    let t3 = enc_item_array(d.items) + t4;
    let t2 = lit_items_key() + t3;
    let t1 = enc_str(d.name) + t2;
    let s = enc_list(d) + rest;
    assert(s =~= lit_obj_name() + t1);
    lemma_parse_lit_of(lit_obj_name(), t1);
    lemma_parse_enc_str(d.name, t2);
    lemma_parse_lit_of(lit_items_key(), t3);
    lemma_parse_enc_item_array(d.items, t4);
    lemma_parse_lit_of(seq![125u8], rest);
    assert(ListDoc { name: d.name, items: d.items } == d);
}

/// The first byte of an encoded list object is `{`.
pub proof fn lemma_enc_list_first_byte(d: ListDoc)
    ensures
        enc_list(d).len() > 0,
        enc_list(d)[0] == 123,
{
    assert(enc_list(d) =~= lit_obj_name() + (enc_str(d.name) + lit_items_key() + enc_item_array(
        d.items,
    ) + seq![125u8]));
}

/// Encoded list-array continuations parse back to the original documents.
#[verifier::rlimit(50)]
pub proof fn lemma_parse_enc_lists_more(ds: Seq<ListDoc>, rest: Seq<u8>)
    ensures
        parse_lists_more(enc_lists_rest(ds) + seq![93u8] + rest) == Some((ds, rest)),
    decreases ds.len(),
{
    let s = enc_lists_rest(ds) + seq![93u8] + rest;
    if ds.len() == 0 {
        assert(s =~= seq![93u8] + rest);
        assert(s.drop_first() =~= rest);
        assert(Seq::<ListDoc>::empty() =~= ds);
    } else {
        let tail = enc_lists_rest(ds.drop_first()) + seq![93u8] + rest;
        assert(s =~= seq![44u8] + (enc_list(ds[0]) + tail));
        assert(s[0] == 44);
        assert(s.drop_first() =~= enc_list(ds[0]) + tail);
        lemma_parse_enc_list(ds[0], tail);
        lemma_parse_enc_lists_more(ds.drop_first(), rest);
        assert(seq![ds[0]] + ds.drop_first() =~= ds);
    }
}

/// An encoded empty list array parses back to no documents.
proof fn lemma_parse_enc_list_array_empty(ds: Seq<ListDoc>, rest: Seq<u8>)
    requires
        ds.len() == 0,
    ensures
        parse_list_array(enc_document(ds) + rest) == Some((ds, rest)),
{
    let s = enc_document(ds) + rest;
    let s1 = seq![93u8] + rest;
    assert(s.take(1) =~= seq![91u8]);
    assert(s.skip(1) =~= s1);
    assert(parse_lit(s, seq![91u8]) == Some(s1));
    assert(s1.drop_first() =~= rest);
    assert(Seq::<ListDoc>::empty() =~= ds);
}

/// An encoded nonempty list array parses back to the original documents.
#[verifier::rlimit(100)]
proof fn lemma_parse_enc_list_array_cons(ds: Seq<ListDoc>, rest: Seq<u8>)
    requires
        ds.len() > 0,
    ensures
        parse_list_array(enc_document(ds) + rest) == Some((ds, rest)),
{
    let s = enc_document(ds) + rest;
    let a = enc_list(ds[0]);
    let b = enc_lists_rest(ds.drop_first());
    let c = seq![93u8] + rest;
    let tail = b + seq![93u8] + rest;
    lemma_add_assoc(b, seq![93u8], rest);
    let s1 = a + tail;
    lemma_add_assoc(seq![91u8] + a + b, seq![93u8], rest);
    lemma_add_assoc(seq![91u8] + a, b, c);
    lemma_add_assoc(seq![91u8], a, b + c);
    assert(s == seq![91u8] + s1);
    lemma_parse_lit_of(seq![91u8], s1);
    lemma_enc_list_first_byte(ds[0]);
    assert(s1[0] == 123);
    lemma_parse_enc_list(ds[0], tail);
    lemma_parse_enc_lists_more(ds.drop_first(), rest);
    assert(seq![ds[0]] + ds.drop_first() =~= ds);
}

/// An encoded list array parses back to the original documents.
pub proof fn lemma_parse_enc_list_array(ds: Seq<ListDoc>, rest: Seq<u8>)
    ensures
        parse_list_array(enc_document(ds) + rest) == Some((ds, rest)),
{
    if ds.len() == 0 {
        lemma_parse_enc_list_array_empty(ds, rest);
    } else {
        lemma_parse_enc_list_array_cons(ds, rest);
    }
}

// ---------------------------------------------------------------------
// Concatenation laws of the encoder, used by the imperative writer.
// ---------------------------------------------------------------------
/// String bodies encode piecewise.
pub proof fn lemma_enc_str_body_app(a: Seq<u8>, b: Seq<u8>)
    ensures
        enc_str_body(a + b) == enc_str_body(a) + enc_str_body(b),
    decreases a.len(),
{
    if a.len() == 0 {
        assert(a + b =~= b);
        assert(enc_str_body(a) + enc_str_body(b) =~= enc_str_body(b));
    } else {
        assert((a + b).drop_first() =~= a.drop_first() + b);
        lemma_enc_str_body_app(a.drop_first(), b);
        lemma_add_assoc(esc_byte(a[0]), enc_str_body(a.drop_first()), enc_str_body(b));
        assert((a + b)[0] == a[0]);
    }
}

/// Extending the encoded prefix of a string by one byte appends its escape.
pub proof fn lemma_enc_str_body_snoc(s: Seq<u8>, i: int)
    requires
        0 <= i < s.len(),
    ensures
        enc_str_body(s.take(i + 1)) == enc_str_body(s.take(i)) + esc_byte(s[i]),
{
    assert(s.take(i + 1) =~= s.take(i) + seq![s[i]]);
    lemma_enc_str_body_app(s.take(i), seq![s[i]]);
    assert(seq![s[i]].drop_first() =~= Seq::<u8>::empty());
    assert(enc_str_body(Seq::<u8>::empty()) == Seq::<u8>::empty());
    assert(enc_str_body(seq![s[i]]) =~= esc_byte(s[i]));
}

/// Item-array continuations encode piecewise.
pub proof fn lemma_enc_items_rest_app(a: Seq<ItemDoc>, b: Seq<ItemDoc>)
    ensures
        enc_items_rest(a + b) == enc_items_rest(a) + enc_items_rest(b),
    decreases a.len(),
{
    if a.len() == 0 {
        assert(a + b =~= b);
        assert(enc_items_rest(a) + enc_items_rest(b) =~= enc_items_rest(b));
    } else {
        assert((a + b).drop_first() =~= a.drop_first() + b);
        lemma_enc_items_rest_app(a.drop_first(), b);
        lemma_add_assoc(
            seq![44u8] + enc_item(a[0]),
            enc_items_rest(a.drop_first()),
            enc_items_rest(b),
        );
        assert((a + b)[0] == a[0]);
    }
}

/// Extending an item-array continuation by one document appends a comma and
/// the encoded item.
pub proof fn lemma_enc_items_rest_snoc(ds: Seq<ItemDoc>, lo: int, i: int)
    requires
        0 <= lo <= i < ds.len(),
    ensures
        enc_items_rest(ds.subrange(lo, i + 1)) == enc_items_rest(ds.subrange(lo, i)) + (seq![44u8]
            + enc_item(ds[i])),
{
    assert(ds.subrange(lo, i + 1) =~= ds.subrange(lo, i) + seq![ds[i]]);
    lemma_enc_items_rest_app(ds.subrange(lo, i), seq![ds[i]]);
    assert(seq![ds[i]].drop_first() =~= Seq::<ItemDoc>::empty());
    assert(enc_items_rest(Seq::<ItemDoc>::empty()) == Seq::<u8>::empty());
    assert(enc_items_rest(seq![ds[i]]) =~= seq![44u8] + enc_item(ds[i]));
}

/// List-array continuations encode piecewise.
pub proof fn lemma_enc_lists_rest_app(a: Seq<ListDoc>, b: Seq<ListDoc>)
    ensures
        enc_lists_rest(a + b) == enc_lists_rest(a) + enc_lists_rest(b),
    decreases a.len(),
{
    if a.len() == 0 {
        assert(a + b =~= b);
        assert(enc_lists_rest(a) + enc_lists_rest(b) =~= enc_lists_rest(b));
    } else {
        assert((a + b).drop_first() =~= a.drop_first() + b);
        lemma_enc_lists_rest_app(a.drop_first(), b);
        lemma_add_assoc(
            seq![44u8] + enc_list(a[0]),
            enc_lists_rest(a.drop_first()),
            enc_lists_rest(b),
        );
        assert((a + b)[0] == a[0]);
    }
}

/// Extending a list-array continuation by one document appends a comma and
/// the encoded list.
pub proof fn lemma_enc_lists_rest_snoc(ds: Seq<ListDoc>, lo: int, i: int)
    requires
        0 <= lo <= i < ds.len(),
    ensures
        enc_lists_rest(ds.subrange(lo, i + 1)) == enc_lists_rest(ds.subrange(lo, i)) + (seq![44u8]
            + enc_list(ds[i])),
{
    assert(ds.subrange(lo, i + 1) =~= ds.subrange(lo, i) + seq![ds[i]]);
    lemma_enc_lists_rest_app(ds.subrange(lo, i), seq![ds[i]]);
    assert(seq![ds[i]].drop_first() =~= Seq::<ListDoc>::empty());
    assert(enc_lists_rest(Seq::<ListDoc>::empty()) == Seq::<u8>::empty());
    assert(enc_lists_rest(seq![ds[i]]) =~= seq![44u8] + enc_list(ds[i]));
}

/// Round-trip law: a saved document loads back to exactly the collection it
/// was saved from.
pub proof fn lemma_parse_enc_document(ds: Seq<ListDoc>)
    ensures
        parse_document(enc_document(ds)) == Some(ds),
{
    lemma_parse_enc_list_array(ds, Seq::empty());
    assert(enc_document(ds) + Seq::<u8>::empty() =~= enc_document(ds));
}

} // verus!
