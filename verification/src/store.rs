//! Reading and writing the persisted document, as bytes.
//!
//! `save` renders a collection of lists into exactly the bytes that
//! `codec::enc_document` describes; `decode_document` reads bytes back,
//! accepting exactly what `codec::parse_document` describes, and `load`
//! adds the first-run rule: no file at all means an empty collection.
//! The caller does the file I/O and hands bytes in and out.

use vstd::prelude::*;
use crate::codec::{
    enc_document, enc_item, enc_item_array, enc_list, enc_str, enc_str_body, hex_digit,
    hex_val, lemma_enc_items_rest_snoc, lemma_enc_lists_rest_snoc, lemma_enc_str_body_snoc,
    lit_false, lit_is_done, lit_is_important, lit_items_key, lit_obj_name, lit_true, parse_bool,
    parse_document, parse_item, parse_item_array, parse_items_more, parse_list, parse_list_array,
    parse_lists_more, parse_lit, parse_str, parse_str_body, short_escape,
};
use crate::docs::{
    docs_of, item_doc, items_docs, lemma_docs_of_push, lemma_items_docs_push, list_doc, ItemDoc,
    ListDoc,
};
use crate::model::{item_fresh, list_fresh, EditState, Item, List};

verus! {

/// Appends `{"name":`.
fn push_obj_name(out: &mut Vec<u8>)
    ensures
        final(out)@ == old(out)@ + lit_obj_name(),
{
    out.push(123);
    out.push(34);
    out.push(110);
    out.push(97);
    out.push(109);
    out.push(101);
    out.push(34);
    out.push(58);
    proof {
        assert(out@ =~= old(out)@ + lit_obj_name());
    }
}

/// Appends `,"is_done":`.
fn push_is_done(out: &mut Vec<u8>)
    ensures
        final(out)@ == old(out)@ + lit_is_done(),
{
    out.push(44);
    out.push(34);
    out.push(105);
    out.push(115);
    out.push(95);
    out.push(100);
    out.push(111);
    out.push(110);
    out.push(101);
    out.push(34);
    out.push(58);
    proof {
        assert(out@ =~= old(out)@ + lit_is_done());
    }
}

/// Appends `,"is_important":`.
fn push_is_important(out: &mut Vec<u8>)
    ensures
        final(out)@ == old(out)@ + lit_is_important(),
{
    out.push(44);
    out.push(34);
    out.push(105);
    out.push(115);
    out.push(95);
    out.push(105);
    out.push(109);
    out.push(112);
    out.push(111);
    out.push(114);
    out.push(116);
    out.push(97);
    out.push(110);
    out.push(116);
    out.push(34);
    out.push(58);
    proof {
        assert(out@ =~= old(out)@ + lit_is_important());
    }
}

/// Appends `,"items":`.
fn push_items_key(out: &mut Vec<u8>)
    ensures
        final(out)@ == old(out)@ + lit_items_key(),
{
    out.push(44);
    out.push(34);
    out.push(105);
    out.push(116);
    out.push(101);
    out.push(109);
    out.push(115);
    out.push(34);
    out.push(58);
    proof {
        assert(out@ =~= old(out)@ + lit_items_key());
    }
}

/// Appends `true` or `false`.
fn push_bool(out: &mut Vec<u8>, b: bool)
    ensures
        final(out)@ == old(out)@ + crate::codec::enc_bool(b),
{
    if b {
        out.push(116);
        out.push(114);
        out.push(117);
        out.push(101);
        proof {
            assert(out@ =~= old(out)@ + lit_true());
        }
    } else {
        out.push(102);
        out.push(97);
        out.push(108);
        out.push(115);
        out.push(101);
        proof {
            assert(out@ =~= old(out)@ + lit_false());
        }
    }
}

/// The lower-case hex digit for `n < 16`.
fn hex_digit_byte(n: u8) -> (r: u8)
    requires
        n < 16,
    ensures
        r == hex_digit(n as int),
{
    if n < 10 {
        48 + n
    } else {
        87 + n
    }
}

/// Appends a quoted, escaped JSON string.
fn push_str(out: &mut Vec<u8>, s: &Vec<u8>)
    ensures
        final(out)@ == old(out)@ + enc_str(s@),
{
    out.push(34);
    let mut i: usize = 0;
    proof {
        assert(s@.take(0).len() == 0);
        assert(out@ =~= old(out)@ + seq![34u8] + enc_str_body(s@.take(0)));
    }
    while i < s.len()
        invariant
            0 <= i <= s@.len(),
            out@ == old(out)@ + seq![34u8] + enc_str_body(s@.take(i as int)),
        decreases s@.len() - i,
    {
        let b = s[i];
        if b == 34 {
            out.push(92);
            out.push(34);
        } else if b == 92 {
            out.push(92);
            out.push(92);
        } else if b < 32 {
            out.push(92);
            out.push(117);
            out.push(48);
            out.push(48);
            out.push(hex_digit_byte(b / 16));
            out.push(hex_digit_byte(b % 16));
        } else {
            out.push(b);
        }
        proof {
            lemma_enc_str_body_snoc(s@, i as int);
            assert(out@ =~= old(out)@ + seq![34u8] + enc_str_body(s@.take(i as int + 1)));
        }
        i = i + 1;
    }
    out.push(34);
    proof {
        assert(s@.take(s@.len() as int) =~= s@);
        assert(out@ =~= old(out)@ + enc_str(s@));
    }
}

/// Appends one encoded item object.
fn push_item(out: &mut Vec<u8>, it: &Item)
    ensures
        final(out)@ == old(out)@ + enc_item(item_doc(*it)),
{
    push_obj_name(out);
    push_str(out, &it.name);
    push_is_done(out);
    push_bool(out, it.is_done);
    push_is_important(out);
    push_bool(out, it.is_important);
    out.push(125);
    proof {
        assert(out@ =~= old(out)@ + enc_item(item_doc(*it)));
    }
}

/// Appends one encoded item array.
fn push_item_array(out: &mut Vec<u8>, items: &Vec<Item>)
    ensures
        final(out)@ == old(out)@ + enc_item_array(items_docs(items@)),
{
    let ghost ds = items_docs(items@);
    out.push(91);
    if items.len() == 0 {
        out.push(93);
        proof {
            assert(ds.len() == 0);
            assert(out@ =~= old(out)@ + enc_item_array(ds));
        }
    } else {
        push_item(out, &items[0]);
        proof {
            assert(ds[0] == item_doc(items@[0]));
            assert(crate::codec::enc_items_rest(ds.subrange(1, 1)).len() == 0);
            assert(out@ =~= old(out)@ + seq![91u8] + enc_item(ds[0]) + crate::codec::enc_items_rest(
                ds.subrange(1, 1),
            ));
        }
        let mut i: usize = 1;
        while i < items.len()
            invariant
                1 <= i <= items@.len(),
                ds == items_docs(items@),
                ds.len() == items@.len(),
                out@ == old(out)@ + seq![91u8] + enc_item(ds[0]) + crate::codec::enc_items_rest(
                    ds.subrange(1, i as int),
                ),
            decreases items@.len() - i,
        {
            out.push(44);
            push_item(out, &items[i]);
            proof {
                assert(ds[i as int] == item_doc(items@[i as int]));
                lemma_enc_items_rest_snoc(ds, 1, i as int);
                assert(out@ =~= old(out)@ + seq![91u8] + enc_item(ds[0])
                    + crate::codec::enc_items_rest(ds.subrange(1, i as int + 1)));
            }
            i = i + 1;
        }
        out.push(93);
        proof {
            assert(ds.subrange(1, ds.len() as int) =~= ds.drop_first());
            assert(out@ =~= old(out)@ + enc_item_array(ds));
        }
    }
}

/// Appends one encoded list object.
fn push_list(out: &mut Vec<u8>, l: &List)
    ensures
        final(out)@ == old(out)@ + enc_list(list_doc(*l)),
{
    push_obj_name(out);
    push_str(out, &l.name);
    push_items_key(out);
    push_item_array(out, &l.items);
    out.push(125);
    proof {
        assert(out@ =~= old(out)@ + enc_list(list_doc(*l)));
    }
}

/// Renders a collection of lists as the persisted document: exactly the
/// bytes that `enc_document` gives for its persisted view.
pub fn save(lists: &Vec<List>) -> (r: Vec<u8>)
    ensures
        r@ == enc_document(docs_of(lists@)),
{
    let ghost ds = docs_of(lists@);
    let mut out: Vec<u8> = Vec::new();
    out.push(91);
    if lists.len() == 0 {
        out.push(93);
        proof {
            assert(ds.len() == 0);
            assert(out@ =~= enc_document(ds));
        }
    } else {
        push_list(&mut out, &lists[0]);
        proof {
            assert(ds[0] == list_doc(lists@[0]));
            assert(crate::codec::enc_lists_rest(ds.subrange(1, 1)).len() == 0);
            assert(out@ =~= seq![91u8] + enc_list(ds[0]) + crate::codec::enc_lists_rest(
                ds.subrange(1, 1),
            ));
        }
        let mut i: usize = 1;
        while i < lists.len()
            invariant
                1 <= i <= lists@.len(),
                ds == docs_of(lists@),
                ds.len() == lists@.len(),
                out@ == seq![91u8] + enc_list(ds[0]) + crate::codec::enc_lists_rest(
                    ds.subrange(1, i as int),
                ),
            decreases lists@.len() - i,
        {
            out.push(44);
            push_list(&mut out, &lists[i]);
            proof {
                assert(ds[i as int] == list_doc(lists@[i as int]));
                lemma_enc_lists_rest_snoc(ds, 1, i as int);
                assert(out@ =~= seq![91u8] + enc_list(ds[0]) + crate::codec::enc_lists_rest(
                    ds.subrange(1, i as int + 1),
                ));
            }
            i = i + 1;
        }
        out.push(93);
        proof {
            assert(ds.subrange(1, ds.len() as int) =~= ds.drop_first());
            assert(out@ =~= enc_document(ds));
        }
    }
    out
}

/// The byte meant by a single-character escape, if any.
fn short_escape_byte(e: u8) -> (r: Option<u8>)
    ensures
        r == short_escape(e),
{
    if e == 34 {
        Some(34)
    } else if e == 92 {
        Some(92)
    } else if e == 47 {
        Some(47)
    } else if e == 98 {
        Some(8)
    } else if e == 116 {
        Some(9)
    } else if e == 110 {
        Some(10)
    } else if e == 102 {
        Some(12)
    } else if e == 114 {
        Some(13)
    } else {
        None
    }
}

/// The value of a hex digit byte, if it is one.
fn hex_val_byte(b: u8) -> (r: Option<u8>)
    ensures
        r == hex_val(b),
        r matches Some(v) ==> v < 16,
{
    if 48 <= b && b <= 57 {
        Some(b - 48)
    } else if 97 <= b && b <= 102 {
        Some(b - 87)
    } else if 65 <= b && b <= 70 {
        Some(b - 55)
    } else {
        None
    }
}

/// Consumes one expected byte at `i`.
fn eat_byte(s: &Vec<u8>, i: usize, b: u8) -> (r: Option<usize>)
    requires
        i <= s@.len(),
    ensures
        match r {
            Some(j) => parse_lit(s@.skip(i as int), seq![b]) == Some(s@.skip(j as int)) && j == i
                + 1 && j <= s@.len(),
            None => parse_lit(s@.skip(i as int), seq![b]) is None,
        },
{
    if i < s.len() && s[i] == b {
        proof {
            let t = s@.skip(i as int);
            assert(t.take(1) =~= seq![b]);
            assert(t.skip(1) =~= s@.skip(i as int + 1));
        }
        Some(i + 1)
    } else {
        proof {
            let t = s@.skip(i as int);
            if parse_lit(t, seq![b]) is Some {
                assert(t.take(1) == seq![b]);
                assert(t.take(1)[0] == t[0] && t[0] == s@[i as int]);
                assert(false);
            }
        }
        None
    }
}

/// Consumes `{"name":` at `i`.
fn eat_obj_name(s: &Vec<u8>, i: usize) -> (r: Option<usize>)
    requires
        i <= s@.len(),
    ensures
        match r {
            Some(j) => parse_lit(s@.skip(i as int), lit_obj_name()) == Some(s@.skip(j as int)) && i
                <= j <= s@.len(),
            None => parse_lit(s@.skip(i as int), lit_obj_name()) is None,
        },
{
    let n = s.len();
    if n - i >= 8 && s[i] == 123 && s[i + 1] == 34 && s[i + 2] == 110 && s[i + 3] == 97 && s[i + 4]
        == 109 && s[i + 5] == 101 && s[i + 6] == 34 && s[i + 7] == 58 {
        proof {
            let t = s@.skip(i as int);
            assert(t.take(8) =~= lit_obj_name());
            assert(t.skip(8) =~= s@.skip(i as int + 8));
        }
        Some(i + 8)
    } else {
        proof {
            let t = s@.skip(i as int);
            if parse_lit(t, lit_obj_name()) is Some {
                assert(t.take(8) == lit_obj_name());
                assert(t.take(8)[0] == s@[i as int]);
                assert(t.take(8)[1] == s@[i as int + 1]);
                assert(t.take(8)[2] == s@[i as int + 2]);
                assert(t.take(8)[3] == s@[i as int + 3]);
                assert(t.take(8)[4] == s@[i as int + 4]);
                assert(t.take(8)[5] == s@[i as int + 5]);
                assert(t.take(8)[6] == s@[i as int + 6]);
                assert(t.take(8)[7] == s@[i as int + 7]);
                assert(false);
            }
        }
        None
    }
}

/// Consumes `,"is_done":` at `i`.
fn eat_is_done(s: &Vec<u8>, i: usize) -> (r: Option<usize>)
    requires
        i <= s@.len(),
    ensures
        match r {
            Some(j) => parse_lit(s@.skip(i as int), lit_is_done()) == Some(s@.skip(j as int)) && i
                <= j <= s@.len(),
            None => parse_lit(s@.skip(i as int), lit_is_done()) is None,
        },
{
    let n = s.len();
    if n - i >= 11 && s[i] == 44 && s[i + 1] == 34 && s[i + 2] == 105 && s[i + 3] == 115 && s[i + 4]
        == 95 && s[i + 5] == 100 && s[i + 6] == 111 && s[i + 7] == 110 && s[i + 8] == 101 && s[i
        + 9] == 34 && s[i + 10] == 58 {
        proof {
            let t = s@.skip(i as int);
            assert(t.take(11) =~= lit_is_done());
            assert(t.skip(11) =~= s@.skip(i as int + 11));
        }
        Some(i + 11)
    } else {
        proof {
            let t = s@.skip(i as int);
            if parse_lit(t, lit_is_done()) is Some {
                assert(t.take(11) == lit_is_done());
                assert(t.take(11)[0] == s@[i as int]);
                assert(t.take(11)[1] == s@[i as int + 1]);
                assert(t.take(11)[2] == s@[i as int + 2]);
                assert(t.take(11)[3] == s@[i as int + 3]);
                assert(t.take(11)[4] == s@[i as int + 4]);
                assert(t.take(11)[5] == s@[i as int + 5]);
                assert(t.take(11)[6] == s@[i as int + 6]);
                assert(t.take(11)[7] == s@[i as int + 7]);
                assert(t.take(11)[8] == s@[i as int + 8]);
                assert(t.take(11)[9] == s@[i as int + 9]);
                assert(t.take(11)[10] == s@[i as int + 10]);
                assert(false);
            }
        }
        None
    }
}

/// Consumes `,"is_important":` at `i`.
fn eat_is_important(s: &Vec<u8>, i: usize) -> (r: Option<usize>)
    requires
        i <= s@.len(),
    ensures
        match r {
            Some(j) => parse_lit(s@.skip(i as int), lit_is_important()) == Some(
                s@.skip(j as int),
            ) && i <= j <= s@.len(),
            None => parse_lit(s@.skip(i as int), lit_is_important()) is None,
        },
{
    let n = s.len();
    if n - i >= 16 && s[i] == 44 && s[i + 1] == 34 && s[i + 2] == 105 && s[i + 3] == 115 && s[i + 4]
        == 95 && s[i + 5] == 105 && s[i + 6] == 109 && s[i + 7] == 112 && s[i + 8] == 111 && s[i
        + 9] == 114 && s[i + 10] == 116 && s[i + 11] == 97 && s[i + 12] == 110 && s[i + 13] == 116
        && s[i + 14] == 34 && s[i + 15] == 58 {
        proof {
            let t = s@.skip(i as int);
            assert(t.take(16) =~= lit_is_important());
            assert(t.skip(16) =~= s@.skip(i as int + 16));
        }
        Some(i + 16)
    } else {
        proof {
            let t = s@.skip(i as int);
            if parse_lit(t, lit_is_important()) is Some {
                assert(t.take(16) == lit_is_important());
                assert(t.take(16)[0] == s@[i as int]);
                assert(t.take(16)[1] == s@[i as int + 1]);
                assert(t.take(16)[2] == s@[i as int + 2]);
                assert(t.take(16)[3] == s@[i as int + 3]);
                assert(t.take(16)[4] == s@[i as int + 4]);
                assert(t.take(16)[5] == s@[i as int + 5]);
                assert(t.take(16)[6] == s@[i as int + 6]);
                assert(t.take(16)[7] == s@[i as int + 7]);
                assert(t.take(16)[8] == s@[i as int + 8]);
                assert(t.take(16)[9] == s@[i as int + 9]);
                assert(t.take(16)[10] == s@[i as int + 10]);
                assert(t.take(16)[11] == s@[i as int + 11]);
                assert(t.take(16)[12] == s@[i as int + 12]);
                assert(t.take(16)[13] == s@[i as int + 13]);
                assert(t.take(16)[14] == s@[i as int + 14]);
                assert(t.take(16)[15] == s@[i as int + 15]);
                assert(false);
            }
        }
        None
    }
}

/// Consumes `,"items":` at `i`.
fn eat_items_key(s: &Vec<u8>, i: usize) -> (r: Option<usize>)
    requires
        i <= s@.len(),
    ensures
        match r {
            Some(j) => parse_lit(s@.skip(i as int), lit_items_key()) == Some(s@.skip(j as int))
                && i <= j <= s@.len(),
            None => parse_lit(s@.skip(i as int), lit_items_key()) is None,
        },
{
    let n = s.len();
    if n - i >= 9 && s[i] == 44 && s[i + 1] == 34 && s[i + 2] == 105 && s[i + 3] == 116 && s[i + 4]
        == 101 && s[i + 5] == 109 && s[i + 6] == 115 && s[i + 7] == 34 && s[i + 8] == 58 {
        proof {
            let t = s@.skip(i as int);
            assert(t.take(9) =~= lit_items_key());
            assert(t.skip(9) =~= s@.skip(i as int + 9));
        }
        Some(i + 9)
    } else {
        proof {
            let t = s@.skip(i as int);
            if parse_lit(t, lit_items_key()) is Some {
                assert(t.take(9) == lit_items_key());
                assert(t.take(9)[0] == s@[i as int]);
                assert(t.take(9)[1] == s@[i as int + 1]);
                assert(t.take(9)[2] == s@[i as int + 2]);
                assert(t.take(9)[3] == s@[i as int + 3]);
                assert(t.take(9)[4] == s@[i as int + 4]);
                assert(t.take(9)[5] == s@[i as int + 5]);
                assert(t.take(9)[6] == s@[i as int + 6]);
                assert(t.take(9)[7] == s@[i as int + 7]);
                assert(t.take(9)[8] == s@[i as int + 8]);
                assert(false);
            }
        }
        None
    }
}

/// Consumes `true` or `false` at `i`.
fn x_parse_bool(s: &Vec<u8>, i: usize) -> (r: Option<(bool, usize)>)
    requires
        i <= s@.len(),
    ensures
        match r {
            Some(p) => parse_bool(s@.skip(i as int)) == Some((p.0, s@.skip(p.1 as int))) && i
                <= p.1 <= s@.len(),
            None => parse_bool(s@.skip(i as int)) is None,
        },
{
    let n = s.len();
    if n - i >= 4 && s[i] == 116 && s[i + 1] == 114 && s[i + 2] == 117 && s[i + 3] == 101 {
        proof {
            let t = s@.skip(i as int);
            assert(t.take(4) =~= lit_true());
            assert(t.skip(4) =~= s@.skip(i as int + 4));
        }
        Some((true, i + 4))
    } else if n - i >= 5 && s[i] == 102 && s[i + 1] == 97 && s[i + 2] == 108 && s[i + 3] == 115
        && s[i + 4] == 101 {
        proof {
            let t = s@.skip(i as int);
            if parse_lit(t, lit_true()) is Some {
                assert(t.take(4) == lit_true());
                assert(t.take(4)[0] == s@[i as int]);
                assert(false);
            }
            assert(t.take(5) =~= lit_false());
            assert(t.skip(5) =~= s@.skip(i as int + 5));
        }
        Some((false, i + 5))
    } else {
        proof {
            let t = s@.skip(i as int);
            if parse_lit(t, lit_true()) is Some {
                assert(t.take(4) == lit_true());
                assert(t.take(4)[0] == s@[i as int]);
                assert(t.take(4)[1] == s@[i as int + 1]);
                assert(t.take(4)[2] == s@[i as int + 2]);
                assert(t.take(4)[3] == s@[i as int + 3]);
                assert(false);
            }
            if parse_lit(t, lit_false()) is Some {
                assert(t.take(5) == lit_false());
                assert(t.take(5)[0] == s@[i as int]);
                assert(t.take(5)[1] == s@[i as int + 1]);
                assert(t.take(5)[2] == s@[i as int + 2]);
                assert(t.take(5)[3] == s@[i as int + 3]);
                assert(t.take(5)[4] == s@[i as int + 4]);
                assert(false);
            }
        }
        None
    }
}

/// Consumes a quoted, escaped JSON string at `i` and yields its bytes.
fn x_parse_str(s: &Vec<u8>, i: usize) -> (r: Option<(Vec<u8>, usize)>)
    requires
        i <= s@.len(),
    ensures
        match r {
            Some(p) => parse_str(s@.skip(i as int)) == Some((p.0@, s@.skip(p.1 as int))) && i
                <= p.1 <= s@.len(),
            None => parse_str(s@.skip(i as int)) is None,
        },
{
    let n = s.len();
    if i >= n || s[i] != 34 {
        proof {
            let t = s@.skip(i as int);
            if i < n {
                assert(t[0] == s@[i as int]);
            }
        }
        return None;
    }
    proof {
        assert(s@.skip(i as int)[0] == s@[i as int]);
        assert(s@.skip(i as int).drop_first() =~= s@.skip(i as int + 1));
    }
    let mut acc: Vec<u8> = Vec::new();
    let mut j: usize = i + 1;
    proof {
        match parse_str_body(s@.skip(i as int + 1)) {
            Some(p) => {
                assert(Seq::<u8>::empty() + p.0 =~= p.0);
            },
            None => {},
        }
    }
    loop
        invariant
            n == s@.len(),
            i < n,
            i + 1 <= j <= n,
            s@[i as int] == 34,
            parse_str(s@.skip(i as int)) == parse_str_body(s@.skip(i as int + 1)),
            parse_str_body(s@.skip(i as int + 1)) is Some <==> parse_str_body(
                s@.skip(j as int),
            ) is Some,
            parse_str_body(s@.skip(j as int)) matches Some(p) ==> parse_str_body(
                s@.skip(i as int + 1),
            ) == Some((acc@ + p.0, p.1)),
        decreases n - j,
    {
        if j >= n {
            proof {
                assert(s@.skip(j as int).len() == 0);
            }
            return None;
        }
        let b = s[j];
        proof {
            assert(s@.skip(j as int)[0] == s@[j as int]);
        }
        if b == 34 {
            proof {
                assert(s@.skip(j as int).drop_first() =~= s@.skip(j as int + 1));
                assert(acc@ + Seq::<u8>::empty() =~= acc@);
            }
            return Some((acc, j + 1));
        } else if b == 92 {
            if n - j < 2 {
                proof {
                    assert(s@.skip(j as int).len() < 2);
                }
                return None;
            }
            let e = s[j + 1];
            proof {
                assert(s@.skip(j as int)[1] == s@[j as int + 1]);
            }
            match short_escape_byte(e) {
                Some(v) => {
                    proof {
                        assert(s@.skip(j as int).skip(2) =~= s@.skip(j as int + 2));
                        match parse_str_body(s@.skip(j as int + 2)) {
                            Some(q) => {
                                assert(acc@ + (seq![v] + q.0) =~= acc@.push(v) + q.0);
                            },
                            None => {},
                        }
                    }
                    acc.push(v);
                    j = j + 2;
                },
                None => {
                    if e != 117 {
                        return None;
                    }
                    if n - j < 6 {
                        proof {
                            assert(s@.skip(j as int).len() < 6);
                        }
                        return None;
                    }
                    proof {
                        assert(s@.skip(j as int)[2] == s@[j as int + 2]);
                        assert(s@.skip(j as int)[3] == s@[j as int + 3]);
                        assert(s@.skip(j as int)[4] == s@[j as int + 4]);
                        assert(s@.skip(j as int)[5] == s@[j as int + 5]);
                    }
                    if s[j + 2] != 48 || s[j + 3] != 48 {
                        return None;
                    }
                    let h = hex_val_byte(s[j + 4]);
                    let l = hex_val_byte(s[j + 5]);
                    match (h, l) {
                        (Some(hv), Some(lv)) => {
                            let v = 16 * hv + lv;
                            proof {
                                assert(s@.skip(j as int).skip(6) =~= s@.skip(j as int + 6));
                                match parse_str_body(s@.skip(j as int + 6)) {
                                    Some(q) => {
                                        assert(acc@ + (seq![v] + q.0) =~= acc@.push(v) + q.0);
                                    },
                                    None => {},
                                }
                            }
                            acc.push(v);
                            j = j + 6;
                        },
                        _ => {
                            return None;
                        },
                    }
                },
            }
        } else if b < 32 {
            return None;
        } else {
            proof {
                assert(s@.skip(j as int).drop_first() =~= s@.skip(j as int + 1));
                match parse_str_body(s@.skip(j as int + 1)) {
                    Some(q) => {
                        assert(acc@ + (seq![b] + q.0) =~= acc@.push(b) + q.0);
                    },
                    None => {},
                }
            }
            acc.push(b);
            j = j + 1;
        }
    }
}

/// Consumes one item object at `i`; the item's transient state is fresh.
fn x_parse_item(s: &Vec<u8>, i: usize) -> (r: Option<(Item, usize)>)
    requires
        i <= s@.len(),
    ensures
        match r {
            Some(p) => parse_item(s@.skip(i as int)) == Some((item_doc(p.0), s@.skip(p.1 as int)))
                && item_fresh(p.0) && i <= p.1 <= s@.len(),
            None => parse_item(s@.skip(i as int)) is None,
        },
{
    let j1 = match eat_obj_name(s, i) {
        Some(j) => j,
        None => {
            return None;
        },
    };
    let (name, j2) = match x_parse_str(s, j1) {
        Some(p) => p,
        None => {
            return None;
        },
    };
    let j3 = match eat_is_done(s, j2) {
        Some(j) => j,
        None => {
            return None;
        },
    };
    let (d, j4) = match x_parse_bool(s, j3) {
        Some(p) => p,
        None => {
            return None;
        },
    };
    let j5 = match eat_is_important(s, j4) {
        Some(j) => j,
        None => {
            return None;
        },
    };
    let (imp, j6) = match x_parse_bool(s, j5) {
        Some(p) => p,
        None => {
            return None;
        },
    };
    let j7 = match eat_byte(s, j6, 125) {
        Some(j) => j,
        None => {
            return None;
        },
    };
    Some(
        (
            Item {
                name,
                is_done: d,
                is_important: imp,
                edit_state: EditState::Viewing,
                focus_requested: false,
            },
            j7,
        ),
    )
}

/// Consumes a whole item array at `i`; every item comes out fresh.
fn x_parse_item_array(s: &Vec<u8>, i: usize) -> (r: Option<(Vec<Item>, usize)>)
    requires
        i <= s@.len(),
    ensures
        match r {
            Some(p) => parse_item_array(s@.skip(i as int)) == Some(
                (items_docs(p.0@), s@.skip(p.1 as int)),
            ) && (forall|k: int| 0 <= k < p.0@.len() ==> item_fresh(#[trigger] p.0@[k])) && i
                <= p.1 <= s@.len(),
            None => parse_item_array(s@.skip(i as int)) is None,
        },
{
    let n = s.len();
    let j0 = match eat_byte(s, i, 91) {
        Some(j) => j,
        None => {
            return None;
        },
    };
    if j0 < n && s[j0] == 93 {
        proof {
            assert(s@.skip(j0 as int)[0] == s@[j0 as int]);
            assert(s@.skip(j0 as int).drop_first() =~= s@.skip(j0 as int + 1));
            assert(items_docs(Seq::<Item>::empty()) =~= Seq::<ItemDoc>::empty());
        }
        return Some((Vec::new(), j0 + 1));
    }
    proof {
        if j0 < n {
            assert(s@.skip(j0 as int)[0] == s@[j0 as int]);
        } else {
            assert(s@.skip(j0 as int).len() == 0);
        }
    }
    let (it0, first_end) = match x_parse_item(s, j0) {
        Some(p) => p,
        None => {
            return None;
        },
    };
    let mut acc: Vec<Item> = Vec::new();
    let ghost d0 = item_doc(it0);
    acc.push(it0);
    let mut j: usize = first_end;
    proof {
        assert(items_docs(acc@) =~= seq![d0]);
        match parse_items_more(s@.skip(j as int)) {
            Some(q) => {
                assert(seq![d0] + q.0 == items_docs(acc@) + q.0);
            },
            None => {},
        }
    }
    loop
        invariant
            n == s@.len(),
            i <= j <= n,
            forall|k: int| 0 <= k < acc@.len() ==> item_fresh(#[trigger] acc@[k]),
            parse_item_array(s@.skip(i as int)) is Some <==> parse_items_more(
                s@.skip(j as int),
            ) is Some,
            parse_items_more(s@.skip(j as int)) matches Some(q) ==> parse_item_array(
                s@.skip(i as int),
            ) == Some((items_docs(acc@) + q.0, q.1)),
        decreases n - j,
    {
        if j >= n {
            proof {
                assert(s@.skip(j as int).len() == 0);
            }
            return None;
        }
        let b = s[j];
        proof {
            assert(s@.skip(j as int)[0] == s@[j as int]);
        }
        if b == 93 {
            proof {
                assert(s@.skip(j as int).drop_first() =~= s@.skip(j as int + 1));
                assert(items_docs(acc@) + Seq::<ItemDoc>::empty() =~= items_docs(acc@));
            }
            return Some((acc, j + 1));
        } else if b == 44 {
            proof {
                assert(s@.skip(j as int).drop_first() =~= s@.skip(j as int + 1));
            }
            let (it, j2) = match x_parse_item(s, j + 1) {
                Some(p) => p,
                None => {
                    return None;
                },
            };
            proof {
                lemma_items_docs_push(acc@, it);
                match parse_items_more(s@.skip(j2 as int)) {
                    Some(q) => {
                        assert(items_docs(acc@) + (seq![item_doc(it)] + q.0) =~= items_docs(
                            acc@.push(it),
                        ) + q.0);
                    },
                    None => {},
                }
            }
            acc.push(it);
            j = j2;
        } else {
            return None;
        }
    }
}

/// Consumes one list object at `i`; the list and its items come out fresh.
fn x_parse_list(s: &Vec<u8>, i: usize) -> (r: Option<(List, usize)>)
    requires
        i <= s@.len(),
    ensures
        match r {
            Some(p) => parse_list(s@.skip(i as int)) == Some((list_doc(p.0), s@.skip(p.1 as int)))
                && list_fresh(p.0) && (forall|k: int|
                0 <= k < p.0.items@.len() ==> item_fresh(#[trigger] p.0.items@[k])) && i <= p.1
                <= s@.len(),
            None => parse_list(s@.skip(i as int)) is None,
        },
{
    let j1 = match eat_obj_name(s, i) {
        Some(j) => j,
        None => {
            return None;
        },
    };
    let (name, j2) = match x_parse_str(s, j1) {
        Some(p) => p,
        None => {
            return None;
        },
    };
    let j3 = match eat_items_key(s, j2) {
        Some(j) => j,
        None => {
            return None;
        },
    };
    let (items, j4) = match x_parse_item_array(s, j3) {
        Some(p) => p,
        None => {
            return None;
        },
    };
    let j5 = match eat_byte(s, j4, 125) {
        Some(j) => j,
        None => {
            return None;
        },
    };
    Some(
        (
            List {
                name,
                items,
                edit_state: EditState::Viewing,
                focus_requested: false,
                is_open: true,
                pending_new_item_text: Vec::new(),
            },
            j5,
        ),
    )
}

/// Reads a whole persisted document. Yields the lists, every one fresh, or
/// nothing when the bytes are not a document: that case is fatal for the
/// caller, never a silent empty state.
pub fn decode_document(bytes: &Vec<u8>) -> (r: Option<Vec<List>>)
    ensures
        match r {
            Some(ls) => parse_document(bytes@) == Some(docs_of(ls@)) && (forall|k: int|
                0 <= k < ls@.len() ==> list_fresh(#[trigger] ls@[k])),
            None => parse_document(bytes@) is None,
        },
{
    let n = bytes.len();
    proof {
        assert(bytes@.skip(0) =~= bytes@);
    }
    let j0 = match eat_byte(bytes, 0, 91) {
        Some(j) => j,
        None => {
            return None;
        },
    };
    if j0 < n && bytes[j0] == 93 {
        if j0 + 1 == n {
            proof {
                assert(bytes@.skip(j0 as int)[0] == bytes@[j0 as int]);
                assert(bytes@.skip(j0 as int).drop_first() =~= bytes@.skip(j0 as int + 1));
                assert(bytes@.skip(j0 as int + 1).len() == 0);
                assert(docs_of(Seq::<List>::empty()) =~= Seq::<ListDoc>::empty());
            }
            return Some(Vec::new());
        } else {
            proof {
                assert(bytes@.skip(j0 as int)[0] == bytes@[j0 as int]);
                assert(bytes@.skip(j0 as int).drop_first() =~= bytes@.skip(j0 as int + 1));
                assert(bytes@.skip(j0 as int + 1).len() > 0);
            }
            return None;
        }
    }
    proof {
        if j0 < n {
            assert(bytes@.skip(j0 as int)[0] == bytes@[j0 as int]);
        } else {
            assert(bytes@.skip(j0 as int).len() == 0);
        }
    }
    let (l0, first_end) = match x_parse_list(bytes, j0) {
        Some(p) => p,
        None => {
            return None;
        },
    };
    let mut acc: Vec<List> = Vec::new();
    let ghost d0 = list_doc(l0);
    acc.push(l0);
    let mut j: usize = first_end;
    proof {
        assert(docs_of(acc@) =~= seq![d0]);
        match parse_lists_more(bytes@.skip(j as int)) {
            Some(q) => {
                assert(seq![d0] + q.0 == docs_of(acc@) + q.0);
            },
            None => {},
        }
    }
    loop
        invariant
            n == bytes@.len(),
            0 <= j <= n,
            forall|k: int| 0 <= k < acc@.len() ==> list_fresh(#[trigger] acc@[k]),
            parse_list_array(bytes@) is Some <==> parse_lists_more(bytes@.skip(j as int)) is Some,
            parse_lists_more(bytes@.skip(j as int)) matches Some(q) ==> parse_list_array(bytes@)
                == Some((docs_of(acc@) + q.0, q.1)),
        decreases n - j,
    {
        if j >= n {
            proof {
                assert(bytes@.skip(j as int).len() == 0);
            }
            return None;
        }
        let b = bytes[j];
        proof {
            assert(bytes@.skip(j as int)[0] == bytes@[j as int]);
        }
        if b == 93 {
            proof {
                assert(bytes@.skip(j as int).drop_first() =~= bytes@.skip(j as int + 1));
                assert(docs_of(acc@) + Seq::<ListDoc>::empty() =~= docs_of(acc@));
            }
            if j + 1 == n {
                proof {
                    assert(bytes@.skip(j as int + 1).len() == 0);
                }
                return Some(acc);
            } else {
                proof {
                    assert(bytes@.skip(j as int + 1).len() > 0);
                }
                return None;
            }
        } else if b == 44 {
            proof {
                assert(bytes@.skip(j as int).drop_first() =~= bytes@.skip(j as int + 1));
            }
            let (l, j2) = match x_parse_list(bytes, j + 1) {
                Some(p) => p,
                None => {
                    return None;
                },
            };
            proof {
                lemma_docs_of_push(acc@, l);
                match parse_lists_more(bytes@.skip(j2 as int)) {
                    Some(q) => {
                        assert(docs_of(acc@) + (seq![list_doc(l)] + q.0) =~= docs_of(acc@.push(l))
                            + q.0);
                    },
                    None => {},
                }
            }
            acc.push(l);
            j = j2;
        } else {
            return None;
        }
    }
}

/// Loads the board's lists from the document file's contents. An absent
/// file is the first run and means an empty collection; present but
/// unreadable bytes yield nothing, which the caller must treat as fatal
/// rather than overwrite the file.
pub fn load(contents: Option<&Vec<u8>>) -> (r: Option<Vec<List>>)
    ensures
        contents is None ==> (r matches Some(ls) && ls@.len() == 0),
        contents matches Some(b) ==> match r {
            Some(ls) => parse_document(b@) == Some(docs_of(ls@)) && (forall|k: int|
                0 <= k < ls@.len() ==> list_fresh(#[trigger] ls@[k])),
            None => parse_document(b@) is None,
        },
{
    match contents {
        None => Some(Vec::new()),
        Some(b) => decode_document(b),
    }
}

} // verus!
