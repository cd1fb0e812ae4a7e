//! The persisted view of the data model.
//!
//! A document is what the store writes to disk: for each list its label and
//! items, for each item its label and two flags. Transient view state (edit
//! state, focus signal, open flag, scratch buffers) never appears in it.

use vstd::prelude::*;
use crate::model::{Item, List};

verus! {

/// The persisted fields of an `Item`.
pub ghost struct ItemDoc {
    pub name: Seq<u8>,
    pub is_done: bool,
    pub is_important: bool,
}

/// The persisted fields of a `List`.
pub ghost struct ListDoc {
    pub name: Seq<u8>,
    pub items: Seq<ItemDoc>,
}

/// The persisted view of an item.
pub open spec fn item_doc(it: Item) -> ItemDoc {
    ItemDoc { name: it.name@, is_done: it.is_done, is_important: it.is_important }
}

/// The persisted view of a sequence of items.
pub open spec fn items_docs(items: Seq<Item>) -> Seq<ItemDoc> {
    items.map_values(|it: Item| item_doc(it))
}

/// The persisted view of a list.
pub open spec fn list_doc(l: List) -> ListDoc {
    ListDoc { name: l.name@, items: items_docs(l.items@) }
}

/// The persisted view of a whole collection of lists.
pub open spec fn docs_of(lists: Seq<List>) -> Seq<ListDoc> {
    lists.map_values(|l: List| list_doc(l))
}

/// Taking the persisted view commutes with appending an item.
pub proof fn lemma_items_docs_push(s: Seq<Item>, x: Item)
    ensures
        items_docs(s.push(x)) == items_docs(s).push(item_doc(x)),
{
    assert(items_docs(s.push(x)) =~= items_docs(s).push(item_doc(x)));
}

/// Taking the persisted view commutes with appending a list.
pub proof fn lemma_docs_of_push(s: Seq<List>, x: List)
    ensures
        docs_of(s.push(x)) == docs_of(s).push(list_doc(x)),
{
    assert(docs_of(s.push(x)) =~= docs_of(s).push(list_doc(x)));
}

} // verus!
