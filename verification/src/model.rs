//! The checklist entities: a checkable `Item` and a named `List` of items.
//!
//! Labels are UTF-8 bytes and are stored trimmed of leading and trailing
//! ASCII whitespace. Edit state, the open flag and the scratch buffer for a
//! new item are transient view state: they are never persisted.

use vstd::prelude::*;
use crate::text::{trim, trim_spec};

verus! {

/// Whether an entry's label is currently shown or being edited.
#[derive(Clone, Copy, Debug, PartialEq, Eq, Structural)]
pub enum EditState {
    Viewing,
    Editing,
}

/// Failure of an index-addressed mutation.
#[derive(Clone, Copy, Debug, PartialEq, Eq, Structural)]
pub enum TodoError {
    /// The given index does not name an existing list or item.
    OutOfRange,
}

/// A single checklist entry.
pub struct Item {
    /// The label, trimmed.
    pub name: Vec<u8>,
    /// Completion flag.
    pub is_done: bool,
    /// Emphasis flag.
    pub is_important: bool,
    /// Transient: viewing or editing the label.
    pub edit_state: EditState,
    /// Transient, one-shot: the view should focus this entry's editor.
    pub focus_requested: bool,
}

/// An item whose transient state is at its initial values.
pub open spec fn item_fresh(it: Item) -> bool {
    &&& it.edit_state == EditState::Viewing
    &&& !it.focus_requested
}

impl Item {
    /// Creates an item with a trimmed label and both flags cleared.
    pub fn new(name: Vec<u8>) -> (r: Item)
        ensures
            r.name@ == trim_spec(name@),
            !r.is_done,
            !r.is_important,
            item_fresh(r),
    {
        Item {
            name: trim(&name),
            is_done: false,
            is_important: false,
            edit_state: EditState::Viewing,
            focus_requested: false,
        }
    }

    /// Starts an edit session on the label and arms the focus signal.
    /// Calling it while already editing leaves the same state.
    pub fn begin_edit(&mut self)
        ensures
            final(self).edit_state == EditState::Editing,
            final(self).focus_requested,
            final(self).name == old(self).name,
            final(self).is_done == old(self).is_done,
            final(self).is_important == old(self).is_important,
    {
        self.edit_state = EditState::Editing;
        self.focus_requested = true;
    }

    /// Ends an edit session: stores the new label, trimmed, and returns to
    /// viewing. The caller marks its owner dirty.
    pub fn commit_edit(&mut self, new_name: Vec<u8>)
        ensures
            final(self).name@ == trim_spec(new_name@),
            item_fresh(*final(self)),
            final(self).is_done == old(self).is_done,
            final(self).is_important == old(self).is_important,
    {
        self.name = trim(&new_name);
        self.edit_state = EditState::Viewing;
        self.focus_requested = false;
    }

    /// Flips the completion flag. The caller marks its owner dirty.
    pub fn toggle_done(&mut self)
        ensures
            final(self).is_done == !old(self).is_done,
            final(self).name == old(self).name,
            final(self).is_important == old(self).is_important,
            final(self).edit_state == old(self).edit_state,
            final(self).focus_requested == old(self).focus_requested,
    {
        self.is_done = !self.is_done;
    }

    /// Flips the emphasis flag. The caller marks its owner dirty.
    pub fn toggle_important(&mut self)
        ensures
            final(self).is_important == !old(self).is_important,
            final(self).name == old(self).name,
            final(self).is_done == old(self).is_done,
            final(self).edit_state == old(self).edit_state,
            final(self).focus_requested == old(self).focus_requested,
    {
        self.is_important = !self.is_important;
    }
}

/// A named, ordered list of items.
pub struct List {
    /// The label, trimmed.
    pub name: Vec<u8>,
    /// The items, in user-meaningful order.
    pub items: Vec<Item>,
    /// Transient: viewing or editing the list's label.
    pub edit_state: EditState,
    /// Transient, one-shot: the view should focus this list's editor.
    pub focus_requested: bool,
    /// Transient: whether the item sequence is displayed.
    pub is_open: bool,
    /// Transient scratch buffer for creating a new item.
    pub pending_new_item_text: Vec<u8>,
}

/// A list whose transient state is at its initial values.
pub open spec fn list_fresh(l: List) -> bool {
    &&& l.edit_state == EditState::Viewing
    &&& !l.focus_requested
    &&& l.is_open
    &&& l.pending_new_item_text@ == Seq::<u8>::empty()
}

impl List {
    /// Creates an empty, open list with a trimmed label.
    pub fn new(name: Vec<u8>) -> (r: List)
        ensures
            r.name@ == trim_spec(name@),
            r.items@ == Seq::<Item>::empty(),
            list_fresh(r),
    {
        List {
            name: trim(&name),
            items: Vec::new(),
            edit_state: EditState::Viewing,
            focus_requested: false,
            is_open: true,
            pending_new_item_text: Vec::new(),
        }
    }

    /// Appends a new item named `name`, trimmed; a name that trims to
    /// nothing is ignored. Returns whether an item was added, so the owner
    /// can mark itself dirty.
    pub fn add_item(&mut self, name: Vec<u8>) -> (added: bool)
        ensures
            added == (trim_spec(name@).len() > 0),
            !added ==> *final(self) == *old(self),
            added ==> {
                &&& final(self).items@.len() == old(self).items@.len() + 1
                &&& final(self).items@.drop_last() == old(self).items@
                &&& final(self).items@.last().name@ == trim_spec(name@)
                &&& !final(self).items@.last().is_done
                &&& !final(self).items@.last().is_important
                &&& item_fresh(final(self).items@.last())
                &&& final(self).name == old(self).name
                &&& final(self).edit_state == old(self).edit_state
                &&& final(self).focus_requested == old(self).focus_requested
                &&& final(self).is_open == old(self).is_open
                &&& final(self).pending_new_item_text == old(self).pending_new_item_text
            },
    {
        let trimmed = trim(&name);
        if trimmed.len() == 0 {
            false
        } else {
            let it = Item {
                name: trimmed,
                is_done: false,
                is_important: false,
                edit_state: EditState::Viewing,
                focus_requested: false,
            };
            self.items.push(it);
            proof {
                assert(self.items@.drop_last() =~= old(self).items@);
            }
            true
        }
    }

    /// Removes the item at `index`, keeping the relative order of the
    /// surviving items (a stable delete: item order is user-meaningful).
    /// Fails with `OutOfRange`, leaving the list unchanged, when `index`
    /// does not name an item.
    pub fn remove_item(&mut self, index: usize) -> (r: Result<(), TodoError>)
        ensures
            index < old(self).items@.len() ==> {
                &&& r == Ok::<(), TodoError>(())
                &&& final(self).items@ == old(self).items@.remove(index as int)
                &&& final(self).name == old(self).name
                &&& final(self).edit_state == old(self).edit_state
                &&& final(self).focus_requested == old(self).focus_requested
                &&& final(self).is_open == old(self).is_open
                &&& final(self).pending_new_item_text == old(self).pending_new_item_text
            },
            index >= old(self).items@.len() ==> {
                &&& r == Err::<(), TodoError>(TodoError::OutOfRange)
                &&& *final(self) == *old(self)
            },
    {
        if index < self.items.len() {
            self.items.remove(index);
            Ok(())
        } else {
            Err(TodoError::OutOfRange)
        }
    }

    /// Starts an edit session on the list's label and arms the focus
    /// signal. Calling it while already editing leaves the same state.
    pub fn begin_edit(&mut self)
        ensures
            final(self).edit_state == EditState::Editing,
            final(self).focus_requested,
            final(self).name == old(self).name,
            final(self).items == old(self).items,
            final(self).is_open == old(self).is_open,
            final(self).pending_new_item_text == old(self).pending_new_item_text,
    {
        self.edit_state = EditState::Editing;
        self.focus_requested = true;
    }

    /// Ends an edit session on the list's label: stores the new label,
    /// trimmed, and returns to viewing. The caller marks its owner dirty.
    pub fn commit_edit(&mut self, new_name: Vec<u8>)
        ensures
            final(self).name@ == trim_spec(new_name@),
            final(self).edit_state == EditState::Viewing,
            !final(self).focus_requested,
            final(self).items == old(self).items,
            final(self).is_open == old(self).is_open,
            final(self).pending_new_item_text == old(self).pending_new_item_text,
    {
        self.name = trim(&new_name);
        self.edit_state = EditState::Viewing;
        self.focus_requested = false;
    }

    /// Flips whether the item sequence is displayed. Purely view state:
    /// does not dirty the owner.
    pub fn toggle_open(&mut self)
        ensures
            final(self).is_open == !old(self).is_open,
            final(self).name == old(self).name,
            final(self).items == old(self).items,
            final(self).edit_state == old(self).edit_state,
            final(self).focus_requested == old(self).focus_requested,
            final(self).pending_new_item_text == old(self).pending_new_item_text,
    {
        self.is_open = !self.is_open;
    }
}

/// One edit of a list's item sequence: what `add_item` does when the
/// trimmed name is nonempty (append at the end) and what `remove_item` does
/// (a stable delete at an index; an invalid index changes nothing, the
/// operation fails).
pub ghost enum ItemsEdit {
    Append(Item),
    RemoveAt(int),
}

/// The item sequence after one edit.
pub open spec fn apply_items_edit(s: Seq<Item>, e: ItemsEdit) -> Seq<Item> {
    match e {
        ItemsEdit::Append(it) => s.push(it),
        ItemsEdit::RemoveAt(i) => if 0 <= i < s.len() {
            s.remove(i)
        } else {
            s
        },
    }
}

/// The item sequence after a whole run of edits, applied left to right.
pub open spec fn apply_items_edits(s: Seq<Item>, es: Seq<ItemsEdit>) -> Seq<Item>
    decreases es.len(),
{
    if es.len() == 0 {
        s
    } else {
        apply_items_edits(apply_items_edit(s, es[0]), es.drop_first())
    }
}

/// The sequence length after one edit of a sequence of length `len`.
pub open spec fn edit_new_len(e: ItemsEdit, len: int) -> int {
    match e {
        ItemsEdit::Append(_) => len + 1,
        ItemsEdit::RemoveAt(i) => if 0 <= i < len {
            len - 1
        } else {
            len
        },
    }
}

/// Whether the item at position `j` survives one edit of a sequence of
/// length `len`.
pub open spec fn edit_survives(e: ItemsEdit, len: int, j: int) -> bool {
    match e {
        ItemsEdit::Append(_) => true,
        ItemsEdit::RemoveAt(i) => !(0 <= i < len) || j != i,
    }
}

/// Where the item at position `j`, if it survives, stands after one edit.
pub open spec fn edit_shift(e: ItemsEdit, len: int, j: int) -> int {
    match e {
        ItemsEdit::Append(_) => j,
        ItemsEdit::RemoveAt(i) => if 0 <= i < len && j > i {
            j - 1
        } else {
            j
        },
    }
}

/// Whether the item at position `j` survives a whole run of edits.
pub open spec fn edits_survive(len: int, es: Seq<ItemsEdit>, j: int) -> bool
    decreases es.len(),
{
    if es.len() == 0 {
        true
    } else {
        edit_survives(es[0], len, j) && edits_survive(
            edit_new_len(es[0], len),
            es.drop_first(),
            edit_shift(es[0], len, j),
        )
    }
}

/// Where the item at position `j`, if it survives, stands after a whole run
/// of edits.
pub open spec fn edits_pos(len: int, es: Seq<ItemsEdit>, j: int) -> int
    decreases es.len(),
{
    if es.len() == 0 {
        j
    } else {
        edits_pos(edit_new_len(es[0], len), es.drop_first(), edit_shift(es[0], len, j))
    }
}

/// Stable-order law: through any run of item additions and removals, every
/// surviving item keeps its identity at its shifted position, and any two
/// surviving items keep their relative order.
pub proof fn lemma_edits_keep_order(s: Seq<Item>, es: Seq<ItemsEdit>)
    ensures
        forall|j: int|
            #![trigger edits_pos(s.len() as int, es, j)]
            0 <= j < s.len() && edits_survive(s.len() as int, es, j) ==> (0 <= edits_pos(
                s.len() as int,
                es,
                j,
            ) < apply_items_edits(s, es).len() && apply_items_edits(s, es)[edits_pos(
                s.len() as int,
                es,
                j,
            )] == s[j]),
        forall|j: int, k: int|
            #![trigger edits_pos(s.len() as int, es, j), edits_pos(s.len() as int, es, k)]
            (0 <= j < k < s.len() && edits_survive(s.len() as int, es, j) && edits_survive(
                s.len() as int,
                es,
                k,
            )) ==> edits_pos(s.len() as int, es, j) < edits_pos(s.len() as int, es, k),
    decreases es.len(),
{
    let len = s.len() as int;
    if es.len() == 0 {
        assert forall|j: int| #![trigger edits_pos(len, es, j)] 0 <= j < s.len() && edits_survive(len, es, j) implies (0 <= edits_pos(
            len,
            es,
            j,
        ) < apply_items_edits(s, es).len() && apply_items_edits(s, es)[edits_pos(len, es, j)]
            == s[j]) by {
            assert(edits_pos(len, es, j) == j);
            assert(apply_items_edits(s, es) == s);
        }
        assert forall|j: int, k: int|
            #![trigger edits_pos(len, es, j), edits_pos(len, es, k)]
            (0 <= j < k < s.len() && edits_survive(len, es, j) && edits_survive(
                len,
                es,
                k,
            )) implies edits_pos(len, es, j) < edits_pos(len, es, k) by {
            assert(edits_pos(len, es, j) == j);
            assert(edits_pos(len, es, k) == k);
        }
    } else {
        let e = es[0];
        let rest = es.drop_first();
        let s1 = apply_items_edit(s, e);
        let len1 = edit_new_len(e, len);
        assert(s1.len() == len1);
        lemma_edits_keep_order(s1, rest);
        assert forall|j: int| #![trigger edits_pos(len, es, j)] 0 <= j < s.len() && edits_survive(len, es, j) implies (0 <= edits_pos(
            len,
            es,
            j,
        ) < apply_items_edits(s, es).len() && apply_items_edits(s, es)[edits_pos(len, es, j)]
            == s[j]) by {
            let j1 = edit_shift(e, len, j);
            assert(edit_survives(e, len, j));
            match e {
                ItemsEdit::Append(_) => {
                    assert(0 <= j1 < len1 && s1[j1] == s[j]);
                },
                ItemsEdit::RemoveAt(i) => {
                    assert(0 <= j1 < len1 && s1[j1] == s[j]);
                },
            }
            assert(edits_survive(len1, rest, j1));
            assert(0 <= edits_pos(len1, rest, j1) < apply_items_edits(s1, rest).len());
            assert(apply_items_edits(s1, rest)[edits_pos(len1, rest, j1)] == s1[j1]);
            assert(apply_items_edits(s, es) == apply_items_edits(s1, rest));
            assert(edits_pos(len, es, j) == edits_pos(len1, rest, j1));
        }
        assert forall|j: int, k: int|
            #![trigger edits_pos(len, es, j), edits_pos(len, es, k)]
            (0 <= j < k < s.len() && edits_survive(len, es, j) && edits_survive(
                len,
                es,
                k,
            )) implies edits_pos(len, es, j) < edits_pos(len, es, k) by {
            let j1 = edit_shift(e, len, j);
            let k1 = edit_shift(e, len, k);
            match e {
                ItemsEdit::Append(_) => {
                    assert(0 <= j1 < k1 < len1);
                },
                ItemsEdit::RemoveAt(i) => {
                    assert(0 <= j1 < k1 < len1);
                },
            }
            assert(edits_survive(len1, rest, j1) && edits_survive(len1, rest, k1));
            assert(edits_pos(len1, rest, j1) < edits_pos(len1, rest, k1));
            assert(edits_pos(len, es, j) == edits_pos(len1, rest, j1));
            assert(edits_pos(len, es, k) == edits_pos(len1, rest, k1));
        }
    }
}

} // verus!
