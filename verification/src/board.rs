//! The board: the ordered collection of lists, the top-level mutation API,
//! the dirty flag and the debounced autosave policy.
//!
//! The board is owned by one interactive loop. Mutations set the dirty flag;
//! `tick`, called once per cycle, hands out a snapshot of the persisted state
//! when the debounce interval has elapsed, and optimistically marks the board
//! clean at dispatch time (not at write completion).

use vstd::prelude::*;
use crate::docs::{
    docs_of, item_doc, items_docs, lemma_docs_of_push, lemma_items_docs_push, list_doc,
};
use crate::model::{item_fresh, list_fresh, EditState, Item, List, TodoError};
use crate::text::{trim, trim_spec};

verus! {

/// Minimum number of time units (seconds) between two save dispatches.
pub const SAVE_INTERVAL: u64 = 3;

/// A user intent aimed at one item.
pub enum ItemOp {
    /// Start editing the item's label.
    BeginEdit,
    /// End the edit session with this new label.
    CommitEdit(Vec<u8>),
    /// Flip the completion flag.
    ToggleDone,
    /// Flip the emphasis flag.
    ToggleImportant,
}

/// A user intent aimed at one list.
pub enum ListOp {
    /// Start editing the list's label.
    BeginEdit,
    /// End the edit session with this new label.
    CommitEdit(Vec<u8>),
    /// Flip whether the item sequence is displayed.
    ToggleOpen,
    /// Append a new item with this label.
    AddItem(Vec<u8>),
    /// Remove the item at this position, keeping the order of the rest.
    RemoveItem(usize),
}

/// Whether an item intent changes persisted state.
pub open spec fn item_op_dirties(op: ItemOp) -> bool {
    !(op is BeginEdit)
}

/// How an item looks after an intent was applied to it.
pub open spec fn item_op_applied(pre: Item, post: Item, op: ItemOp) -> bool {
    match op {
        ItemOp::BeginEdit => {
            &&& post.edit_state == EditState::Editing
            &&& post.focus_requested
            &&& post.name == pre.name
            &&& post.is_done == pre.is_done
            &&& post.is_important == pre.is_important
        },
        ItemOp::CommitEdit(n) => {
            &&& post.name@ == trim_spec(n@)
            &&& item_fresh(post)
            &&& post.is_done == pre.is_done
            &&& post.is_important == pre.is_important
        },
        ItemOp::ToggleDone => {
            &&& post.is_done == !pre.is_done
            &&& post.name == pre.name
            &&& post.is_important == pre.is_important
            &&& post.edit_state == pre.edit_state
            &&& post.focus_requested == pre.focus_requested
        },
        ItemOp::ToggleImportant => {
            &&& post.is_important == !pre.is_important
            &&& post.name == pre.name
            &&& post.is_done == pre.is_done
            &&& post.edit_state == pre.edit_state
            &&& post.focus_requested == pre.focus_requested
        },
    }
}

/// Whether a list intent changes persisted state. Appending an item does so
/// only when the trimmed label is nonempty; removal is handled separately
/// since it can fail.
pub open spec fn list_op_dirties(op: ListOp) -> bool {
    match op {
        ListOp::BeginEdit => false,
        ListOp::CommitEdit(_) => true,
        ListOp::ToggleOpen => false,
        ListOp::AddItem(n) => trim_spec(n@).len() > 0,
        ListOp::RemoveItem(_) => true,
    }
}

/// How a list looks after an intent was applied to it, for the intents that
/// always succeed (`RemoveItem` is specified on `Board::mutate_list`
/// directly, since it can fail).
pub open spec fn list_op_applied(pre: List, post: List, op: ListOp) -> bool {
    match op {
        ListOp::BeginEdit => {
            &&& post.edit_state == EditState::Editing
            &&& post.focus_requested
            &&& post.name == pre.name
            &&& post.items == pre.items
            &&& post.is_open == pre.is_open
            &&& post.pending_new_item_text == pre.pending_new_item_text
        },
        ListOp::CommitEdit(n) => {
            &&& post.name@ == trim_spec(n@)
            &&& post.edit_state == EditState::Viewing
            &&& !post.focus_requested
            &&& post.items == pre.items
            &&& post.is_open == pre.is_open
            &&& post.pending_new_item_text == pre.pending_new_item_text
        },
        ListOp::ToggleOpen => {
            &&& post.is_open == !pre.is_open
            &&& post.name == pre.name
            &&& post.items == pre.items
            &&& post.edit_state == pre.edit_state
            &&& post.focus_requested == pre.focus_requested
            &&& post.pending_new_item_text == pre.pending_new_item_text
        },
        ListOp::AddItem(n) => {
            &&& (trim_spec(n@).len() == 0 ==> post == pre)
            &&& (trim_spec(n@).len() > 0 ==> {
                &&& post.items@.len() == pre.items@.len() + 1
                &&& post.items@.drop_last() == pre.items@
                &&& post.items@.last().name@ == trim_spec(n@)
                &&& !post.items@.last().is_done
                &&& !post.items@.last().is_important
                &&& item_fresh(post.items@.last())
                &&& post.name == pre.name
                &&& post.edit_state == pre.edit_state
                &&& post.focus_requested == pre.focus_requested
                &&& post.is_open == pre.is_open
                &&& post.pending_new_item_text == pre.pending_new_item_text
            })
        },
        ListOp::RemoveItem(i) => {
            &&& (i < pre.items@.len() ==> {
                &&& post.items@ == pre.items@.remove(i as int)
                &&& post.name == pre.name
                &&& post.edit_state == pre.edit_state
                &&& post.focus_requested == pre.focus_requested
                &&& post.is_open == pre.is_open
                &&& post.pending_new_item_text == pre.pending_new_item_text
            })
            &&& (i >= pre.items@.len() ==> post == pre)
        },
    }
}

/// The board: all lists, the creation scratch buffer, the dirty flag and the
/// time of the last save dispatch.
pub struct Board {
    /// The lists, in display order. The order is not kept stable across
    /// deletions.
    pub lists: Vec<List>,
    /// Transient scratch buffer for creating a new list.
    pub pending_new_list_text: Vec<u8>,
    /// True iff in-memory state may differ from the last persisted snapshot.
    pub dirty: bool,
    /// Time of the last save dispatch, in the same units as `tick`'s `now`.
    pub last_save_time: u64,
}

impl Board {
    /// Whether a call of `tick` at time `now` dispatches a save: there are
    /// unsaved changes and at least `SAVE_INTERVAL` has elapsed since the
    /// last dispatch.
    pub open spec fn save_due(self, now: u64) -> bool {
        self.dirty && now - self.last_save_time >= SAVE_INTERVAL
    }

    /// An empty, clean board.
    pub fn new(now: u64) -> (r: Board)
        ensures
            r.lists@ == Seq::<List>::empty(),
            r.pending_new_list_text@ == Seq::<u8>::empty(),
            !r.dirty,
            r.last_save_time == now,
    {
        Board {
            lists: Vec::new(),
            pending_new_list_text: Vec::new(),
            dirty: false,
            last_save_time: now,
        }
    }

    /// A clean board over already-loaded lists.
    pub fn from_lists(lists: Vec<List>, now: u64) -> (r: Board)
        ensures
            r.lists == lists,
            r.pending_new_list_text@ == Seq::<u8>::empty(),
            !r.dirty,
            r.last_save_time == now,
    {
        Board { lists, pending_new_list_text: Vec::new(), dirty: false, last_save_time: now }
    }

    /// Appends a new list named `name`, trimmed, and marks the board dirty;
    /// a name that trims to nothing is ignored. Returns whether a list was
    /// added.
    pub fn add_list(&mut self, name: Vec<u8>) -> (added: bool)
        ensures
            added == (trim_spec(name@).len() > 0),
            !added ==> *final(self) == *old(self),
            added ==> {
                &&& final(self).lists@.len() == old(self).lists@.len() + 1
                &&& final(self).lists@.drop_last() == old(self).lists@
                &&& final(self).lists@.last().name@ == trim_spec(name@)
                &&& final(self).lists@.last().items@ == Seq::<Item>::empty()
                &&& list_fresh(final(self).lists@.last())
                &&& final(self).dirty
                &&& final(self).last_save_time == old(self).last_save_time
                &&& final(self).pending_new_list_text == old(self).pending_new_list_text
            },
    {
        let trimmed = trim(&name);
        if trimmed.len() == 0 {
            false
        } else {
            let l = List {
                name: trimmed,
                items: Vec::new(),
                edit_state: EditState::Viewing,
                focus_requested: false,
                is_open: true,
                pending_new_item_text: Vec::new(),
            };
            self.lists.push(l);
            self.dirty = true;
            proof {
                assert(self.lists@.drop_last() =~= old(self).lists@);
            }
            true
        }
    }

    /// Removes the list at `index` with a swap delete — the last list takes
    /// its place, so surviving lists may be reordered — and marks the board
    /// dirty. Fails with `OutOfRange`, leaving the board unchanged, when
    /// `index` does not name a list.
    pub fn remove_list(&mut self, index: usize) -> (r: Result<(), TodoError>)
        ensures
            index < old(self).lists@.len() ==> {
                &&& r == Ok::<(), TodoError>(())
                &&& final(self).lists@ == old(self).lists@.update(
                    index as int,
                    old(self).lists@.last(),
                ).drop_last()
                &&& final(self).dirty
                &&& final(self).last_save_time == old(self).last_save_time
                &&& final(self).pending_new_list_text == old(self).pending_new_list_text
            },
            index >= old(self).lists@.len() ==> {
                &&& r == Err::<(), TodoError>(TodoError::OutOfRange)
                &&& *final(self) == *old(self)
            },
    {
        if index < self.lists.len() {
            self.lists.swap_remove(index);
            self.dirty = true;
            Ok(())
        } else {
            Err(TodoError::OutOfRange)
        }
    }

    /// Routes an item intent to the item at `(list_index, item_index)`.
    /// Fails with `OutOfRange`, leaving the board unchanged, when either
    /// index is invalid at the time of the call.
    pub fn mutate_item(&mut self, list_index: usize, item_index: usize, op: ItemOp) -> (r: Result<
        (),
        TodoError,
    >)
        ensures
            (list_index < old(self).lists@.len() && item_index < old(self).lists@[list_index as int].items@.len()) ==> ({
                let pre = old(self).lists@[list_index as int];
                let post = final(self).lists@[list_index as int];
                &&& r == Ok::<(), TodoError>(())
                &&& final(self).lists@ == old(self).lists@.update(list_index as int, post)
                &&& post.items@ == pre.items@.update(
                    item_index as int,
                    post.items@[item_index as int],
                )
                &&& item_op_applied(pre.items@[item_index as int], post.items@[item_index as int], op)
                &&& post.name == pre.name
                &&& post.edit_state == pre.edit_state
                &&& post.focus_requested == pre.focus_requested
                &&& post.is_open == pre.is_open
                &&& post.pending_new_item_text == pre.pending_new_item_text
                &&& final(self).dirty == (old(self).dirty || item_op_dirties(op))
                &&& final(self).last_save_time == old(self).last_save_time
                &&& final(self).pending_new_list_text == old(self).pending_new_list_text
            }),
            !(list_index < old(self).lists@.len() && item_index < old(self).lists@[list_index as int].items@.len()) ==> ({
                &&& r == Err::<(), TodoError>(TodoError::OutOfRange)
                &&& *final(self) == *old(self)
            }),
    {
        if list_index >= self.lists.len() {
            return Err(TodoError::OutOfRange);
        }
        if item_index >= self.lists[list_index].items.len() {
            return Err(TodoError::OutOfRange);
        }
        let dirties = !(matches!(op, ItemOp::BeginEdit));
        let l = &mut self.lists[list_index];
        let it = &mut l.items[item_index];
        match op {
            ItemOp::BeginEdit => it.begin_edit(),
            ItemOp::CommitEdit(n) => it.commit_edit(n),
            ItemOp::ToggleDone => it.toggle_done(),
            ItemOp::ToggleImportant => it.toggle_important(),
        }
        if dirties {
            self.dirty = true;
        }
        Ok(())
    }

    /// Routes a list intent to the list at `list_index`. Fails with
    /// `OutOfRange`, leaving the board unchanged, when `list_index` is
    /// invalid, or when the intent is `RemoveItem` with an invalid item
    /// index.
    pub fn mutate_list(&mut self, list_index: usize, op: ListOp) -> (r: Result<(), TodoError>)
        ensures
            (list_index < old(self).lists@.len() && (op matches ListOp::RemoveItem(i) ==> i
                < old(self).lists@[list_index as int].items@.len())) ==> ({
                let pre = old(self).lists@[list_index as int];
                let post = final(self).lists@[list_index as int];
                &&& r == Ok::<(), TodoError>(())
                &&& final(self).lists@ == old(self).lists@.update(list_index as int, post)
                &&& list_op_applied(pre, post, op)
                &&& final(self).dirty == (old(self).dirty || list_op_dirties(op))
                &&& final(self).last_save_time == old(self).last_save_time
                &&& final(self).pending_new_list_text == old(self).pending_new_list_text
            }),
            !(list_index < old(self).lists@.len() && (op matches ListOp::RemoveItem(i) ==> i
                < old(self).lists@[list_index as int].items@.len())) ==> ({
                &&& r == Err::<(), TodoError>(TodoError::OutOfRange)
                &&& *final(self) == *old(self)
            }),
    {
        if list_index >= self.lists.len() {
            return Err(TodoError::OutOfRange);
        }
        match op {
            ListOp::BeginEdit => {
                let l = &mut self.lists[list_index];
                l.begin_edit();
                Ok(())
            },
            ListOp::CommitEdit(n) => {
                let l = &mut self.lists[list_index];
                l.commit_edit(n);
                self.dirty = true;
                Ok(())
            },
            ListOp::ToggleOpen => {
                let l = &mut self.lists[list_index];
                l.toggle_open();
                Ok(())
            },
            ListOp::AddItem(n) => {
                let l = &mut self.lists[list_index];
                let added = l.add_item(n);
                if added {
                    self.dirty = true;
                }
                Ok(())
            },
            ListOp::RemoveItem(i) => {
                if i >= self.lists[list_index].items.len() {
                    return Err(TodoError::OutOfRange);
                }
                let l = &mut self.lists[list_index];
                let _removed = l.remove_item(i);
                self.dirty = true;
                Ok(())
            },
        }
    }

    /// The autosave policy, called once per cycle. When a save is due —
    /// the board is dirty and `SAVE_INTERVAL` has elapsed since the last
    /// dispatch — it returns a snapshot carrying the same persisted state as
    /// the live lists, and optimistically marks the board clean at dispatch
    /// time. Otherwise it returns nothing and changes nothing: in
    /// particular, a tick on a clean board never moves `last_save_time`.
    pub fn tick(&mut self, now: u64) -> (r: Option<Vec<List>>)
        ensures
            !old(self).save_due(now) ==> r is None && *final(self) == *old(self),
            !old(self).dirty ==> r is None && *final(self) == *old(self),
            old(self).save_due(now) ==> ({
                &&& r matches Some(snap) && docs_of(snap@) == docs_of(old(self).lists@) && (
                forall|j: int| 0 <= j < snap@.len() ==> list_fresh(#[trigger] snap@[j]))
                &&& final(self).lists == old(self).lists
                &&& final(self).pending_new_list_text == old(self).pending_new_list_text
                &&& !final(self).dirty
                &&& final(self).last_save_time == now
            }),
    {
        if self.dirty && now >= self.last_save_time && now - self.last_save_time >= SAVE_INTERVAL {
            let snap = snapshot_lists(&self.lists);
            self.dirty = false;
            self.last_save_time = now;
            Some(snap)
        } else {
            None
        }
    }

    /// To be called when handing a snapshot off to the background writer
    /// failed: the state was not captured, so the board is dirty again and
    /// the next cycle will retry.
    pub fn dispatch_failed(&mut self)
        ensures
            final(self).dirty,
            final(self).lists == old(self).lists,
            final(self).pending_new_list_text == old(self).pending_new_list_text,
            final(self).last_save_time == old(self).last_save_time,
    {
        self.dirty = true;
    }
}

/// Debounce law: right after a save was dispatched at time `t`, no tick
/// strictly inside the interval `[t, t + SAVE_INTERVAL)` dispatches another
/// save, whatever mutations have set the dirty flag meanwhile — mutations
/// never move `last_save_time`, only `tick` does.
pub proof fn lemma_debounce(b: Board, t: u64, now: u64)
    requires
        b.last_save_time == t,
        now - t < SAVE_INTERVAL,
    ensures
        !b.save_due(now),
{
}

/// Stable-delete law: removing the item at `i` keeps every surviving item
/// at its relative position — items before `i` stay in place, items after
/// `i` each move one slot forward, so the survivors' order is untouched.
pub proof fn lemma_stable_remove(s: Seq<Item>, i: int)
    requires
        0 <= i < s.len(),
    ensures
        s.remove(i).len() == s.len() - 1,
        forall|j: int| 0 <= j < i ==> s.remove(i)[j] == s[j],
        forall|j: int| i <= j < s.len() - 1 ==> s.remove(i)[j] == s[j + 1],
{
}

/// Appending never disturbs order: every existing item keeps its position.
/// Together with the stable-delete law this covers every mutation of a
/// list's item sequence, so surviving items keep their relative order
/// through any run of additions and removals.
pub proof fn lemma_append_keeps_order(s: Seq<Item>, x: Item)
    ensures
        s.push(x).len() == s.len() + 1,
        forall|j: int| 0 <= j < s.len() ==> s.push(x)[j] == s[j],
        s.push(x)[s.len() as int] == x,
{
}

/// Swap-delete law: removing the list at `i` moves the last list into slot
/// `i` and leaves every other surviving list in place. Removal is not
/// order-preserving: the last element changes position whenever `i` is not
/// the last slot.
pub proof fn lemma_swap_remove_survivors(s: Seq<List>, i: int)
    requires
        0 <= i < s.len(),
    ensures
        s.update(i, s.last()).drop_last().len() == s.len() - 1,
        forall|j: int|
            0 <= j < s.len() - 1 && j != i ==> s.update(i, s.last()).drop_last()[j] == s[j],
        i < s.len() - 1 ==> s.update(i, s.last()).drop_last()[i] == s[s.len() - 1],
{
}

/// Copies label bytes.
fn copy_bytes(v: &Vec<u8>) -> (r: Vec<u8>)
    ensures
        r@ == v@,
{
    let mut r: Vec<u8> = Vec::new();
    let mut i: usize = 0;
    while i < v.len()
        invariant
            0 <= i <= v@.len(),
            r@ == v@.subrange(0, i as int),
        decreases v@.len() - i,
    {
        r.push(v[i]);
        proof {
            assert(r@ =~= v@.subrange(0, i as int + 1));
        }
        i = i + 1;
    }
    proof {
        assert(v@.subrange(0, v@.len() as int) =~= v@);
    }
    r
}

/// Copies the persisted fields of an item; the copy's transient state is
/// fresh.
fn copy_item(it: &Item) -> (r: Item)
    ensures
        item_doc(r) == item_doc(*it),
        item_fresh(r),
{
    Item {
        name: copy_bytes(&it.name),
        is_done: it.is_done,
        is_important: it.is_important,
        edit_state: EditState::Viewing,
        focus_requested: false,
    }
}

/// Copies the persisted fields of a list; the copy's transient state is
/// fresh.
fn copy_list(l: &List) -> (r: List)
    ensures
        list_doc(r) == list_doc(*l),
        list_fresh(r),
{
    let mut items: Vec<Item> = Vec::new();
    let mut i: usize = 0;
    proof {
        assert(items_docs(items@) =~= items_docs(l.items@.take(0)));
    }
    while i < l.items.len()
        invariant
            0 <= i <= l.items@.len(),
            items_docs(items@) == items_docs(l.items@.take(i as int)),
        decreases l.items@.len() - i,
    {
        let c = copy_item(&l.items[i]);
        proof {
            lemma_items_docs_push(items@, c);
            lemma_items_docs_push(l.items@.take(i as int), l.items@[i as int]);
            assert(l.items@.take(i as int + 1) =~= l.items@.take(i as int).push(
                l.items@[i as int],
            ));
        }
        items.push(c);
        i = i + 1;
    }
    proof {
        assert(l.items@.take(l.items@.len() as int) =~= l.items@);
    }
    List {
        name: copy_bytes(&l.name),
        items,
        edit_state: EditState::Viewing,
        focus_requested: false,
        is_open: true,
        pending_new_item_text: Vec::new(),
    }
}

/// An owned snapshot of the persisted state of `lists`: same document, fresh
/// transient state. The save path works on the snapshot alone, so mutations
/// made while a write is in flight are invisible to that write.
pub fn snapshot_lists(lists: &Vec<List>) -> (r: Vec<List>)
    ensures
        docs_of(r@) == docs_of(lists@),
        forall|j: int| 0 <= j < r@.len() ==> list_fresh(#[trigger] r@[j]),
{
    let mut r: Vec<List> = Vec::new();
    let mut i: usize = 0;
    proof {
        assert(docs_of(r@) =~= docs_of(lists@.take(0)));
    }
    while i < lists.len()
        invariant
            0 <= i <= lists@.len(),
            docs_of(r@) == docs_of(lists@.take(i as int)),
            forall|j: int| 0 <= j < r@.len() ==> list_fresh(#[trigger] r@[j]),
        decreases lists@.len() - i,
    {
        let c = copy_list(&lists[i]);
        proof {
            lemma_docs_of_push(r@, c);
            lemma_docs_of_push(lists@.take(i as int), lists@[i as int]);
            assert(lists@.take(i as int + 1) =~= lists@.take(i as int).push(lists@[i as int]));
        }
        r.push(c);
        i = i + 1;
    }
    proof {
        assert(lists@.take(lists@.len() as int) =~= lists@);
    }
    r
}

} // verus!
