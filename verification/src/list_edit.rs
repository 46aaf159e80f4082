use vstd::prelude::*;
use crate::text::{push_decimal, string_push, string_push_str, decimal};

verus! {

/// Marks the key type of a list container.
pub trait ListContainerKey<K> {}

/// A list that the list widget can show and edit: items by index, each with a
/// key that drag and drop carries.
pub trait ListContainer<K>: ListContainerKey<K> {
    type Key;
    type Item;

    /// The items, in order.
    spec fn items(&self) -> Seq<Self::Item>;

    fn len(&self) -> (r: usize)
        ensures
            r == self.items().len();

    fn nth(&self, index: usize) -> (r: &Self::Item)
        requires
            index < self.items().len(),
        ensures
            *r == self.items()[index as int];

    fn remove(&mut self, index: usize) -> (r: Self::Item)
        requires
            index < old(self).items().len(),
        ensures
            r == old(self).items()[index as int],
            final(self).items() == old(self).items().remove(index as int);

    fn insert(&mut self, key: Self::Key, item: Self::Item)
        ensures
            final(self).items() == old(self).items().push(item);

    fn insert_at_index(&mut self, index: usize, key: Self::Key, item: Self::Item)
        requires
            index <= old(self).items().len(),
        ensures
            final(self).items() == old(self).items().insert(index as int, item);
}

impl<K: Copy, T> ListContainerKey<K> for Vec<T> {}

impl<K: Copy, T> ListContainer<K> for Vec<T> {
    type Key = K;
    type Item = T;

    open spec fn items(&self) -> Seq<T> {
        self@
    }

    fn len(&self) -> (r: usize) {
        Vec::len(self)
    }

    fn nth(&self, index: usize) -> (r: &T) {
        &self[index]
    }

    fn remove(&mut self, index: usize) -> (r: T) {
        Vec::remove(self, index)
    }

    fn insert(&mut self, _key: K, item: T) {
        self.push(item);
    }

    fn insert_at_index(&mut self, index: usize, _key: K, item: T) {
        Vec::insert(self, index, item);
    }
}

/// Which item of a list is selected, if any.
#[derive(Default, Clone, Copy, Debug, PartialEq, Eq, Structural)]
pub struct ListState {
    pub selected: Option<usize>,
}

impl ListState {
    /// The state after the item at `index` was clicked: a click on the
    /// selected item clears the selection, a click elsewhere selects it.
    pub fn clicked(self, index: usize) -> (r: ListState)
        ensures
            r.selected == (if self.selected == Some(index) {
                None
            } else {
                Some(index)
            }),
    {
        if self.selected == Some(index) {
            ListState { selected: None }
        } else {
            ListState { selected: Some(index) }
        }
    }
}

/// Where a dragged item lands: after the target's parent when the target is
/// inside a container (`target_parent` is not `usize::MAX`), else at the
/// target position; never past the end of a list of `len` items.
pub open spec fn drop_index_spec(target_parent: usize, target_position: usize, len: usize) -> usize {
    let raw: int = if target_parent != usize::MAX {
        target_parent + 1
    } else {
        target_position as int
    };
    if raw > len {
        len
    } else {
        raw as usize
    }
}

/// The index a dragged item is dropped at.
pub fn drop_index(target_parent: usize, target_position: usize, len: usize) -> (r: usize)
    ensures
        r == drop_index_spec(target_parent, target_position, len),
        r <= len,
{
    let raw = if target_parent != usize::MAX {
        target_parent + 1
    } else {
        target_position
    };
    if raw > len {
        len
    } else {
        raw
    }
}

/// The list `s` after its item at `from` was dragged to the gap before index
/// `to` (an index into `s`, up to its length).
pub open spec fn moved<T>(s: Seq<T>, from: int, to: int) -> Seq<T> {
    if from == to {
        s
    } else {
        s.remove(from).insert(if from < to { to - 1 } else { to }, s[from])
    }
}

/// Drops the item at `from` into the gap before `to`, keeping its key.
pub fn move_item<K, L: ListContainer<K>>(list: &mut L, from: usize, to: usize, key: L::Key)
    requires
        from < old(list).items().len(),
        to <= old(list).items().len(),
    ensures
        final(list).items() == moved(old(list).items(), from as int, to as int),
{
    if from != to {
        let value = list.remove(from);
        let target = if from < to { to - 1 } else { to };
        list.insert_at_index(target, key, value);
    }
}

/// Removes the selected item, if any, and clears the selection.
pub fn remove_selected<K, L: ListContainer<K>>(list: &mut L, state: &mut ListState)
    requires
        old(state).selected matches Some(i) ==> i < old(list).items().len(),
    ensures
        final(state).selected is None,
        final(list).items() == match old(state).selected {
            Some(i) => old(list).items().remove(i as int),
            None => old(list).items(),
        },
{
    if let Some(index) = state.selected {
        let _ = list.remove(index);
        state.selected = None;
    }
}

/// The buttons of a list header: optional add and remove actions, and
/// whether removing is enabled.
pub struct ListButtons<A, R> {
    pub on_click_add: Option<A>,
    pub on_click_remove: Option<R>,
    pub remove_enabled: bool,
}

impl<A, R> ListButtons<A, R> {
    /// Buttons without actions, with removing enabled.
    pub fn new() -> (r: ListButtons<A, R>)
        ensures
            r.on_click_add is None,
            r.on_click_remove is None,
            r.remove_enabled,
    {
        ListButtons { on_click_add: None, on_click_remove: None, remove_enabled: true }
    }

    /// The same buttons, with `on_click` run when add is clicked.
    pub fn on_click_add<F>(self, on_click: F) -> (r: ListButtons<F, R>)
        ensures
            r.on_click_add == Some(on_click),
            r.on_click_remove == self.on_click_remove,
            r.remove_enabled == self.remove_enabled,
    {
        ListButtons {
            on_click_add: Some(on_click),
            on_click_remove: self.on_click_remove,
            remove_enabled: self.remove_enabled,
        }
    }

    /// The same buttons, with `on_click` run when remove is clicked.
    pub fn on_click_remove<F>(self, on_click: F) -> (r: ListButtons<A, F>)
        ensures
            r.on_click_add == self.on_click_add,
            r.on_click_remove == Some(on_click),
            r.remove_enabled == self.remove_enabled,
    {
        ListButtons {
            on_click_add: self.on_click_add,
            on_click_remove: Some(on_click),
            remove_enabled: self.remove_enabled,
        }
    }

    /// The same buttons, with removing enabled or not.
    pub fn remove_enabled(self, enabled: bool) -> (r: ListButtons<A, R>)
        ensures
            r.on_click_add == self.on_click_add,
            r.on_click_remove == self.on_click_remove,
            r.remove_enabled == enabled,
    {
        ListButtons {
            on_click_add: self.on_click_add,
            on_click_remove: self.on_click_remove,
            remove_enabled: enabled,
        }
    }
}

/// An item as the list shows it: its value, index, and whether it is
/// selected.
pub struct ListItemContext<T> {
    pub value: T,
    pub index: usize,
    pub selected: bool,
}

impl<T> ListItemContext<T> {
    /// The context of `value` at `index` under `state`.
    pub fn new(value: T, index: usize, state: ListState) -> (r: ListItemContext<T>)
        ensures
            r.value == value,
            r.index == index,
            r.selected == (state.selected == Some(index)),
    {
        ListItemContext { value, index, selected: state.selected == Some(index) }
    }
}

/// How a list is shown: its label and display options.
pub struct List {
    pub label: String,
    pub default_open: bool,
    pub show_count: bool,
    pub header: bool,
    pub interactive: bool,
    pub drag_and_drop: bool,
    pub indented: bool,
}

/// The header text of a list labelled `label` with `len` items.
pub open spec fn header_text_of(label: Seq<char>, show_count: bool, len: usize) -> Seq<char> {
    if show_count {
        label + " ("@ + decimal(len as nat) + ")"@
    } else {
        label
    }
}

impl List {
    /// A list labelled `label`: open at first, showing its count, drawn
    /// indented, draggable, without header background and not interactive.
    pub fn new(label: String) -> (r: List)
        ensures
            r.label == label,
            r.default_open,
            r.show_count,
            !r.header,
            !r.interactive,
            r.drag_and_drop,
            r.indented,
    {
        List {
            label,
            default_open: true,
            show_count: true,
            header: false,
            interactive: false,
            drag_and_drop: true,
            indented: true,
        }
    }

    /// Sets whether the items are indented.
    pub fn indented(self, indented: bool) -> (r: List)
        ensures
            r == (List { indented, ..self }),
    {
        List { indented, ..self }
    }

    /// Sets whether the header reacts to the pointer.
    pub fn interactive(self, interactive: bool) -> (r: List)
        ensures
            r == (List { interactive, ..self }),
    {
        List { interactive, ..self }
    }

    /// Sets whether the header is drawn as a section header.
    pub fn header(self, header: bool) -> (r: List)
        ensures
            r == (List { header, ..self }),
    {
        List { header, ..self }
    }

    /// Sets whether the header shows the item count.
    pub fn show_count(self, show_count: bool) -> (r: List)
        ensures
            r == (List { show_count, ..self }),
    {
        List { show_count, ..self }
    }

    /// Sets whether the list starts open.
    pub fn default_open(self, default_open: bool) -> (r: List)
        ensures
            r == (List { default_open, ..self }),
    {
        List { default_open, ..self }
    }

    /// Sets whether items can be reordered by dragging.
    pub fn drag_and_drop(self, drag_and_drop: bool) -> (r: List)
        ensures
            r == (List { drag_and_drop, ..self }),
    {
        List { drag_and_drop, ..self }
    }

    /// The header text for `len` items: the label, followed by ` (<len>)`
    /// when the count is shown.
    pub fn header_text(&self, len: usize) -> (r: String)
        ensures
            r@ == header_text_of(self.label@, self.show_count, len),
    {
        let mut s = self.label.clone();
        if self.show_count {
            string_push_str(&mut s, " (");
            push_decimal(&mut s, len as u64);
            string_push(&mut s, ')');
            proof {
                assert(s@ =~= header_text_of(self.label@, self.show_count, len)) by {
                    assert(")"@ =~= seq![')']) by {
                        reveal_strlit(")");
                    }
                }
            }
        }
        s
    }
}

/// Where a moved item ends up: one place before `to` when it moves down.
pub open spec fn landing(from: int, to: int) -> int {
    if from < to {
        to - 1
    } else {
        to
    }
}

/// A move keeps the list's items and length, and puts the moved item at its
/// landing place.
pub proof fn law_move_keeps_items<T>(s: Seq<T>, from: int, to: int)
    requires
        0 <= from < s.len(),
        0 <= to <= s.len(),
    ensures
        moved(s, from, to).len() == s.len(),
        moved(s, from, to).to_multiset() == s.to_multiset(),
        moved(s, from, to)[landing(from, to)] == s[from],
{
    broadcast use vstd::seq_lib::group_to_multiset_ensures;
    broadcast use vstd::multiset::group_multiset_axioms;
    if from != to {
        let r = s.remove(from);
        vstd::seq_lib::to_multiset_remove(s, from);
        vstd::seq_lib::to_multiset_insert(r, landing(from, to), s[from]);
        assert(s.to_multiset().count(s[from]) > 0) by {
            assert(s.contains(s[from]));
        }
        assert(s.to_multiset().remove(s[from]).insert(s[from]) =~= s.to_multiset());
    }
}

/// Moving an item back from its landing place undoes the move.
pub proof fn law_move_back_restores<T>(s: Seq<T>, from: int, to: int)
    requires
        0 <= from < s.len(),
        0 <= to <= s.len(),
    ensures
        moved(moved(s, from, to), landing(from, to), if from < to { from } else { from + 1 }) == s,
{
    let m = moved(s, from, to);
    let l = landing(from, to);
    let back = if from < to { from } else { from + 1 };
    if from != to {
        assert(m[l] == s[from]);
        if l != back {
            assert(moved(m, l, back) =~= s);
        } else {
            assert(m =~= s);
            assert(moved(m, l, back) =~= s);
        }
    } else {
        assert(moved(m, l, back) =~= s);
    }
}

} // verus!
