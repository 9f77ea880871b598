//! The groups of the soundscape editor, and which of them is selected.
//!
//! The editor panel lists the groups of sound sources by name. A group can be
//! added, selected, renamed and removed. What the widgets look like is none
//! of this file's business: it keeps the groups and answers each of those
//! events.

use std::collections::HashMap;
use vstd::prelude::*;
use vstd::std_specs::hash::group_hash_axioms;
use vstd::std_specs::hash::spec_keys_iter;
use vstd::std_specs::iter::IteratorSpec;
use vstd::utf8::encode_utf8;

verus! {

broadcast use group_hash_axioms;

/// Names one group of sound sources.
pub type GroupId = u64;

/// The group that is selected, and its name as it stands in the text box.
/// The name of the group itself only follows when the edit is confirmed.
#[derive(Clone, Debug, PartialEq, Eq)]
pub struct Selected {
    pub name: String,
    pub id: GroupId,
}

/// The state of the editor panel.
#[derive(Clone, Debug, PartialEq, Eq)]
pub struct SoundscapeEditor {
    /// Whether the panel is unfolded.
    pub is_open: bool,
    /// The groups, by id, with their names.
    pub groups: HashMap<GroupId, String>,
    /// The id that the next new group gets.
    pub next_group_id: GroupId,
    pub selected: Option<Selected>,
}

/// The part of the editor's state that is kept between runs.
#[derive(Clone, Debug, PartialEq, Eq)]
pub struct Stored {
    pub groups: HashMap<GroupId, String>,
    pub next_group_id: GroupId,
}

impl Default for Stored {
    /// No groups, and ids start from nought.
    fn default() -> (stored: Self)
        ensures
            stored.groups@ == Map::<GroupId, String>::empty(),
            stored.next_group_id == 0,
    {
        Stored { groups: HashMap::new(), next_group_id: 0 }
    }
}

/// The name that a new group has until it is given one.
pub open spec fn unnamed() -> Seq<char> {
    "<unnamed>"@
}

/// Whether the name spelt by the bytes `a` stands before the name spelt by
/// `b` in the list of groups, or is the same name. Names are compared byte
/// by byte from the front: the first byte that differs decides, and a name
/// that runs out before one does stands first.
pub open spec fn in_order(a: Seq<u8>, b: Seq<u8>) -> bool
    decreases a.len(),
{
    if a.len() == 0 {
        true
    } else if b.len() == 0 {
        false
    } else if a[0] != b[0] {
        a[0] < b[0]
    } else {
        in_order(a.drop_first(), b.drop_first())
    }
}

/// Whether `rows`, each the id and the name of a group, stand in the order
/// of their names.
pub open spec fn rows_in_order(rows: Seq<(GroupId, String)>) -> bool {
    forall|i: int, j: int|
        0 <= i < j < rows.len() ==> in_order(encode_utf8(rows[i].1@), encode_utf8(rows[j].1@))
}

/// Of two names, one stands before the other or they are the same.
pub proof fn lemma_in_order_total(a: Seq<u8>, b: Seq<u8>)
    ensures
        in_order(a, b) || in_order(b, a),
    decreases a.len(),
{
    if a.len() > 0 && b.len() > 0 && a[0] == b[0] {
        lemma_in_order_total(a.drop_first(), b.drop_first());
    }
}

/// What stands before a name stands before all that the name stands before.
pub proof fn lemma_in_order_transitive(a: Seq<u8>, b: Seq<u8>, c: Seq<u8>)
    requires
        in_order(a, b),
        in_order(b, c),
    ensures
        in_order(a, c),
    decreases a.len(),
{
    if a.len() > 0 && b.len() > 0 && c.len() > 0 && a[0] == b[0] && b[0] == c[0] {
        lemma_in_order_transitive(a.drop_first(), b.drop_first(), c.drop_first());
    }
}

/// The ids of `rows`, in the order of the rows.
pub open spec fn row_ids(rows: Seq<(GroupId, String)>) -> Seq<GroupId> {
    rows.map_values(|row: (GroupId, String)| row.0)
}

/// A list with one thing more put in holds what it held and that thing, and
/// holds nothing twice if it did not before and the thing is new.
proof fn lemma_insert_one(list: Seq<GroupId>, at: int, id: GroupId)
    requires
        0 <= at <= list.len(),
    ensures
        list.insert(at, id).to_set() == list.to_set().insert(id),
        list.no_duplicates() && !list.to_set().contains(id) ==> list.insert(at, id).no_duplicates(),
{
    let more = list.insert(at, id);
    assert forall|x: GroupId| more.to_set().contains(x) implies list.to_set().insert(id).contains(
        x,
    ) by {
        let i = choose|i: int| 0 <= i < more.len() && more[i] == x;
        if i < at {
            assert(list[i] == x);
        } else if i > at {
            assert(list[i - 1] == x);
        }
    }
    assert forall|x: GroupId| list.to_set().insert(id).contains(x) implies more.to_set().contains(
        x,
    ) by {
        if x == id {
            assert(more[at] == x);
        } else {
            let i = choose|i: int| 0 <= i < list.len() && list[i] == x;
            let to_i = if i < at { i } else { i + 1 };
            assert(more[to_i] == x);
        }
    }
    assert(more.to_set() =~= list.to_set().insert(id));
    if list.no_duplicates() && !list.to_set().contains(id) {
        assert forall|i: int, j: int| 0 <= i < j < more.len() implies more[i] != more[j] by {
            let from_i = if i < at { i } else { i - 1 };
            let from_j = if j < at { j } else { j - 1 };
            if i != at && j != at {
                assert(more[i] == list[from_i]);
                assert(more[j] == list[from_j]);
            } else if i == at {
                assert(more[j] == list[from_j]);
                assert(list.to_set().contains(list[from_j]));
            } else {
                assert(more[i] == list[from_i]);
                assert(list.to_set().contains(list[from_i]));
            }
        }
    }
}

/// The first ids of a list and the next one are the first ids taken one
/// further, and in a list that holds nothing twice the next one is not
/// among the first.
proof fn lemma_take_one_more(list: Seq<GroupId>, seen: int)
    requires
        0 <= seen < list.len(),
    ensures
        list.take(seen + 1).to_set() == list.take(seen).to_set().insert(list[seen]),
        list.no_duplicates() ==> !list.take(seen).to_set().contains(list[seen]),
{
    let short = list.take(seen);
    let long = list.take(seen + 1);
    assert forall|x: GroupId| long.to_set().contains(x) implies short.to_set().insert(
        list[seen],
    ).contains(x) by {
        let i = choose|i: int| 0 <= i < long.len() && long[i] == x;
        if i < seen {
            assert(short[i] == x);
        }
    }
    assert forall|x: GroupId| short.to_set().insert(list[seen]).contains(
        x,
    ) implies long.to_set().contains(x) by {
        if x == list[seen] {
            assert(long[seen] == x);
        } else {
            let i = choose|i: int| 0 <= i < short.len() && short[i] == x;
            assert(long[i] == x);
        }
    }
    assert(long.to_set() =~= short.to_set().insert(list[seen]));
    if list.no_duplicates() && short.to_set().contains(list[seen]) {
        let i = choose|i: int| 0 <= i < short.len() && short[i] == list[seen];
        assert(list[i] == list[seen]);
    }
}

/// Whether `a` stands before `b` in the list of groups, or is the same name.
fn name_in_order(a: &str, b: &str) -> (ordered: bool)
    ensures
        ordered == in_order(encode_utf8(a@), encode_utf8(b@)),
{
    let left = a.as_bytes();
    let right = b.as_bytes();
    let mut i: usize = 0;
    proof {
        assert(left@.subrange(0, left@.len() as int) =~= left@);
        assert(right@.subrange(0, right@.len() as int) =~= right@);
    }
    loop
        invariant
            left@ == encode_utf8(a@),
            right@ == encode_utf8(b@),
            i <= left@.len(),
            i <= right@.len(),
            in_order(left@, right@) == in_order(
                left@.subrange(i as int, left@.len() as int),
                right@.subrange(i as int, right@.len() as int),
            ),
        decreases left@.len() - i,
    {
        if i == left.len() {
            return true;
        }
        if i == right.len() {
            return false;
        }
        if left[i] != right[i] {
            return left[i] < right[i];
        }
        proof {
            let rest_left = left@.subrange(i as int, left@.len() as int);
            let rest_right = right@.subrange(i as int, right@.len() as int);
            assert(rest_left.drop_first() =~= left@.subrange(i + 1, left@.len() as int));
            assert(rest_right.drop_first() =~= right@.subrange(i + 1, right@.len() as int));
        }
        i += 1;
    }
}

/// Puts the row of a group into `rows`, behind every row whose name stands
/// before its own or is the same, and tells where it was put.
fn insert_row(rows: &mut Vec<(GroupId, String)>, id: GroupId, name: String) -> (at: usize)
    requires
        rows_in_order(old(rows)@),
    ensures
        at <= old(rows)@.len(),
        final(rows)@ == old(rows)@.insert(at as int, (id, name)),
        rows_in_order(final(rows)@),
{
    let mut at: usize = 0;
    while at < rows.len() && name_in_order(rows[at].1.as_str(), name.as_str())
        invariant
            *rows == *old(rows),
            at <= rows@.len(),
            forall|i: int|
                0 <= i < at ==> in_order(encode_utf8(rows@[i].1@), encode_utf8(name@)),
        decreases rows@.len() - at,
    {
        at += 1;
    }
    proof {
        let after = rows@.insert(at as int, (id, name));
        assert forall|i: int, j: int| 0 <= i < j < after.len() implies in_order(
            encode_utf8(after[i].1@),
            encode_utf8(after[j].1@),
        ) by {
            let from_i = if i < at { i } else { i - 1 };
            let from_j = if j < at { j } else { j - 1 };
            if i == at {
                assert(after[j] == rows@[from_j]);
                lemma_in_order_total(encode_utf8(rows@[at as int].1@), encode_utf8(name@));
                if from_j > at {
                    lemma_in_order_transitive(
                        encode_utf8(name@),
                        encode_utf8(rows@[at as int].1@),
                        encode_utf8(rows@[from_j].1@),
                    );
                }
            } else if j == at {
                assert(after[i] == rows@[from_i]);
            } else {
                assert(after[i] == rows@[from_i]);
                assert(after[j] == rows@[from_j]);
            }
        }
    }
    rows.insert(at, (id, name));
    at
}

impl SoundscapeEditor {
    /// The names of the groups, by id.
    pub open spec fn names(&self) -> Map<GroupId, Seq<char>> {
        self.groups@.map_values(|name: String| name@)
    }

    /// The id of the selected group, and the name in the text box.
    pub open spec fn selection(&self) -> Option<(GroupId, Seq<char>)> {
        match self.selected {
            Some(selected) => Some((selected.id, selected.name@)),
            None => None,
        }
    }

    /// The editor as it starts from what was stored: folded, with the stored
    /// groups and nothing selected.
    pub fn from_stored(stored: Stored) -> (editor: Self)
        ensures
            !editor.is_open,
            editor.groups == stored.groups,
            editor.next_group_id == stored.next_group_id,
            editor.selection() is None,
    {
        SoundscapeEditor {
            is_open: false,
            groups: stored.groups,
            next_group_id: stored.next_group_id,
            selected: None,
        }
    }

    /// Adds a group with the next free id and selects it. It is called
    /// `<unnamed>` to begin with. The id is handed back.
    pub fn add_group(&mut self) -> (id: GroupId)
        requires
            old(self).next_group_id < u64::MAX,
        ensures
            id == old(self).next_group_id,
            final(self).next_group_id == id + 1,
            final(self).names() == old(self).names().insert(id, unnamed()),
            final(self).selection() == Some((id, unnamed())),
            final(self).is_open == old(self).is_open,
    {
        let id = self.next_group_id;
        self.next_group_id = id + 1;
        let name = "<unnamed>".to_owned();
        self.groups.insert(id, name.clone());
        self.selected = Some(Selected { id, name });
        proof {
            assert(final(self).names() =~= old(self).names().insert(id, unnamed()));
        }
        id
    }

    /// Selects the group at `id`, with its name in the text box, and tells
    /// whether there is such a group. If there is none, the selection stays.
    pub fn select(&mut self, id: GroupId) -> (found: bool)
        ensures
            found == old(self).names().contains_key(id),
            final(self).selection() == (if found {
                Some((id, old(self).names()[id]))
            } else {
                old(self).selection()
            }),
            final(self).groups == old(self).groups,
            final(self).next_group_id == old(self).next_group_id,
            final(self).is_open == old(self).is_open,
    {
        match self.groups.get(&id) {
            Some(name) => {
                let name = name.clone();
                self.selected = Some(Selected { id, name });
                true
            },
            None => false,
        }
    }

    /// Removes the group at `id` and tells whether there was one. If it was
    /// the selected group, nothing is selected afterwards.
    pub fn remove_group(&mut self, id: GroupId) -> (removed: bool)
        ensures
            removed == old(self).names().contains_key(id),
            final(self).names() == old(self).names().remove(id),
            final(self).selection() == (match old(self).selection() {
                Some((selected, _)) if selected == id => None,
                _ => old(self).selection(),
            }),
            final(self).next_group_id == old(self).next_group_id,
            final(self).is_open == old(self).is_open,
    {
        let unselect = match &self.selected {
            Some(selected) => selected.id == id,
            None => false,
        };
        if unselect {
            self.selected = None;
        }
        let removed = self.groups.remove(&id).is_some();
        proof {
            assert(final(self).names() =~= old(self).names().remove(id));
        }
        removed
    }

    /// Puts `name` in the text box of the selected group and tells whether a
    /// group is selected. The group keeps its name until
    /// [`Self::confirm_name`].
    pub fn edit_name(&mut self, name: String) -> (edited: bool)
        ensures
            edited == old(self).selection() is Some,
            final(self).selection() == (match old(self).selection() {
                Some((id, _)) => Some((id, name@)),
                None => None,
            }),
            final(self).groups == old(self).groups,
            final(self).next_group_id == old(self).next_group_id,
            final(self).is_open == old(self).is_open,
    {
        let id = match &self.selected {
            Some(selected) => selected.id,
            None => { return false; },
        };
        self.selected = Some(Selected { id, name });
        true
    }

    /// Gives the selected group the name in the text box, and tells whether
    /// that was done: a group must be selected, and it must still exist.
    pub fn confirm_name(&mut self) -> (renamed: bool)
        ensures
            renamed == (old(self).selection() matches Some((id, _)) && old(
                self,
            ).names().contains_key(id)),
            final(self).names() == (match old(self).selection() {
                Some((id, name)) if old(self).names().contains_key(id) => old(self).names().insert(
                    id,
                    name,
                ),
                _ => old(self).names(),
            }),
            final(self).selection() == old(self).selection(),
            final(self).next_group_id == old(self).next_group_id,
            final(self).is_open == old(self).is_open,
    {
        let (id, name) = match &self.selected {
            Some(selected) => (selected.id, selected.name.clone()),
            None => { return false; },
        };
        if !self.groups.contains_key(&id) {
            return false;
        }
        self.groups.insert(id, name);
        proof {
            assert(final(self).names() =~= old(self).names().insert(id, name@));
        }
        true
    }

    /// The groups as the panel lists them: the id and the name of every
    /// group, once, in the order of the names.
    pub fn listing(&self) -> (rows: Vec<(GroupId, String)>)
        ensures
            rows_in_order(rows@),
            row_ids(rows@).no_duplicates(),
            row_ids(rows@).to_set() == self.names().dom(),
            forall|i: int|
                0 <= i < rows@.len() ==> self.names().contains_key(#[trigger] rows@[i].0)
                    && self.names()[rows@[i].0] == rows@[i].1@,
    {
        let mut rows: Vec<(GroupId, String)> = Vec::new();
        let ghost keys = spec_keys_iter(&self.groups).remaining();
        proof {
            assert(row_ids(rows@).to_set() =~= keys.unref().take(0).to_set());
        }
        for id in it: self.groups.keys()
            invariant
                it.seq() == keys,
                keys.unref().no_duplicates(),
                keys.unref().to_set() == self.groups@.dom(),
                rows_in_order(rows@),
                row_ids(rows@).no_duplicates(),
                row_ids(rows@).to_set() == keys.unref().take(it.index()).to_set(),
                forall|i: int|
                    0 <= i < rows@.len() ==> self.names().contains_key(#[trigger] rows@[i].0)
                        && self.names()[rows@[i].0] == rows@[i].1@,
        {
            let ghost earlier = rows@;
            let ghost seen = it.index();
            proof {
                assert(keys.unref()[seen] == *id);
                assert(keys.unref().to_set().contains(*id));
                lemma_take_one_more(keys.unref(), seen);
            }
            match self.groups.get(id) {
                Some(name) => {
                    let name = name.clone();
                    let at = insert_row(&mut rows, *id, name);
                    proof {
                        assert(row_ids(rows@) =~= row_ids(earlier).insert(at as int, *id));
                        lemma_insert_one(row_ids(earlier), at as int, *id);
                        assert forall|i: int| 0 <= i < rows@.len() implies self.names().contains_key(
                            #[trigger] rows@[i].0,
                        ) && self.names()[rows@[i].0] == rows@[i].1@ by {
                            if i < at {
                                assert(rows@[i] == earlier[i]);
                            } else if i > at {
                                assert(rows@[i] == earlier[i - 1]);
                            }
                        }
                    }
                },
                None => {
                    proof {
                        assert(self.groups@.contains_key(*id));
                        assert(false);
                    }
                },
            }
        }
        proof {
            assert(keys.unref().take(keys.unref().len() as int) =~= keys.unref());
            assert(self.names().dom() =~= self.groups@.dom());
        }
        rows
    }

    /// Where in `rows`, the groups as they are listed, the selected group
    /// stands: the first row that holds its id.
    pub fn selected_index(&self, rows: &Vec<(GroupId, String)>) -> (index: Option<usize>)
        ensures
            match index {
                Some(index) => {
                    &&& self.selection() matches Some((id, _))
                    &&& index < rows@.len()
                    &&& rows@[index as int].0 == id
                    &&& forall|i: int| 0 <= i < index ==> rows@[i].0 != id
                },
                None => self.selection() matches Some((id, _)) ==> forall|i: int|
                    0 <= i < rows@.len() ==> rows@[i].0 != id,
            },
    {
        let id = match &self.selected {
            Some(selected) => selected.id,
            None => { return None; },
        };
        let mut i: usize = 0;
        while i < rows.len()
            invariant
                i <= rows@.len(),
                self.selection() matches Some((selected, _)) && selected == id,
                forall|j: int| 0 <= j < i ==> rows@[j].0 != id,
            decreases rows@.len() - i,
        {
            if rows[i].0 == id {
                return Some(i);
            }
            i += 1;
        }
        None
    }
}

} // verus!
