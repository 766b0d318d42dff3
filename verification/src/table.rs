//! Small tables with one row for each key.
use vstd::prelude::*;

use crate::text::same_text;

verus! {

// ---------------------------------------------------------------------------
// Tables keyed by text
// ---------------------------------------------------------------------------

/// A row of a [`TextTable`].
#[derive(Clone, Debug, PartialEq, Eq)]
pub struct TextRow<T> {
    pub key: String,
    pub value: T,
}

/// A table with at most one row for each text.
#[derive(Clone, Debug, PartialEq, Eq)]
pub struct TextTable<T> {
    pub rows: Vec<TextRow<T>>,
}

/// No key occurs twice.
pub open spec fn text_keys_distinct<T>(rows: Seq<TextRow<T>>) -> bool {
    forall|i: int, j: int|
        0 <= i < j < rows.len() ==> (#[trigger] rows[i]).key@ != (#[trigger] rows[j]).key@
}

/// What the rows hold, the last row of a key deciding.
pub open spec fn text_rows_map<T>(rows: Seq<TextRow<T>>) -> Map<Seq<char>, T>
    decreases rows.len(),
{
    if rows.len() == 0 {
        Map::empty()
    } else {
        text_rows_map(rows.drop_last()).insert(rows.last().key@, rows.last().value)
    }
}

impl<T> View for TextTable<T> {
    type V = Map<Seq<char>, T>;

    open spec fn view(&self) -> Map<Seq<char>, T> {
        text_rows_map(self.rows@)
    }
}

/// Each row is in the map, and each key of the map has a row.
pub proof fn lemma_text_rows_map<T>(rows: Seq<TextRow<T>>)
    requires
        text_keys_distinct(rows),
    ensures
        forall|i: int|
            0 <= i < rows.len() ==> text_rows_map(rows).contains_key((#[trigger] rows[i]).key@)
                && text_rows_map(rows)[rows[i].key@] == rows[i].value,
        forall|key: Seq<char>|
            text_rows_map(rows).contains_key(key) ==> exists|i: int|
                0 <= i < rows.len() && (#[trigger] rows[i]).key@ == key,
    decreases rows.len(),
{
    if rows.len() > 0 {
        let before = rows.drop_last();
        lemma_text_rows_map(before);
        assert forall|i: int| 0 <= i < rows.len() implies text_rows_map(rows).contains_key(
            (#[trigger] rows[i]).key@,
        ) && text_rows_map(rows)[rows[i].key@] == rows[i].value by {
            if i < before.len() {
                assert(before[i] == rows[i]);
                assert(rows[i].key@ != rows[rows.len() - 1].key@);
            }
        }
        assert forall|key: Seq<char>| text_rows_map(rows).contains_key(key) implies exists|i: int|
            0 <= i < rows.len() && (#[trigger] rows[i]).key@ == key by {
            if key == rows.last().key@ {
                assert(rows[rows.len() - 1].key@ == key);
            } else {
                assert(text_rows_map(before).contains_key(key));
                let i = choose|i: int| 0 <= i < before.len() && (#[trigger] before[i]).key@ == key;
                assert(rows[i].key@ == key);
            }
        }
    }
}

proof fn lemma_text_rows_same<T>(left: Seq<TextRow<T>>, right: Map<Seq<char>, T>)
    requires
        text_keys_distinct(left),
        forall|i: int|
            0 <= i < left.len() ==> right.contains_key((#[trigger] left[i]).key@)
                && right[left[i].key@] == left[i].value,
        forall|key: Seq<char>|
            right.contains_key(key) ==> exists|i: int|
                0 <= i < left.len() && (#[trigger] left[i]).key@ == key,
    ensures
        text_rows_map(left) == right,
{
    lemma_text_rows_map(left);
    assert forall|key: Seq<char>| text_rows_map(left).contains_key(key) implies right.contains_key(
        key,
    ) && right[key] == text_rows_map(left)[key] by {
        let i = choose|i: int| 0 <= i < left.len() && (#[trigger] left[i]).key@ == key;
        assert(right.contains_key(left[i].key@));
    }
    assert forall|key: Seq<char>| right.contains_key(key) implies text_rows_map(
        left,
    ).contains_key(key) by {
        let i = choose|i: int| 0 <= i < left.len() && (#[trigger] left[i]).key@ == key;
        assert(text_rows_map(left).contains_key(left[i].key@));
    }
    assert(text_rows_map(left) =~= right);
}

impl<T> TextTable<T> {
    /// No key has two rows.
    pub open spec fn wf(self) -> bool {
        text_keys_distinct(self.rows@)
    }

    /// A table without rows.
    pub fn new() -> (table: TextTable<T>)
        ensures
            table.wf(),
            table@ == Map::<Seq<char>, T>::empty(),
    {
        TextTable { rows: Vec::new() }
    }

    /// The position of the row with a key, or the number of rows.
    fn position(&self, key: &str) -> (index: usize)
        requires
            self.wf(),
        ensures
            index <= self.rows@.len(),
            index < self.rows@.len() ==> self.rows@[index as int].key@ == key@,
            (index < self.rows@.len()) == self@.contains_key(key@),
    {
        let mut index: usize = 0;
        proof {
            lemma_text_rows_map(self.rows@);
        }
        while index < self.rows.len() && !same_text(self.rows[index].key.as_str(), key)
            invariant
                index <= self.rows@.len(),
                forall|i: int| 0 <= i < index ==> (#[trigger] self.rows@[i]).key@ != key@,
            decreases self.rows@.len() - index,
        {
            index += 1;
        }
        proof {
            lemma_text_rows_map(self.rows@);
            if index < self.rows@.len() {
                assert(self.rows@[index as int].key@ == key@);
            }
        }
        index
    }

    /// The value of a key.
    pub fn get(&self, key: &str) -> (value: Option<&T>)
        requires
            self.wf(),
        ensures
            match value {
                Some(found) => self@.contains_key(key@) && *found == self@[key@],
                None => !self@.contains_key(key@),
            },
    {
        let index: usize = self.position(key);
        if index < self.rows.len() {
            proof {
                lemma_text_rows_map(self.rows@);
                assert(self@[self.rows@[index as int].key@] == self.rows@[index as int].value);
            }
            Some(&self.rows[index].value)
        } else {
            None
        }
    }

    /// Gives a key a value, in place of the one that it had.
    pub fn put(&mut self, key: &str, value: T)
        requires
            old(self).wf(),
        ensures
            final(self).wf(),
            final(self)@ == old(self)@.insert(key@, value),
    {
        let index: usize = self.position(key);
        let ghost before = self.rows@;
        let row = TextRow { key: key.to_owned(), value };
        proof {
            lemma_text_rows_map(before);
        }
        if index < self.rows.len() {
            self.rows.set(index, row);
            proof {
                let after = self.rows@;
                let target = old(self)@.insert(key@, value);
                assert forall|i: int, j: int| 0 <= i < j < after.len() implies (
                #[trigger] after[i]).key@ != (#[trigger] after[j]).key@ by {
                    assert(after[i].key@ == before[i].key@ && after[j].key@ == before[j].key@);
                }
                assert forall|i: int| 0 <= i < after.len() implies target.contains_key(
                    (#[trigger] after[i]).key@,
                ) && target[after[i].key@] == after[i].value by {
                    assert(before[i].key@ == after[i].key@);
                    if i != index {
                        assert(before[i].key@ != before[index as int].key@);
                    }
                }
                assert forall|k: Seq<char>| target.contains_key(k) implies exists|i: int|
                    0 <= i < after.len() && (#[trigger] after[i]).key@ == k by {
                    if k == key@ {
                        assert(after[index as int].key@ == k);
                    } else {
                        let i = choose|i: int|
                            0 <= i < before.len() && (#[trigger] before[i]).key@ == k;
                        assert(after[i].key@ == k);
                    }
                }
                lemma_text_rows_same(after, target);
            }
        } else {
            self.rows.push(row);
            proof {
                let after = self.rows@;
                assert(after.drop_last() =~= before);
                assert forall|i: int, j: int| 0 <= i < j < after.len() implies (
                #[trigger] after[i]).key@ != (#[trigger] after[j]).key@ by {
                    if j == before.len() {
                        assert(old(self)@.contains_key(before[i].key@));
                    } else {
                        assert(after[i] == before[i] && after[j] == before[j]);
                    }
                }
            }
        }
    }

    /// Takes the row of a key away.
    pub fn remove(&mut self, key: &str)
        requires
            old(self).wf(),
        ensures
            final(self).wf(),
            final(self)@ == old(self)@.remove(key@),
    {
        let index: usize = self.position(key);
        let ghost before = self.rows@;
        proof {
            lemma_text_rows_map(before);
        }
        if index < self.rows.len() {
            let _removed = self.rows.remove(index);
            proof {
                let after = self.rows@;
                let target = old(self)@.remove(key@);
                assert(after =~= before.remove(index as int));
                assert forall|i: int, j: int| 0 <= i < j < after.len() implies (
                #[trigger] after[i]).key@ != (#[trigger] after[j]).key@ by {
                    let bi = if i < index {
                        i
                    } else {
                        i + 1
                    };
                    let bj = if j < index {
                        j
                    } else {
                        j + 1
                    };
                    assert(after[i] == before[bi] && after[j] == before[bj]);
                }
                assert forall|i: int| 0 <= i < after.len() implies target.contains_key(
                    (#[trigger] after[i]).key@,
                ) && target[after[i].key@] == after[i].value by {
                    let bi = if i < index {
                        i
                    } else {
                        i + 1
                    };
                    assert(after[i] == before[bi]);
                    assert(before[bi].key@ != before[index as int].key@);
                }
                assert forall|k: Seq<char>| target.contains_key(k) implies exists|i: int|
                    0 <= i < after.len() && (#[trigger] after[i]).key@ == k by {
                    let bi = choose|i: int|
                        0 <= i < before.len() && (#[trigger] before[i]).key@ == k;
                    let i = if bi < index {
                        bi
                    } else {
                        bi - 1
                    };
                    assert(after[i] == before[bi]);
                }
                lemma_text_rows_same(after, target);
            }
        } else {
            assert(old(self)@.remove(key@) =~= old(self)@);
        }
    }
}

// ---------------------------------------------------------------------------
// Tables keyed by number
// ---------------------------------------------------------------------------

/// A row of a [`KeyTable`].
#[derive(Clone, Debug, PartialEq, Eq)]
pub struct KeyRow {
    pub id: u32,
    pub record: Vec<u8>,
}

/// A table with at most one record for each number.
#[derive(Clone, Debug, PartialEq, Eq)]
pub struct KeyTable {
    pub rows: Vec<KeyRow>,
}

/// No number occurs twice.
pub open spec fn ids_distinct(rows: Seq<KeyRow>) -> bool {
    forall|i: int, j: int|
        0 <= i < j < rows.len() ==> (#[trigger] rows[i]).id != (#[trigger] rows[j]).id
}

/// The numbers of the rows.
pub open spec fn row_ids(rows: Seq<KeyRow>) -> Set<u32> {
    Set::new(|id: u32| exists|i: int| 0 <= i < rows.len() && (#[trigger] rows[i]).id == id)
}

/// The record of a number, if one of the rows has it.
pub open spec fn row_record(rows: Seq<KeyRow>, id: u32) -> Seq<u8> {
    rows[choose|i: int| 0 <= i < rows.len() && (#[trigger] rows[i]).id == id].record@
}

/// What the rows hold.
pub open spec fn key_rows_map(rows: Seq<KeyRow>) -> Map<u32, Seq<u8>> {
    Map::new(|id: u32| row_ids(rows).contains(id), |id: u32| row_record(rows, id))
}

impl View for KeyTable {
    type V = Map<u32, Seq<u8>>;

    open spec fn view(&self) -> Map<u32, Seq<u8>> {
        key_rows_map(self.rows@)
    }
}

proof fn lemma_key_row(rows: Seq<KeyRow>, index: int)
    requires
        ids_distinct(rows),
        0 <= index < rows.len(),
    ensures
        key_rows_map(rows).contains_key(rows[index].id),
        key_rows_map(rows)[rows[index].id] == rows[index].record@,
{
    let id = rows[index].id;
    let chosen = choose|i: int| 0 <= i < rows.len() && (#[trigger] rows[i]).id == id;
    assert(rows[index].id == id);
    assert(row_ids(rows).contains(id));
    if chosen < index {
        assert(rows[chosen].id != rows[index].id);
    }
    if index < chosen {
        assert(rows[index].id != rows[chosen].id);
    }
}

impl KeyTable {
    /// No number has two records.
    pub open spec fn wf(self) -> bool {
        ids_distinct(self.rows@)
    }

    /// A table without records.
    pub fn new() -> (table: KeyTable)
        ensures
            table.wf(),
            table@ == Map::<u32, Seq<u8>>::empty(),
            table.rows@.len() == 0,
    {
        let table = KeyTable { rows: Vec::new() };
        assert(table@ =~= Map::<u32, Seq<u8>>::empty());
        table
    }

    proof fn lemma_row(self, index: int)
        requires
            self.wf(),
            0 <= index < self.rows@.len(),
        ensures
            self@.contains_key(self.rows@[index].id),
            self@[self.rows@[index].id] == self.rows@[index].record@,
    {
        lemma_key_row(self.rows@, index);
    }

    /// Gives a number a record, in place of the one that it had.
    pub fn put(&mut self, id: u32, record: Vec<u8>)
        requires
            old(self).wf(),
        ensures
            final(self).wf(),
            final(self)@ == old(self)@.insert(id, record@),
            old(self)@.contains_key(id) ==> final(self).rows@.len() == old(self).rows@.len(),
            !old(self)@.contains_key(id) ==> final(self).rows@.len() == old(self).rows@.len() + 1,
    {
        let ghost before = *self;
        let ghost target = self@.insert(id, record@);
        let mut index: usize = 0;
        while index < self.rows.len() && self.rows[index].id != id
            invariant
                index <= self.rows@.len(),
                forall|i: int| 0 <= i < index ==> (#[trigger] self.rows@[i]).id != id,
            decreases self.rows@.len() - index,
        {
            index += 1;
        }
        let row = KeyRow { id, record };
        if index < self.rows.len() {
            self.rows.set(index, row);
            assert(before.rows@[index as int].id == id);
        } else {
            self.rows.push(row);
        }
        proof {
            let after = *self;
            let rows = after.rows@;
            assert forall|i: int, j: int| 0 <= i < j < rows.len() implies (
            #[trigger] rows[i]).id != (#[trigger] rows[j]).id by {
                if j < before.rows@.len() {
                    assert(rows[i].id == before.rows@[i].id);
                    assert(rows[j].id == before.rows@[j].id);
                }
            }
            assert forall|k: u32|
                #![trigger after@.dom().contains(k)]
                #![trigger target.dom().contains(k)]
                #![trigger after@[k]]
                #![trigger target[k]]
                after@.contains_key(k) == target.contains_key(k) && (after@.contains_key(k)
                    ==> after@[k] == target[k]) by {
                if k == id {
                    assert(rows[index as int].id == k);
                    after.lemma_row(index as int);
                } else {
                    if after@.contains_key(k) {
                        let i = choose|i: int| 0 <= i < rows.len() && (#[trigger] rows[i]).id == k;
                        assert(before.rows@[i] == rows[i]);
                        before.lemma_row(i);
                        after.lemma_row(i);
                    }
                    if before@.contains_key(k) {
                        let i = choose|i: int|
                            0 <= i < before.rows@.len() && (#[trigger] before.rows@[i]).id == k;
                        assert(rows[i] == before.rows@[i]);
                        after.lemma_row(i);
                    }
                }
            }
            assert(after@ =~= target);
        }
    }

    /// A copy of the table.
    pub fn copy(&self) -> (copy: KeyTable)
        requires
            self.wf(),
        ensures
            copy.wf(),
            copy@ == self@,
            copy.rows@.len() == self.rows@.len(),
    {
        let mut rows: Vec<KeyRow> = Vec::new();
        let mut index: usize = 0;
        while index < self.rows.len()
            invariant
                index <= self.rows@.len(),
                rows@.len() == index,
                forall|i: int|
                    0 <= i < index ==> (#[trigger] rows@[i]).id == self.rows@[i].id
                        && rows@[i].record@ == self.rows@[i].record@,
            decreases self.rows@.len() - index,
        {
            rows.push(
                KeyRow {
                    id: self.rows[index].id,
                    record: vstd::slice::slice_to_vec(self.rows[index].record.as_slice()),
                },
            );
            index += 1;
        }
        let copy = KeyTable { rows };
        proof {
            copy.lemma_same_rows(*self);
        }
        copy
    }

    proof fn lemma_same_rows(self, other: KeyTable)
        requires
            other.wf(),
            self.rows@.len() == other.rows@.len(),
            forall|i: int|
                0 <= i < self.rows@.len() ==> (#[trigger] self.rows@[i]).id == other.rows@[i].id
                    && self.rows@[i].record@ == other.rows@[i].record@,
        ensures
            self.wf(),
            self@ == other@,
    {
        assert forall|i: int, j: int| 0 <= i < j < self.rows@.len() implies (
        #[trigger] self.rows@[i]).id != (#[trigger] self.rows@[j]).id by {
            assert(other.rows@[i].id != other.rows@[j].id);
        }
        assert forall|k: u32|
            #![trigger self@.dom().contains(k)]
            #![trigger other@.dom().contains(k)]
            #![trigger self@[k]]
            #![trigger other@[k]]
            self@.contains_key(k) == other@.contains_key(k) && (self@.contains_key(k) ==> self@[k]
                == other@[k]) by {
            if self@.contains_key(k) {
                let i = choose|i: int|
                    0 <= i < self.rows@.len() && (#[trigger] self.rows@[i]).id == k;
                assert(other.rows@[i].id == k);
                self.lemma_row(i);
                other.lemma_row(i);
            }
            if other@.contains_key(k) {
                let i = choose|i: int|
                    0 <= i < other.rows@.len() && (#[trigger] other.rows@[i]).id == k;
                assert(self.rows@[i].id == k);
                self.lemma_row(i);
            }
        }
        assert(self@ =~= other@);
    }

    /// There are as many rows as numbers.
    pub proof fn lemma_count(self)
        requires
            self.wf(),
        ensures
            self@.dom().finite(),
            self@.dom().len() == self.rows@.len(),
    {
        let ids = self.rows@.map_values(|row: KeyRow| row.id);
        assert(ids.no_duplicates()) by {
            assert forall|i: int, j: int|
                0 <= i < ids.len() && 0 <= j < ids.len() && i != j implies ids[i] != ids[j] by {
                if i < j {
                    assert(self.rows@[i].id != self.rows@[j].id);
                } else {
                    assert(self.rows@[j].id != self.rows@[i].id);
                }
            }
        }
        ids.unique_seq_to_set();
        assert(ids.to_set() =~= self@.dom()) by {
            assert forall|k: u32| ids.to_set().contains(k) == self@.dom().contains(k) by {
                if self@.dom().contains(k) {
                    let i = choose|i: int|
                        0 <= i < self.rows@.len() && (#[trigger] self.rows@[i]).id == k;
                    assert(ids[i] == k);
                }
                if ids.to_set().contains(k) {
                    let i = choose|i: int| 0 <= i < ids.len() && ids[i] == k;
                    assert(self.rows@[i].id == k);
                }
            }
        }
        vstd::seq_lib::seq_to_set_is_finite(ids);
    }

    /// How many numbers have a record.
    pub fn count(&self) -> (count: usize)
        requires
            self.wf(),
        ensures
            count == self@.dom().len(),
            count == self.rows@.len(),
    {
        proof {
            self.lemma_count();
        }
        self.rows.len()
    }

    /// Whether a number has a record.
    pub fn has(&self, id: u32) -> (found: bool)
        requires
            self.wf(),
        ensures
            found == self@.contains_key(id),
    {
        let mut index: usize = 0;
        while index < self.rows.len()
            invariant
                index <= self.rows@.len(),
                forall|i: int| 0 <= i < index ==> (#[trigger] self.rows@[i]).id != id,
            decreases self.rows@.len() - index,
        {
            if self.rows[index].id == id {
                assert(self.rows@[index as int].id == id);
                return true;
            }
            index += 1;
        }
        false
    }

    /// Takes the row at a position away.
    fn remove_row(&mut self, index: usize)
        requires
            old(self).wf(),
            index < old(self).rows@.len(),
        ensures
            final(self).wf(),
            final(self)@ == old(self)@.remove(old(self).rows@[index as int].id),
            final(self).rows@.len() == old(self).rows@.len() - 1,
    {
        let ghost before = *self;
        let ghost gone = self.rows@[index as int].id;
        let _removed = self.rows.remove(index);
        proof {
            let after = *self;
            let rows = after.rows@;
            assert(rows =~= before.rows@.remove(index as int));
            assert forall|i: int, j: int| 0 <= i < j < rows.len() implies (
            #[trigger] rows[i]).id != (#[trigger] rows[j]).id by {
                let bi = if i < index {
                    i
                } else {
                    i + 1
                };
                let bj = if j < index {
                    j
                } else {
                    j + 1
                };
                assert(rows[i] == before.rows@[bi] && rows[j] == before.rows@[bj]);
            }
            let target = before@.remove(gone);
            assert forall|k: u32|
                #![trigger after@.dom().contains(k)]
                #![trigger target.dom().contains(k)]
                #![trigger after@[k]]
                #![trigger target[k]]
                after@.contains_key(k) == target.contains_key(k) && (after@.contains_key(k)
                    ==> after@[k] == target[k]) by {
                if after@.contains_key(k) {
                    let i = choose|i: int| 0 <= i < rows.len() && (#[trigger] rows[i]).id == k;
                    let bi = if i < index {
                        i
                    } else {
                        i + 1
                    };
                    assert(rows[i] == before.rows@[bi]);
                    before.lemma_row(bi);
                    after.lemma_row(i);
                    if bi < index {
                        assert(before.rows@[bi].id != before.rows@[index as int].id);
                    } else {
                        assert(before.rows@[index as int].id != before.rows@[bi].id);
                    }
                }
                if target.contains_key(k) {
                    let bi = choose|i: int|
                        0 <= i < before.rows@.len() && (#[trigger] before.rows@[i]).id == k;
                    let i = if bi < index {
                        bi
                    } else {
                        bi - 1
                    };
                    assert(rows[i] == before.rows@[bi]);
                    after.lemma_row(i);
                }
            }
            assert(after@ =~= target);
        }
    }

    /// Takes the record with the smallest number away.
    pub fn remove_min(&mut self) -> (removed: u32)
        requires
            old(self).wf(),
            old(self).rows@.len() > 0,
        ensures
            final(self).wf(),
            final(self).rows@.len() == old(self).rows@.len() - 1,
            old(self)@.contains_key(removed),
            final(self)@ == old(self)@.remove(removed),
            forall|k: u32| old(self)@.contains_key(k) ==> removed <= k,
    {
        let mut smallest: usize = 0;
        let mut index: usize = 1;
        while index < self.rows.len()
            invariant
                1 <= index <= self.rows@.len(),
                smallest < index,
                forall|i: int|
                    0 <= i < index ==> self.rows@[smallest as int].id <= (#[trigger] self.rows@[i]).id,
            decreases self.rows@.len() - index,
        {
            if self.rows[index].id < self.rows[smallest].id {
                smallest = index;
            }
            index += 1;
        }
        let removed: u32 = self.rows[smallest].id;
        proof {
            self.lemma_row(smallest as int);
        }
        self.remove_row(smallest);
        removed
    }

    /// Puts every row of another table into this one.
    pub fn put_all_from(&mut self, other: &KeyTable)
        requires
            old(self).wf(),
            other.wf(),
        ensures
            final(self).wf(),
            final(self)@ == old(self)@.union_prefer_right(other@),
    {
        self.put_all(other.rows.as_slice());
        proof {
            lemma_put_rows(old(self)@, other.rows@);
        }
    }

    /// Puts every row of a list into the table, one after the other.
    pub fn put_all(&mut self, rows: &[KeyRow])
        requires
            old(self).wf(),
        ensures
            final(self).wf(),
            final(self)@ == put_rows(old(self)@, rows@),
    {
        let mut index: usize = 0;
        assert(rows@.take(0) =~= Seq::empty());
        while index < rows.len()
            invariant
                index <= rows@.len(),
                self.wf(),
                self@ == put_rows(old(self)@, rows@.take(index as int)),
            decreases rows@.len() - index,
        {
            proof {
                assert(rows@.take(index + 1).drop_last() =~= rows@.take(index as int));
            }
            self.put(rows[index].id, vstd::slice::slice_to_vec(rows[index].record.as_slice()));
            index += 1;
        }
        assert(rows@.take(index as int) =~= rows@);
    }

    /// The largest number in the table.
    pub fn max_id(&self) -> (max: Option<u32>)
        requires
            self.wf(),
        ensures
            match max {
                Some(id) => self@.contains_key(id) && forall|k: u32|
                    self@.contains_key(k) ==> k <= id,
                None => self@ == Map::<u32, Seq<u8>>::empty(),
            },
    {
        let mut index: usize = 0;
        let mut max: Option<u32> = None;
        while index < self.rows.len()
            invariant
                index <= self.rows@.len(),
                max is None <==> index == 0,
                max matches Some(id) ==> (exists|i: int|
                    0 <= i < index && (#[trigger] self.rows@[i]).id == id) && forall|i: int|
                    0 <= i < index ==> (#[trigger] self.rows@[i]).id <= id,
            decreases self.rows@.len() - index,
        {
            let id: u32 = self.rows[index].id;
            let larger = match max {
                Some(known) => id > known,
                None => true,
            };
            if larger {
                max = Some(id);
                assert(self.rows@[index as int].id == id);
            }
            index += 1;
        }
        assert(max is None ==> self@ =~= Map::<u32, Seq<u8>>::empty());
        max
    }
}

/// A map with rows put into it, one after the other.
pub open spec fn put_rows(map: Map<u32, Seq<u8>>, rows: Seq<KeyRow>) -> Map<u32, Seq<u8>>
    decreases rows.len(),
{
    if rows.len() == 0 {
        map
    } else {
        put_rows(map, rows.drop_last()).insert(rows.last().id, rows.last().record@)
    }
}

/// Putting rows into a map lets them take precedence.
proof fn lemma_put_rows(map: Map<u32, Seq<u8>>, rows: Seq<KeyRow>)
    requires
        ids_distinct(rows),
    ensures
        put_rows(map, rows) == map.union_prefer_right(key_rows_map(rows)),
    decreases rows.len(),
{
    let all = map.union_prefer_right(key_rows_map(rows));
    if rows.len() == 0 {
        assert(all =~= map);
    } else {
        let last = rows.len() - 1;
        let fewer = rows.drop_last();
        assert forall|i: int, j: int| 0 <= i < j < fewer.len() implies (#[trigger] fewer[i]).id != (
        #[trigger] fewer[j]).id by {
            assert(rows[i].id != rows[j].id);
        }
        lemma_put_rows(map, fewer);
        lemma_key_row(rows, last);
        let target = map.union_prefer_right(key_rows_map(fewer)).insert(
            rows[last].id,
            rows[last].record@,
        );
        assert forall|k: u32|
            #![trigger all.dom().contains(k)]
            #![trigger target.dom().contains(k)]
            #![trigger all[k]]
            #![trigger target[k]]
            all.contains_key(k) == target.contains_key(k) && (all.contains_key(k) ==> all[k]
                == target[k]) by {
            if k != rows[last].id {
                if key_rows_map(rows).contains_key(k) {
                    let i = choose|i: int| 0 <= i < rows.len() && (#[trigger] rows[i]).id == k;
                    assert(fewer[i] == rows[i]);
                    lemma_key_row(rows, i);
                    lemma_key_row(fewer, i);
                }
                if key_rows_map(fewer).contains_key(k) {
                    let i = choose|i: int| 0 <= i < fewer.len() && (#[trigger] fewer[i]).id == k;
                    assert(rows[i] == fewer[i]);
                    lemma_key_row(rows, i);
                    lemma_key_row(fewer, i);
                }
            }
        }
        assert(all =~= target);
    }
}

/// Of the records that are put under an ID the last one stays, and what is under the
/// other IDs stays as it is.
pub proof fn law_last_record_stays(map: Map<u32, Seq<u8>>, rows: Seq<KeyRow>, id: u32, index: int)
    ensures
        (forall|i: int| 0 <= i < rows.len() ==> (#[trigger] rows[i]).id != id) ==> put_rows(
            map,
            rows,
        ).contains_key(id) == map.contains_key(id) && (map.contains_key(id) ==> put_rows(
            map,
            rows,
        )[id] == map[id]),
        0 <= index < rows.len() && rows[index].id == id && (forall|i: int|
            index < i < rows.len() ==> (#[trigger] rows[i]).id != id) ==> put_rows(
            map,
            rows,
        ).contains_key(id) && put_rows(map, rows)[id] == rows[index].record@,
    decreases rows.len(),
{
    if rows.len() > 0 {
        let before = rows.drop_last();
        law_last_record_stays(map, before, id, index);
        assert(rows.last() == rows[rows.len() - 1]);
        assert(forall|i: int| 0 <= i < before.len() ==> before[i] == #[trigger] rows[i]);
    }
}

} // verus!
