//! A table of values under texts, each text at most once.
use crate::text::same_text;
use vstd::prelude::*;
use vstd::string::StringExecFns;

verus! {

/// A row of a table.
pub struct Row<V> {
    pub key: String,
    pub value: V,
}

/// A table of values under texts. Its rows stand in the order in which their
/// keys came.
pub struct Table<V> {
    pub rows: Vec<Row<V>>,
}

/// The key stands in no row.
pub open spec fn absent<V>(rows: Seq<Row<V>>, key: Seq<char>) -> bool {
    forall|i: int| 0 <= i < rows.len() ==> (#[trigger] rows[i]).key@ != key
}

/// What the rows hold.
pub open spec fn contents<V: View>(rows: Seq<Row<V>>) -> Map<Seq<char>, V::V>
    decreases rows.len(),
{
    if rows.len() == 0 {
        Map::empty()
    } else {
        contents(rows.drop_last()).insert(rows.last().key@, rows.last().value@)
    }
}

impl<V: View> View for Table<V> {
    type V = Map<Seq<char>, V::V>;

    open spec fn view(&self) -> Map<Seq<char>, V::V> {
        contents(self.rows@)
    }
}

proof fn lemma_contents<V: View>(rows: Seq<Row<V>>, key: Seq<char>)
    ensures
        contents(rows).contains_key(key) <==> !absent(rows, key),
    decreases rows.len(),
{
    if rows.len() > 0 {
        lemma_contents(rows.drop_last(), key);
        let front = rows.drop_last();
        if absent(rows, key) {
            assert forall|i: int| 0 <= i < front.len() implies (#[trigger] front[i]).key@
                != key by {
                assert(front[i] == rows[i]);
            }
            assert(rows[rows.len() - 1].key@ != key);
        } else {
            let i = choose|i: int| 0 <= i < rows.len() && (#[trigger] rows[i]).key@ == key;
            if i < front.len() {
                assert(front[i].key@ == key);
            }
        }
    }
}

impl<V: View> Table<V> {
    /// No two rows have the same key.
    pub open spec fn wf(&self) -> bool {
        forall|i: int, j: int|
            0 <= i < j < self.rows@.len() ==> (#[trigger] self.rows@[i]).key@ != (
            #[trigger] self.rows@[j]).key@
    }

    proof fn lemma_row(rows: Seq<Row<V>>, i: int)
        requires
            0 <= i < rows.len(),
            forall|j: int, k: int|
                0 <= j < k < rows.len() ==> (#[trigger] rows[j]).key@ != (#[trigger] rows[k]).key@,
        ensures
            contents(rows).contains_key(rows[i].key@),
            contents(rows)[rows[i].key@] == rows[i].value@,
        decreases rows.len(),
    {
        if i < rows.len() - 1 {
            let front = rows.drop_last();
            assert forall|j: int, k: int| 0 <= j < k < front.len() implies (
            #[trigger] front[j]).key@ != (#[trigger] front[k]).key@ by {
                assert(front[j] == rows[j] && front[k] == rows[k]);
            }
            Self::lemma_row(front, i);
            assert(rows[i].key@ != rows[rows.len() - 1].key@);
        }
    }

    proof fn lemma_update(rows: Seq<Row<V>>, i: int, row: Row<V>)
        requires
            0 <= i < rows.len(),
            row.key@ == rows[i].key@,
            forall|j: int, k: int|
                0 <= j < k < rows.len() ==> (#[trigger] rows[j]).key@ != (#[trigger] rows[k]).key@,
        ensures
            contents(rows.update(i, row)) == contents(rows).insert(row.key@, row.value@),
        decreases rows.len(),
    {
        let front = rows.drop_last();
        let after = rows.update(i, row);
        if i == rows.len() - 1 {
            assert(after.drop_last() =~= front);
            assert(contents(after) =~= contents(rows).insert(row.key@, row.value@));
        } else {
            assert forall|j: int, k: int| 0 <= j < k < front.len() implies (
            #[trigger] front[j]).key@ != (#[trigger] front[k]).key@ by {
                assert(front[j] == rows[j] && front[k] == rows[k]);
            }
            Self::lemma_update(front, i, row);
            assert(after.drop_last() =~= front.update(i, row));
            assert(after.last() == rows.last());
            assert(rows[i].key@ != rows[rows.len() - 1].key@);
            assert(contents(after) =~= contents(rows).insert(row.key@, row.value@));
        }
    }

    proof fn lemma_remove(rows: Seq<Row<V>>, i: int)
        requires
            0 <= i < rows.len(),
            forall|j: int, k: int|
                0 <= j < k < rows.len() ==> (#[trigger] rows[j]).key@ != (#[trigger] rows[k]).key@,
        ensures
            contents(rows.remove(i)) == contents(rows).remove(rows[i].key@),
        decreases rows.len(),
    {
        let front = rows.drop_last();
        let after = rows.remove(i);
        let key = rows[i].key@;
        if i == rows.len() - 1 {
            assert(after =~= front);
            assert(absent(front, key)) by {
                assert forall|j: int| 0 <= j < front.len() implies (#[trigger] front[j]).key@
                    != key by {
                    assert(front[j] == rows[j]);
                    assert(rows[j].key@ != rows[i].key@);
                }
            }
            lemma_contents(front, key);
            assert(contents(after) =~= contents(rows).remove(key));
        } else {
            assert forall|j: int, k: int| 0 <= j < k < front.len() implies (
            #[trigger] front[j]).key@ != (#[trigger] front[k]).key@ by {
                assert(front[j] == rows[j] && front[k] == rows[k]);
            }
            Self::lemma_remove(front, i);
            assert(after.drop_last() =~= front.remove(i));
            assert(after.last() == rows.last());
            assert(rows[i].key@ != rows[rows.len() - 1].key@);
            assert(contents(after) =~= contents(rows).remove(key));
        }
    }

    /// An empty table.
    pub fn new() -> (r: Table<V>)
        ensures
            r.wf(),
            r@ == Map::<Seq<char>, V::V>::empty(),
            r.rows@.len() == 0,
    {
        Table { rows: Vec::new() }
    }

    /// The row of a key.
    fn row_of(&self, key: &str) -> (r: Option<usize>)
        requires
            self.wf(),
        ensures
            match r {
                Some(i) => i < self.rows@.len() && self.rows@[i as int].key@ == key@
                    && self@.contains_key(key@) && self@[key@] == self.rows@[i as int].value@,
                None => absent(self.rows@, key@) && !self@.contains_key(key@),
            },
    {
        let mut i: usize = 0;
        while i < self.rows.len()
            invariant
                i <= self.rows@.len(),
                self.wf(),
                forall|j: int| 0 <= j < i ==> (#[trigger] self.rows@[j]).key@ != key@,
            decreases self.rows@.len() - i,
        {
            if same_text(self.rows[i].key.as_str(), key) {
                proof {
                    Self::lemma_row(self.rows@, i as int);
                }
                return Some(i);
            }
            i = i + 1;
        }
        proof {
            lemma_contents(self.rows@, key@);
        }
        None
    }

    /// The value under a key.
    pub fn get(&self, key: &str) -> (r: Option<&V>)
        requires
            self.wf(),
        ensures
            match r {
                Some(v) => self@.contains_key(key@) && self@[key@] == v@,
                None => !self@.contains_key(key@),
            },
    {
        match self.row_of(key) {
            Some(i) => Some(&self.rows[i].value),
            None => None,
        }
    }

    /// Puts a value under a key, in place of the one that was there.
    pub fn insert(&mut self, key: &str, value: V)
        requires
            old(self).wf(),
        ensures
            final(self).wf(),
            final(self)@ == old(self)@.insert(key@, value@),
    {
        match self.row_of(key) {
            Some(i) => {
                let row: Row<V> = Row { key: String::from_str(key), value };
                proof {
                    Self::lemma_update(self.rows@, i as int, row);
                    let after = self.rows@.update(i as int, row);
                    assert forall|j: int, k: int| 0 <= j < k < after.len() implies (
                    #[trigger] after[j]).key@ != (#[trigger] after[k]).key@ by {
                        assert(self.rows@[j].key@ != self.rows@[k].key@);
                    }
                }
                self.rows[i] = row;
            },
            None => {
                let row: Row<V> = Row { key: String::from_str(key), value };
                let ghost front = self.rows@;
                self.rows.push(row);
                proof {
                    assert(self.rows@.drop_last() =~= front);
                    assert forall|j: int, k: int| 0 <= j < k < self.rows@.len() implies (
                    #[trigger] self.rows@[j]).key@ != (#[trigger] self.rows@[k]).key@ by {
                        assert(front[j].key@ != key@);
                        if k < front.len() {
                            assert(front[j].key@ != front[k].key@);
                        }
                    }
                }
            },
        }
    }

    /// Takes a key and its value out.
    pub fn remove(&mut self, key: &str)
        requires
            old(self).wf(),
        ensures
            final(self).wf(),
            final(self)@ == old(self)@.remove(key@),
    {
        match self.row_of(key) {
            Some(i) => {
                proof {
                    Self::lemma_remove(self.rows@, i as int);
                    let after = self.rows@.remove(i as int);
                    assert forall|j: int, k: int| 0 <= j < k < after.len() implies (
                    #[trigger] after[j]).key@ != (#[trigger] after[k]).key@ by {
                        let a = if j < i {
                            j
                        } else {
                            j + 1
                        };
                        let b = if k < i {
                            k
                        } else {
                            k + 1
                        };
                        assert(after[j] == self.rows@[a] && after[k] == self.rows@[b]);
                        assert(self.rows@[a].key@ != self.rows@[b].key@);
                    }
                }
                let _ = self.rows.remove(i);
            },
            None => {
                proof {
                    assert(self@ =~= self@.remove(key@));
                }
            },
        }
    }

    /// Takes everything out.
    pub fn clear(&mut self)
        ensures
            final(self).wf(),
            final(self)@ == Map::<Seq<char>, V::V>::empty(),
    {
        self.rows.clear();
    }

    /// The keys, in the order in which they came.
    pub fn keys(&self) -> (r: Vec<String>)
        requires
            self.wf(),
        ensures
            r@.len() == self.rows@.len(),
            forall|i: int| 0 <= i < r@.len() ==> (#[trigger] r@[i])@ == self.rows@[i].key@,
            forall|key: Seq<char>|
                self@.contains_key(key) <==> exists|i: int|
                    0 <= i < r@.len() && (#[trigger] r@[i])@ == key,
            forall|i: int, j: int|
                0 <= i < j < r@.len() ==> (#[trigger] r@[i])@ != (#[trigger] r@[j])@,
    {
        let mut r: Vec<String> = Vec::new();
        let mut i: usize = 0;
        while i < self.rows.len()
            invariant
                i <= self.rows@.len(),
                r@.len() == i,
                forall|j: int| 0 <= j < i ==> (#[trigger] r@[j])@ == self.rows@[j].key@,
            decreases self.rows@.len() - i,
        {
            r.push(self.rows[i].key.clone());
            i = i + 1;
        }
        proof {
            assert forall|key: Seq<char>|
                self@.contains_key(key) <==> exists|i: int|
                    0 <= i < r@.len() && (#[trigger] r@[i])@ == key by {
                lemma_contents(self.rows@, key);
                if self@.contains_key(key) {
                    let i = choose|i: int|
                        0 <= i < self.rows@.len() && (#[trigger] self.rows@[i]).key@ == key;
                    assert(r@[i]@ == key);
                }
                if exists|i: int| 0 <= i < r@.len() && (#[trigger] r@[i])@ == key {
                    let i = choose|i: int| 0 <= i < r@.len() && (#[trigger] r@[i])@ == key;
                    assert(self.rows@[i].key@ == key);
                }
            }
        }
        r
    }
}

} // verus!
