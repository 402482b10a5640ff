//! Storage of tables in memory: each table keeps its rows ordered by key, each
//! row holding its value as an encoded record.

use crate::bigint::Int;
use crate::predicate::Where;
use crate::record::{decode, encode, is_record, record_value};
use vstd::seq_lib::*;
use crate::types::Type;
use vstd::prelude::*;

verus! {

/// Whether a table has received a value, and its rows as (key, value) pairs.
pub type TableState = (bool, Seq<(int, int)>);

pub open spec fn sorted_rows(rows: Seq<(int, int)>) -> bool {
    forall|i: int, j: int| 0 <= i < j < rows.len() ==> rows[i].0 < rows[j].0
}

/// `rows` with the row of key `k` set to value `v`, in key order.
pub open spec fn insert_row(rows: Seq<(int, int)>, k: int, v: int) -> Seq<(int, int)>
    decreases rows.len(),
{
    if rows.len() == 0 {
        seq![(k, v)]
    } else if k < rows[0].0 {
        seq![(k, v)] + rows
    } else if k == rows[0].0 {
        seq![(k, v)] + rows.drop_first()
    } else {
        seq![rows[0]] + insert_row(rows.drop_first(), k, v)
    }
}

/// The values of the rows whose key passes `p`, one single-value row each, in key order.
pub open spec fn select_rows(rows: Seq<(int, int)>, p: spec_fn(int) -> bool) -> Seq<Seq<int>> {
    rows.filter(|r: (int, int)| p(r.0)).map_values(|r: (int, int)| seq![r.1])
}

/// `rows` with value `v` in each row whose key passes `p`.
pub open spec fn update_rows(rows: Seq<(int, int)>, p: spec_fn(int) -> bool, v: int) -> Seq<(int, int)> {
    rows.map_values(|r: (int, int)| if p(r.0) { (r.0, v) } else { r })
}

/// `rows` without those whose key passes `p`.
pub open spec fn delete_rows(rows: Seq<(int, int)>, p: spec_fn(int) -> bool) -> Seq<(int, int)> {
    rows.filter(|r: (int, int)| !p(r.0))
}

pub open spec fn result_rows(out: Seq<Vec<Type>>) -> Seq<Seq<int>> {
    out.map_values(|row: Vec<Type>| row@.map_values(|t: Type| t@))
}

#[derive(Debug, Clone, PartialEq, Eq)]
pub enum StorageError {
    TableAlreadyExists,
    TableDoesNotExist,
    /// The table has never received a value.
    NoRecords,
}

struct Row {
    key: Int,
    record: Vec<u8>,
}

impl Row {
    spec fn wf(&self) -> bool {
        self.key.wf() && is_record(self.record@)
    }

    spec fn model(&self) -> (int, int) {
        (self.key@, record_value(self.record@))
    }

    fn copy(&self) -> (r: Row)
        requires
            self.wf(),
        ensures
            r.wf(),
            r.model() == self.model(),
    {
        let record = self.record.clone();
        assert(record@ =~= self.record@);
        Row { key: self.key.duplicate(), record }
    }
}

spec fn rows_model(rows: Seq<Row>) -> Seq<(int, int)> {
    rows.map_values(|r: Row| r.model())
}

struct Table {
    name: String,
    filled: bool,
    rows: Vec<Row>,
}

impl Table {
    spec fn wf(&self) -> bool {
        &&& forall|i: int| 0 <= i < self.rows@.len() ==> (#[trigger] self.rows@[i]).wf()
        &&& sorted_rows(rows_model(self.rows@))
    }

    spec fn model(&self) -> TableState {
        (self.filled, rows_model(self.rows@))
    }
}

spec fn tables_map(ts: Seq<Table>) -> Map<Seq<char>, TableState>
    decreases ts.len(),
{
    if ts.len() == 0 {
        Map::empty()
    } else {
        tables_map(ts.drop_last()).insert(ts.last().name@, ts.last().model())
    }
}

spec fn names_unique(ts: Seq<Table>) -> bool {
    forall|i: int, j: int| 0 <= i < j < ts.len() ==> ts[i].name@ != ts[j].name@
}

proof fn lemma_tables_map_dom(ts: Seq<Table>, n: Seq<char>)
    ensures
        tables_map(ts).contains_key(n) <==> exists|i: int| 0 <= i < ts.len() && ts[i].name@ == n,
    decreases ts.len(),
{
    if ts.len() > 0 {
        lemma_tables_map_dom(ts.drop_last(), n);
        if tables_map(ts.drop_last()).contains_key(n) {
            let i = choose|i: int| 0 <= i < ts.len() - 1 && ts.drop_last()[i].name@ == n;
            assert(ts[i].name@ == n);
        }
        if exists|i: int| 0 <= i < ts.len() && ts[i].name@ == n {
            let i = choose|i: int| 0 <= i < ts.len() && ts[i].name@ == n;
            if i < ts.len() - 1 {
                assert(ts.drop_last()[i].name@ == n);
            }
        }
    }
}

proof fn lemma_tables_map_at(ts: Seq<Table>, i: int)
    requires
        names_unique(ts),
        0 <= i < ts.len(),
    ensures
        tables_map(ts).contains_key(ts[i].name@),
        tables_map(ts)[ts[i].name@] == ts[i].model(),
    decreases ts.len(),
{
    if i < ts.len() - 1 {
        assert(ts.drop_last()[i] == ts[i]);
        lemma_tables_map_at(ts.drop_last(), i);
    }
}

proof fn lemma_tables_map_update(ts: Seq<Table>, i: int, t: Table)
    requires
        names_unique(ts),
        0 <= i < ts.len(),
        t.name@ == ts[i].name@,
    ensures
        tables_map(ts.update(i, t)) == tables_map(ts).insert(t.name@, t.model()),
        names_unique(ts.update(i, t)),
    decreases ts.len(),
{
    let u = ts.update(i, t);
    if i == ts.len() - 1 {
        assert(u.drop_last() =~= ts.drop_last());
        assert(tables_map(u) =~= tables_map(ts).insert(t.name@, t.model()));
    } else {
        assert(u.drop_last() =~= ts.drop_last().update(i, t));
        lemma_tables_map_update(ts.drop_last(), i, t);
        assert(ts.last().name@ != t.name@);
        assert(tables_map(u) =~= tables_map(ts).insert(t.name@, t.model()));
    }
}

proof fn lemma_insert_row(m: Seq<(int, int)>, k: int, v: int, i: int)
    requires
        sorted_rows(m),
        0 <= i <= m.len(),
        forall|j: int| 0 <= j < i ==> m[j].0 < k,
        i < m.len() ==> m[i].0 >= k,
    ensures
        insert_row(m, k, v) == m.subrange(0, i) + seq![(k, v)] + m.subrange(
            if i < m.len() && m[i].0 == k { i + 1 } else { i },
            m.len() as int,
        ),
    decreases i,
{
    if i == 0 {
        if m.len() > 0 {
            assert(m.subrange(0, 0) =~= Seq::<(int, int)>::empty());
            assert(m.subrange(0, m.len() as int) =~= m);
            assert(m.subrange(1, m.len() as int) =~= m.drop_first());
        }
        assert(m.subrange(0, 0) + seq![(k, v)] + m.subrange(0, m.len() as int) =~= seq![(k, v)] + m);
        assert(m.subrange(0, 0) + seq![(k, v)] + m.subrange(1, m.len() as int) =~= seq![(k, v)]
            + m.drop_first());
    } else {
        let d = m.drop_first();
        assert(m[0].0 < k);
        lemma_insert_row(d, k, v, i - 1);
        let s = if i < m.len() && m[i].0 == k { i + 1 } else { i };
        assert(d.subrange(0, i - 1) + seq![(k, v)] + d.subrange(s - 1, d.len() as int) =~= (
        m.subrange(0, i) + seq![(k, v)] + m.subrange(s, m.len() as int)).drop_first());
        assert(m.subrange(0, i) + seq![(k, v)] + m.subrange(s, m.len() as int) =~= seq![m[0]] + (
        m.subrange(0, i) + seq![(k, v)] + m.subrange(s, m.len() as int)).drop_first());
    }
}

proof fn lemma_put_shape(old_rows: Seq<Row>, new_rows: Seq<Row>, rm: (int, int), i: int, s: int)
    requires
        0 <= i <= old_rows.len(),
        s == i || (s == i + 1 && i < old_rows.len()),
        new_rows.len() == old_rows.len() + 1 + i - s,
        new_rows[i].model() == rm,
        forall|j: int| 0 <= j < i ==> new_rows[j] == old_rows[j],
        forall|j: int| i < j < new_rows.len() ==> new_rows[j] == old_rows[j - 1 - i + s],
    ensures
        rows_model(new_rows) == rows_model(old_rows).subrange(0, i) + seq![rm] + rows_model(
            old_rows,
        ).subrange(s, old_rows.len() as int),
{
    let m = rows_model(old_rows);
    let n = m.subrange(0, i) + seq![rm] + m.subrange(s, m.len() as int);
    assert forall|j: int| 0 <= j < n.len() implies #[trigger] rows_model(new_rows)[j] == n[j] by {
        if j < i {
            assert(new_rows[j] == old_rows[j]);
        } else if j > i {
            assert(new_rows[j] == old_rows[j - 1 - i + s]);
        }
    }
    assert(rows_model(new_rows) =~= n);
}

proof fn lemma_sorted_insert(m: Seq<(int, int)>, k: int, v: int, i: int, s: int)
    requires
        sorted_rows(m),
        0 <= i <= m.len(),
        forall|j: int| 0 <= j < i ==> m[j].0 < k,
        i < m.len() ==> m[i].0 >= k,
        s == (if i < m.len() && m[i].0 == k { i + 1 } else { i }),
    ensures
        sorted_rows(m.subrange(0, i) + seq![(k, v)] + m.subrange(s, m.len() as int)),
{
    let n = m.subrange(0, i) + seq![(k, v)] + m.subrange(s, m.len() as int);
    assert forall|a: int, b: int| 0 <= a < b < n.len() implies n[a].0 < n[b].0 by {
        if b > i {
            assert(n[b] == m[b - 1 - i + s]);
            if s == i {
                assert(m[i].0 > k);
            }
            assert(m[b - 1 - i + s].0 >= m[i].0);
            if a < i {
                assert(n[a] == m[a]);
            }
            if a > i {
                assert(n[a] == m[a - 1 - i + s]);
            }
        } else if b == i {
            assert(n[a] == m[a]);
        } else {
            assert(n[a] == m[a] && n[b] == m[b]);
        }
    }
}

proof fn lemma_filter_step(m: Seq<(int, int)>, p: spec_fn((int, int)) -> bool, i: int)
    requires
        0 <= i < m.len(),
    ensures
        m.take(i + 1).filter(p) == (if p(m[i]) {
            m.take(i).filter(p).push(m[i])
        } else {
            m.take(i).filter(p)
        }),
{
    reveal(Seq::filter);
    assert(m.take(i + 1).drop_last() =~= m.take(i));
    assert(m.take(i + 1).last() == m[i]);
}

impl Table {
    /// Sets the row of key `v` to hold `v`.
    fn put(&mut self, v: &Int)
        requires
            old(self).wf(),
            v.wf(),
        ensures
            final(self).wf(),
            final(self).name == old(self).name,
            final(self).model() == (true, insert_row(old(self).model().1, v@, v@)),
    {
        let ghost m = rows_model(self.rows@);
        let mut i: usize = 0;
        while i < self.rows.len() && self.rows[i].key.less_than(v)
            invariant
                self.wf(),
                v.wf(),
                m == rows_model(self.rows@),
                0 <= i <= self.rows@.len(),
                forall|j: int| 0 <= j < i ==> m[j].0 < v@,
            decreases self.rows@.len() - i,
        {
            assert(self.rows@[i as int].wf());
            i = i + 1;
        }
        let replace = i < self.rows.len() && self.rows[i].key.equals(v);
        proof {
            if i < self.rows@.len() {
                assert(self.rows@[i as int].wf());
            }
            lemma_insert_row(m, v@, v@, i as int);
        }
        let row = Row { key: v.duplicate(), record: encode(v) };
        let ghost row_model = row.model();
        let ghost s: int = if replace { i + 1 } else { i as int };
        let ghost old_rows = self.rows@;
        if replace {
            self.rows.set(i, row);
        } else {
            self.rows.insert(i, row);
        }
        self.filled = true;
        proof {
            lemma_put_shape(old_rows, self.rows@, row_model, i as int, s);
            lemma_sorted_insert(m, v@, v@, i as int, s);
            assert forall|j: int| 0 <= j < self.rows@.len() implies (#[trigger] self.rows@[j]).wf() by {
                if j < i {
                    assert(self.rows@[j] == old_rows[j]);
                } else if j > i {
                    assert(self.rows@[j] == old_rows[j - 1 - i + s]);
                }
            }
        }
    }

    /// Sets value `v` in each row whose key passes `w`.
    fn update(&mut self, w: &Where, v: &Int)
        requires
            old(self).wf(),
            w.wf(),
            v.wf(),
        ensures
            final(self).wf(),
            final(self).name == old(self).name,
            final(self).model() == (old(self).filled, update_rows(old(self).model().1, |x: int| w.holds(x), v@)),
    {
        let ghost m = rows_model(self.rows@);
        let ghost old_rows = self.rows@;
        let mut i: usize = 0;
        while i < self.rows.len()
            invariant
                w.wf(),
                v.wf(),
                self.name == old(self).name,
                self.filled == old(self).filled,
                m == rows_model(old_rows),
                self.rows@.len() == old_rows.len(),
                0 <= i <= self.rows@.len(),
                forall|j: int| 0 <= j < self.rows@.len() ==> (#[trigger] self.rows@[j]).wf(),
                forall|j: int| 0 <= j < i ==> #[trigger] self.rows@[j].model() == (if w.holds(m[j].0) {
                    (m[j].0, v@)
                } else {
                    m[j]
                }),
                forall|j: int| i <= j < self.rows@.len() ==> #[trigger] self.rows@[j] == old_rows[j],
            decreases self.rows@.len() - i,
        {
            assert(self.rows@[i as int].wf());
            if w.accepts(&self.rows[i].key) {
                let key = self.rows[i].key.duplicate();
                let row = Row { key, record: encode(v) };
                self.rows.set(i, row);
            }
            i = i + 1;
        }
        proof {
            let n = update_rows(m, |x: int| w.holds(x), v@);
            assert(rows_model(self.rows@) =~= n);
            assert(self.model().1 == n);
            assert forall|a: int, b: int| 0 <= a < b < n.len() implies n[a].0 < n[b].0 by {
                assert(n[a].0 == m[a].0 && n[b].0 == m[b].0);
            }
        }
    }

    /// Removes the rows whose key passes `w`.
    fn delete(&mut self, w: &Where)
        requires
            old(self).wf(),
            w.wf(),
        ensures
            final(self).wf(),
            final(self).name == old(self).name,
            final(self).model() == (old(self).filled, delete_rows(old(self).model().1, |x: int| w.holds(x))),
    {
        let ghost m = rows_model(self.rows@);
        let ghost q = |x: int| w.holds(x);
        let mut kept: Vec<Row> = Vec::new();
        let mut i: usize = 0;
        assert(delete_rows(m.take(0), q) =~= Seq::<(int, int)>::empty()) by {
            reveal(Seq::filter);
        }
        assert(rows_model(kept@) =~= Seq::<(int, int)>::empty());
        while i < self.rows.len()
            invariant
                self.wf(),
                w.wf(),
                self.name == old(self).name,
                self.filled == old(self).filled,
                m == rows_model(self.rows@),
                q == (|x: int| w.holds(x)),
                0 <= i <= self.rows@.len(),
                forall|j: int| 0 <= j < kept@.len() ==> (#[trigger] kept@[j]).wf(),
                rows_model(kept@) == delete_rows(m.take(i as int), q),
                sorted_rows(rows_model(kept@)),
                forall|j: int, k: int|
                    0 <= j < kept@.len() && i <= k < m.len() ==> #[trigger] rows_model(kept@)[j].0
                        < #[trigger] m[k].0,
            decreases self.rows@.len() - i,
        {
            assert(self.rows@[i as int].wf());
            let ghost before = kept@;
            proof {
                lemma_filter_step(m, |r: (int, int)| !q(r.0), i as int);
            }
            if !w.accepts(&self.rows[i].key) {
                let row = self.rows[i].copy();
                kept.push(row);
                assert(rows_model(kept@) =~= rows_model(before).push(m[i as int]));
                assert forall|j: int| 0 <= j < kept@.len() implies (#[trigger] kept@[j]).wf() by {
                    if j < before.len() {
                        assert(kept@[j] == before[j]);
                    }
                }
            }
            i = i + 1;
        }
        assert(m.take(m.len() as int) =~= m);
        self.rows = kept;
    }

    /// The values of the rows whose key passes `w`, in key order.
    fn select(&self, w: &Where) -> (r: Vec<Vec<Type>>)
        requires
            self.wf(),
            w.wf(),
        ensures
            result_rows(r@) == select_rows(self.model().1, |x: int| w.holds(x)),
    {
        let ghost m = rows_model(self.rows@);
        let ghost q = |x: int| w.holds(x);
        let mut out: Vec<Vec<Type>> = Vec::new();
        let mut i: usize = 0;
        assert(m.take(0).filter(|r: (int, int)| q(r.0)) =~= Seq::<(int, int)>::empty()) by {
            reveal(Seq::filter);
        }
        assert(result_rows(out@) =~= select_rows(m.take(0), q));
        while i < self.rows.len()
            invariant
                self.wf(),
                w.wf(),
                m == rows_model(self.rows@),
                q == (|x: int| w.holds(x)),
                0 <= i <= self.rows@.len(),
                result_rows(out@) == select_rows(m.take(i as int), q),
            decreases self.rows@.len() - i,
        {
            assert(self.rows@[i as int].wf());
            let ghost before = out@;
            proof {
                lemma_filter_step(m, |r: (int, int)| q(r.0), i as int);
            }
            if w.accepts(&self.rows[i].key) {
                let v = decode(&self.rows[i].record);
                let mut row: Vec<Type> = Vec::new();
                row.push(Type::Int(v));
                assert(row@.map_values(|t: Type| t@) =~= seq![m[i as int].1]);
                out.push(row);
                assert(result_rows(out@) =~= result_rows(before).push(seq![m[i as int].1]));
                assert(select_rows(m.take(i + 1), q) =~= select_rows(m.take(i as int), q).push(
                    seq![m[i as int].1],
                ));
            }
            i = i + 1;
        }
        assert(m.take(m.len() as int) =~= m);
        out
    }
}

/// What the engine needs of a storage backend: tables by name, each with its
/// rows in key order.
pub trait Storage: Sized {
    /// The tables by name.
    spec fn tables(&self) -> Map<Seq<char>, TableState>;

    /// The backend's own invariant.
    spec fn inv(&self) -> bool;

    /// Whether a table of that name exists.
    fn contains_table(&self, name: &String) -> (r: bool)
        requires
            self.inv(),
        ensures
            r == self.tables().contains_key(name@),
    ;

    /// Registers an empty table under a name not yet taken.
    fn create_table(&mut self, name: &String) -> (r: Result<(), StorageError>)
        requires
            old(self).inv(),
        ensures
            final(self).inv(),
            old(self).tables().contains_key(name@) ==> r == Err::<(), StorageError>(StorageError::TableAlreadyExists)
                && final(self).tables() == old(self).tables(),
            !old(self).tables().contains_key(name@) ==> r is Ok && final(self).tables() == old(self).tables().insert(
                name@,
                (false, Seq::<(int, int)>::empty()),
            ),
    ;

    /// Adds a row holding `value` to a table, replacing a row of the same key.
    fn insert_into(&mut self, name: &String, value: &Type) -> (r: Result<(), StorageError>)
        requires
            old(self).inv(),
            value.wf(),
        ensures
            final(self).inv(),
            !old(self).tables().contains_key(name@) ==> r == Err::<(), StorageError>(StorageError::TableDoesNotExist)
                && final(self).tables() == old(self).tables(),
            old(self).tables().contains_key(name@) ==> r is Ok && final(self).tables() == old(self).tables().insert(
                name@,
                (true, insert_row(old(self).tables()[name@].1, value@, value@)),
            ),
    ;

    /// Sets `value` in the rows of a table whose key passes `w`.
    fn update_where(&mut self, name: &String, w: &Where, value: &Type) -> (r: Result<(), StorageError>)
        requires
            old(self).inv(),
            w.wf(),
            value.wf(),
        ensures
            final(self).inv(),
            !old(self).tables().contains_key(name@) ==> r == Err::<(), StorageError>(StorageError::TableDoesNotExist)
                && final(self).tables() == old(self).tables(),
            old(self).tables().contains_key(name@) ==> r is Ok && final(self).tables() == old(self).tables().insert(
                name@,
                (old(self).tables()[name@].0, update_rows(old(self).tables()[name@].1, |x: int| w.holds(x), value@)),
            ),
    ;

    /// Removes the rows of a table whose key passes `w`.
    fn delete_where(&mut self, name: &String, w: &Where) -> (r: Result<(), StorageError>)
        requires
            old(self).inv(),
            w.wf(),
        ensures
            final(self).inv(),
            !old(self).tables().contains_key(name@) ==> r == Err::<(), StorageError>(StorageError::TableDoesNotExist)
                && final(self).tables() == old(self).tables(),
            old(self).tables().contains_key(name@) ==> r is Ok && final(self).tables() == old(self).tables().insert(
                name@,
                (old(self).tables()[name@].0, delete_rows(old(self).tables()[name@].1, |x: int| w.holds(x))),
            ),
    ;

    /// The values of the rows of a table whose key passes `w`, in key order.
    fn select(&self, name: &String, w: &Where) -> (r: Result<Vec<Vec<Type>>, StorageError>)
        requires
            self.inv(),
            w.wf(),
        ensures
            !self.tables().contains_key(name@) ==> r matches Err(StorageError::TableDoesNotExist),
            self.tables().contains_key(name@) && !self.tables()[name@].0 ==> r matches Err(StorageError::NoRecords),
            self.tables().contains_key(name@) && self.tables()[name@].0 ==> (r matches Ok(rows) && result_rows(rows@)
                == select_rows(self.tables()[name@].1, |x: int| w.holds(x))),
    ;
}

/// Tables held in memory.
pub struct InMemoryStorage {
    tables: Vec<Table>,
}

impl View for InMemoryStorage {
    type V = Map<Seq<char>, TableState>;

    closed spec fn view(&self) -> Map<Seq<char>, TableState> {
        tables_map(self.tables@)
    }
}

impl InMemoryStorage {
    pub closed spec fn wf(&self) -> bool {
        &&& names_unique(self.tables@)
        &&& forall|i: int| 0 <= i < self.tables@.len() ==> (#[trigger] self.tables@[i]).wf()
    }

    /// Every table keeps its rows in strictly increasing key order.
    pub proof fn lemma_rows_sorted(&self, name: Seq<char>)
        requires
            self.wf(),
            self@.contains_key(name),
        ensures
            sorted_rows(self@[name].1),
    {
        lemma_tables_map_dom(self.tables@, name);
        let i = choose|i: int| 0 <= i < self.tables@.len() && self.tables@[i].name@ == name;
        lemma_tables_map_at(self.tables@, i);
        assert(self.tables@[i].wf());
    }

    pub fn new() -> (r: InMemoryStorage)
        ensures
            r.wf(),
            r@ == Map::<Seq<char>, TableState>::empty(),
    {
        InMemoryStorage { tables: Vec::new() }
    }

    fn find(&self, name: &String) -> (r: Option<usize>)
        requires
            self.wf(),
        ensures
            r matches Some(i) ==> i < self.tables@.len() && self.tables@[i as int].name@ == name@
                && self@.contains_key(name@) && self@[name@] == self.tables@[i as int].model(),
            r is None ==> !self@.contains_key(name@),
    {
        let mut i: usize = 0;
        while i < self.tables.len()
            invariant
                self.wf(),
                0 <= i <= self.tables@.len(),
                forall|j: int| 0 <= j < i ==> self.tables@[j].name@ != name@,
            decreases self.tables@.len() - i,
        {
            if self.tables[i].name == *name {
                proof {
                    lemma_tables_map_at(self.tables@, i as int);
                }
                return Some(i);
            }
            i = i + 1;
        }
        proof {
            lemma_tables_map_dom(self.tables@, name@);
        }
        None
    }

    /// Puts `t` back where table `i` was taken out.
    proof fn lemma_put_back(before: Seq<Table>, after: Seq<Table>, i: int, t: Table)
        requires
            names_unique(before),
            forall|j: int| 0 <= j < before.len() ==> (#[trigger] before[j]).wf(),
            0 <= i < before.len(),
            after == before.update(i, t),
            t.name@ == before[i].name@,
            t.wf(),
        ensures
            tables_map(after) == tables_map(before).insert(t.name@, t.model()),
            names_unique(after),
            forall|j: int| 0 <= j < after.len() ==> (#[trigger] after[j]).wf(),
    {
        lemma_tables_map_update(before, i, t);
        assert forall|j: int| 0 <= j < after.len() implies (#[trigger] after[j]).wf() by {
            if j != i {
                assert(after[j] == before[j]);
            }
        }
    }
}

impl Storage for InMemoryStorage {
    open spec fn tables(&self) -> Map<Seq<char>, TableState> {
        self@
    }

    open spec fn inv(&self) -> bool {
        self.wf()
    }

    fn contains_table(&self, name: &String) -> (r: bool) {
        self.find(name).is_some()
    }

    /// Registers an empty table under a name not yet taken.
    fn create_table(&mut self, name: &String) -> (r: Result<(), StorageError>) {
        match self.find(name) {
            Some(_) => Err(StorageError::TableAlreadyExists),
            None => {
                let t = Table { name: name.clone(), filled: false, rows: Vec::new() };
                proof {
                    lemma_tables_map_dom(self.tables@, name@);
                    assert(rows_model(t.rows@) =~= Seq::<(int, int)>::empty());
                }
                let ghost before = self.tables@;
                self.tables.push(t);
                proof {
                    assert(self.tables@.drop_last() =~= before);
                    assert forall|i: int, j: int| 0 <= i < j < self.tables@.len() implies
                        self.tables@[i].name@ != self.tables@[j].name@ by {
                        if j == self.tables@.len() - 1 {
                            assert(before[i].name@ != name@);
                        } else {
                            assert(before[i].name@ != before[j].name@);
                        }
                    }
                    assert forall|i: int| 0 <= i < self.tables@.len() implies (#[trigger] self.tables@[i]).wf() by {
                        if i < before.len() {
                            assert(before[i].wf());
                        }
                    }
                }
                Ok(())
            },
        }
    }

    /// Adds a row holding `value` to a table, replacing a row of the same key.
    fn insert_into(&mut self, name: &String, value: &Type) -> (r: Result<(), StorageError>) {
        match self.find(name) {
            None => Err(StorageError::TableDoesNotExist),
            Some(i) => {
                let ghost before = self.tables@;
                assert(before[i as int].wf());
                let mut t = self.tables.remove(i);
                let Type::Int(v) = value;
                t.put(v);
                let ghost tg = t;
                self.tables.insert(i, t);
                proof {
                    assert(self.tables@ =~= before.update(i as int, tg));
                    Self::lemma_put_back(before, self.tables@, i as int, tg);
                }
                Ok(())
            },
        }
    }

    /// Sets `value` in the rows of a table whose key passes `w`.
    fn update_where(&mut self, name: &String, w: &Where, value: &Type) -> (r: Result<(), StorageError>) {
        match self.find(name) {
            None => Err(StorageError::TableDoesNotExist),
            Some(i) => {
                let ghost before = self.tables@;
                assert(before[i as int].wf());
                let mut t = self.tables.remove(i);
                let Type::Int(v) = value;
                t.update(w, v);
                let ghost tg = t;
                self.tables.insert(i, t);
                proof {
                    assert(self.tables@ =~= before.update(i as int, tg));
                    Self::lemma_put_back(before, self.tables@, i as int, tg);
                }
                Ok(())
            },
        }
    }

    /// Removes the rows of a table whose key passes `w`.
    fn delete_where(&mut self, name: &String, w: &Where) -> (r: Result<(), StorageError>) {
        match self.find(name) {
            None => Err(StorageError::TableDoesNotExist),
            Some(i) => {
                let ghost before = self.tables@;
                assert(before[i as int].wf());
                let mut t = self.tables.remove(i);
                t.delete(w);
                let ghost tg = t;
                self.tables.insert(i, t);
                proof {
                    assert(self.tables@ =~= before.update(i as int, tg));
                    Self::lemma_put_back(before, self.tables@, i as int, tg);
                }
                Ok(())
            },
        }
    }

    /// The values of the rows of a table whose key passes `w`, in key order.
    fn select(&self, name: &String, w: &Where) -> (r: Result<Vec<Vec<Type>>, StorageError>) {
        match self.find(name) {
            None => Err(StorageError::TableDoesNotExist),
            Some(i) => {
                assert(self.tables@[i as int].wf());
                if !self.tables[i].filled {
                    Err(StorageError::NoRecords)
                } else {
                    Ok(self.tables[i].select(w))
                }
            },
        }
    }
}

} // verus!
