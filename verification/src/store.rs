//! The store port, and a store that lives in memory.
//!
//! A store holds rows keyed by identifier and never holds an identifier
//! twice. `upsert_ignore` skips what it already holds; `insert` turns the
//! whole batch down when one of its identifiers is taken.

use vstd::prelude::*;
use crate::error::{StoreError, StoreErrorView};
use crate::item::{ids_of, Shareable, ShareableView};

verus! {

/// No identifier occurs in two rows.
pub open spec fn unique_ids(rows: Seq<ShareableView>) -> bool {
    forall|i: int, j: int| 0 <= i < j < rows.len() ==> rows[i].id != rows[j].id
}

/// The rows after one item is written with upsert-ignore: the item is added
/// at the end unless its identifier is already there.
pub open spec fn upsert_row(rows: Seq<ShareableView>, item: ShareableView) -> Seq<ShareableView> {
    if ids_of(rows).contains(item.id) {
        rows
    } else {
        rows.push(item)
    }
}

/// The rows after a batch is written with upsert-ignore, item by item.
pub open spec fn upsert_rows(rows: Seq<ShareableView>, batch: Seq<ShareableView>) -> Seq<
    ShareableView,
>
    decreases batch.len(),
{
    if batch.len() == 0 {
        rows
    } else {
        upsert_rows(upsert_row(rows, batch.first()), batch.drop_first())
    }
}

/// The rows after a batch is inserted, or the first identifier of the batch
/// that is already taken, by a row or by an earlier item of the batch.
pub open spec fn insert_rows(rows: Seq<ShareableView>, batch: Seq<ShareableView>) -> Result<
    Seq<ShareableView>,
    Seq<char>,
>
    decreases batch.len(),
{
    if batch.len() == 0 {
        Ok(rows)
    } else if ids_of(rows).contains(batch.first().id) {
        Err(batch.first().id)
    } else {
        insert_rows(rows.push(batch.first()), batch.drop_first())
    }
}

/// Writing one item with upsert-ignore keeps identifiers unique, keeps every
/// row where it was, and leaves the item's identifier in the store.
pub proof fn lemma_upsert_row(rows: Seq<ShareableView>, item: ShareableView)
    requires
        unique_ids(rows),
    ensures
        unique_ids(upsert_row(rows, item)),
        rows.is_prefix_of(upsert_row(rows, item)),
        ids_of(upsert_row(rows, item)).contains(item.id),
{
    let after = upsert_row(rows, item);
    if ids_of(rows).contains(item.id) {
    } else {
        assert forall|i: int, j: int| 0 <= i < j < after.len() implies after[i].id
            != after[j].id by {
            if j == rows.len() {
                assert(ids_of(rows)[i] == rows[i].id);
            }
        }
        assert(ids_of(after)[rows.len() as int] == item.id);
    }
}

/// No duplicates: writing a batch with upsert-ignore keeps identifiers
/// unique, and keeps every row that was there where it was.
pub proof fn lemma_upsert_keeps_unique(rows: Seq<ShareableView>, batch: Seq<ShareableView>)
    requires
        unique_ids(rows),
    ensures
        unique_ids(upsert_rows(rows, batch)),
        rows.is_prefix_of(upsert_rows(rows, batch)),
    decreases batch.len(),
{
    if batch.len() > 0 {
        lemma_upsert_row(rows, batch.first());
        lemma_upsert_keeps_unique(upsert_row(rows, batch.first()), batch.drop_first());
    }
}

/// A batch whose identifiers are all in the store already changes nothing.
pub proof fn lemma_upsert_known_is_noop(rows: Seq<ShareableView>, batch: Seq<ShareableView>)
    requires
        forall|k: int| 0 <= k < batch.len() ==> ids_of(rows).contains((#[trigger] batch[k]).id),
    ensures
        upsert_rows(rows, batch) == rows,
    decreases batch.len(),
{
    if batch.len() > 0 {
        assert(ids_of(rows).contains(batch[0].id));
        assert forall|k: int| 0 <= k < batch.drop_first().len() implies ids_of(rows).contains(
            (#[trigger] batch.drop_first()[k]).id,
        ) by {
            assert(batch.drop_first()[k] == batch[k + 1]);
        }
        lemma_upsert_known_is_noop(rows, batch.drop_first());
    }
}

/// After a batch is written with upsert-ignore, the store holds every
/// identifier it held before and every identifier of the batch.
pub proof fn lemma_upsert_covers(rows: Seq<ShareableView>, batch: Seq<ShareableView>)
    ensures
        forall|id: Seq<char>|
            ids_of(rows).contains(id) ==> #[trigger] ids_of(upsert_rows(rows, batch)).contains(id),
        forall|k: int|
            0 <= k < batch.len() ==> ids_of(upsert_rows(rows, batch)).contains(
                (#[trigger] batch[k]).id,
            ),
    decreases batch.len(),
{
    if batch.len() > 0 {
        let next = upsert_row(rows, batch.first());
        let rest = batch.drop_first();
        lemma_upsert_covers(next, rest);
        assert forall|id: Seq<char>| ids_of(rows).contains(id) implies #[trigger] ids_of(
            upsert_rows(rows, batch),
        ).contains(id) by {
            let i = choose|i: int| 0 <= i < ids_of(rows).len() && ids_of(rows)[i] == id;
            assert(ids_of(next)[i] == id);
            assert(ids_of(next).contains(id));
            assert(ids_of(upsert_rows(next, rest)).contains(id));
        }
        assert forall|k: int| 0 <= k < batch.len() implies ids_of(
            upsert_rows(rows, batch),
        ).contains((#[trigger] batch[k]).id) by {
            if k == 0 {
                if !ids_of(rows).contains(batch[0].id) {
                    assert(ids_of(next)[rows.len() as int] == batch[0].id);
                }
                assert(ids_of(next).contains(batch[0].id));
                assert(ids_of(upsert_rows(next, rest)).contains(batch[0].id));
            } else {
                assert(rest[k - 1] == batch[k]);
                assert(ids_of(upsert_rows(next, rest)).contains(rest[k - 1].id));
            }
        }
    }
}

/// Idempotence: writing the same batch with upsert-ignore a second time
/// changes nothing.
pub proof fn lemma_upsert_idempotent(rows: Seq<ShareableView>, batch: Seq<ShareableView>)
    ensures
        upsert_rows(upsert_rows(rows, batch), batch) == upsert_rows(rows, batch),
{
    lemma_upsert_covers(rows, batch);
    lemma_upsert_known_is_noop(upsert_rows(rows, batch), batch);
}

/// An insert that goes through adds the whole batch, in order, after the
/// rows that were there; and it goes through exactly when the rows and the
/// batch together hold no identifier twice.
pub proof fn lemma_insert_rows(rows: Seq<ShareableView>, batch: Seq<ShareableView>)
    requires
        unique_ids(rows),
    ensures
        insert_rows(rows, batch) is Ok <==> unique_ids(rows + batch),
        insert_rows(rows, batch) is Ok ==> insert_rows(rows, batch) == Ok::<
            Seq<ShareableView>,
            Seq<char>,
        >(rows + batch),
    decreases batch.len(),
{
    if batch.len() == 0 {
        assert(rows + batch =~= rows);
    } else {
        let head = batch.first();
        let rest = batch.drop_first();
        let all = rows + batch;
        if ids_of(rows).contains(head.id) {
            let i = choose|i: int| 0 <= i < ids_of(rows).len() && ids_of(rows)[i] == head.id;
            assert(all[i].id == all[rows.len() as int].id);
        } else {
            lemma_upsert_row(rows, head);
            lemma_insert_rows(rows.push(head), rest);
            assert(rows.push(head) + rest =~= all);
        }
    }
}

/// One write that a store is asked for.
pub enum Write {
    /// Write the batch with upsert-ignore.
    UpsertIgnore(Seq<ShareableView>),
    /// Insert the batch as a whole.
    Insert(Seq<ShareableView>),
}

/// The rows after one write: an insert that is turned down leaves them as
/// they were.
pub open spec fn write_rows(rows: Seq<ShareableView>, write: Write) -> Seq<ShareableView> {
    match write {
        Write::UpsertIgnore(batch) => upsert_rows(rows, batch),
        Write::Insert(batch) => match insert_rows(rows, batch) {
            Ok(after) => after,
            Err(_) => rows,
        },
    }
}

/// The rows after the writes `writes`, in the order in which the store takes
/// them.
pub open spec fn writes_rows(rows: Seq<ShareableView>, writes: Seq<Write>) -> Seq<ShareableView>
    decreases writes.len(),
{
    if writes.len() == 0 {
        rows
    } else {
        writes_rows(write_rows(rows, writes.first()), writes.drop_first())
    }
}

/// No duplicates under any interleaving: whatever writes the store is asked
/// for, of either kind and from whichever cycles, after it has taken them in
/// any order it holds no identifier twice, and every row it held is still
/// there.
pub proof fn lemma_writes_keep_unique(rows: Seq<ShareableView>, writes: Seq<Write>)
    requires
        unique_ids(rows),
    ensures
        unique_ids(writes_rows(rows, writes)),
        rows.is_prefix_of(writes_rows(rows, writes)),
    decreases writes.len(),
{
    if writes.len() > 0 {
        match writes.first() {
            Write::UpsertIgnore(batch) => lemma_upsert_keeps_unique(rows, batch),
            Write::Insert(batch) => lemma_insert_rows(rows, batch),
        }
        lemma_writes_keep_unique(write_rows(rows, writes.first()), writes.drop_first());
    }
}

/// A store that lives in memory. It holds its rows in the order in which
/// they came, and no identifier twice.
#[derive(Debug)]
pub struct MemoryStore {
    rows: Vec<Shareable>,
}

impl View for MemoryStore {
    type V = Seq<ShareableView>;

    closed spec fn view(&self) -> Seq<ShareableView> {
        self.rows.deep_view()
    }
}

impl MemoryStore {
    #[verifier::type_invariant]
    spec fn holds_each_id_once(self) -> bool {
        unique_ids(self.rows.deep_view())
    }

    /// A store without rows.
    pub fn new() -> (store: MemoryStore)
        ensures
            store@ == Seq::<ShareableView>::empty(),
    {
        let store = MemoryStore { rows: Vec::new() };
        assert(store.rows.deep_view() =~= Seq::empty());
        store
    }

    /// The number of rows.
    pub fn len(&self) -> (n: usize)
        ensures
            n == self@.len(),
            unique_ids(self@),
    {
        proof {
            use_type_invariant(self);
        }
        self.rows.len()
    }

    /// Whether a row has the identifier `id`.
    pub fn contains_id(&self, id: &String) -> (r: bool)
        ensures
            r == ids_of(self@).contains(id@),
    {
        holds_id(&self.rows, id)
    }

    /// The identifiers of all rows, in row order.
    pub fn list_known_ids(&self) -> (ids: Vec<String>)
        ensures
            ids.deep_view() == ids_of(self@),
            ids.deep_view().no_duplicates(),
    {
        proof {
            use_type_invariant(self);
        }
        let mut ids: Vec<String> = Vec::new();
        let mut i: usize = 0;
        while i < self.rows.len()
            invariant
                i <= self.rows.len(),
                ids.deep_view() == ids_of(self.rows.deep_view()).take(i as int),
            decreases self.rows.len() - i,
        {
            let ghost before = ids.deep_view();
            ids.push(self.rows[i].id.clone());
            assert(ids.deep_view() =~= before.push(self.rows[i as int].id@));
            assert(ids_of(self.rows.deep_view()).take(i + 1) =~= ids_of(
                self.rows.deep_view(),
            ).take(i as int).push(self.rows[i as int].id@));
            i += 1;
        }
        assert(ids_of(self.rows.deep_view()).take(i as int) =~= ids_of(self.rows.deep_view()));
        ids
    }

    /// A copy of all rows, in row order.
    pub fn list_all(&self) -> (rows: Vec<Shareable>)
        ensures
            rows.deep_view() == self@,
            unique_ids(self@),
    {
        proof {
            use_type_invariant(self);
        }
        let mut rows: Vec<Shareable> = Vec::new();
        let mut i: usize = 0;
        while i < self.rows.len()
            invariant
                i <= self.rows.len(),
                rows.deep_view() == self.rows.deep_view().take(i as int),
            decreases self.rows.len() - i,
        {
            let ghost before = rows.deep_view();
            rows.push(self.rows[i].clone());
            assert(rows.deep_view() =~= before.push(self.rows[i as int]@));
            assert(self.rows.deep_view().take(i + 1) =~= self.rows.deep_view().take(
                i as int,
            ).push(self.rows[i as int]@));
            i += 1;
        }
        assert(self.rows.deep_view().take(i as int) =~= self.rows.deep_view());
        rows
    }

    /// Writes a batch, skipping each item whose identifier the store already
    /// holds. A store in memory never fails.
    pub fn upsert_ignore(&mut self, items: Vec<Shareable>) -> (r: Result<(), StoreError>)
        ensures
            r is Ok,
            final(self)@ == upsert_rows(old(self)@, items.deep_view()),
            unique_ids(final(self)@),
    {
        proof {
            use_type_invariant(&*self);
        }
        let ghost batch = items.deep_view();
        let mut rows: Vec<Shareable> = Vec::new();
        assert(rows.deep_view() =~= Seq::empty());
        std::mem::swap(&mut self.rows, &mut rows);
        assert(batch.skip(0) =~= batch);
        for item in it: items
            invariant
                it.seq() == items@,
                batch == items.deep_view(),
                unique_ids(rows.deep_view()),
                upsert_rows(rows.deep_view(), batch.skip(it.index())) == upsert_rows(
                    old(self)@,
                    batch,
                ),
        {
            proof {
                let rest = batch.skip(it.index());
                assert(rest.first() == item@);
                assert(rest.drop_first() =~= batch.skip(it.index() + 1));
                lemma_upsert_row(rows.deep_view(), item@);
            }
            if !holds_id(&rows, &item.id) {
                let ghost before = rows.deep_view();
                rows.push(item);
                assert(rows.deep_view() =~= before.push(item@));
            }
        }
        self.rows = rows;
        Ok(())
    }

    /// Inserts a batch as a whole. If an identifier of the batch is already
    /// taken, by a row or by an earlier item of the batch, nothing is written
    /// and the error names the first such identifier.
    pub fn insert(&mut self, items: Vec<Shareable>) -> (r: Result<(), StoreError>)
        ensures
            match insert_rows(old(self)@, items.deep_view()) {
                Ok(rows) => r is Ok && final(self)@ == rows,
                Err(id) => r matches Err(e) && e@ == StoreErrorView::Rejected(id) && final(self)@
                    == old(self)@,
            },
            unique_ids(final(self)@),
    {
        proof {
            use_type_invariant(&*self);
        }
        let ghost batch = items.deep_view();
        let ghost rows = self@;
        let mut staged: Vec<Shareable> = Vec::new();
        assert(batch.skip(0) =~= batch);
        assert(rows + staged.deep_view() =~= rows);
        for item in it: items
            invariant
                it.seq() == items@,
                batch == items.deep_view(),
                rows == self@,
                self@ == old(self)@,
                unique_ids(rows),
                unique_ids(rows + staged.deep_view()),
                insert_rows(rows + staged.deep_view(), batch.skip(it.index())) == insert_rows(
                    rows,
                    batch,
                ),
        {
            let ghost so_far = rows + staged.deep_view();
            proof {
                let rest = batch.skip(it.index());
                assert(rest.first() == item@);
                assert(rest.drop_first() =~= batch.skip(it.index() + 1));
                lemma_upsert_row(so_far, item@);
                lemma_ids_of_concat(rows, staged.deep_view());
            }
            if holds_id(&self.rows, &item.id) || holds_id(&staged, &item.id) {
                return Err(StoreError::Rejected(item.id));
            }
            let ghost before = staged.deep_view();
            staged.push(item);
            assert(staged.deep_view() =~= before.push(item@));
            assert(rows + staged.deep_view() =~= so_far.push(item@));
        }
        let mut all: Vec<Shareable> = Vec::new();
        assert(all.deep_view() =~= Seq::empty());
        std::mem::swap(&mut self.rows, &mut all);
        let ghost old_rows = all;
        let ghost added = staged;
        all.append(&mut staged);
        assert(all.deep_view() =~= old_rows.deep_view() + added.deep_view());
        self.rows = all;
        proof {
            lemma_insert_rows(rows, batch);
            assert(batch.skip(batch.len() as int) =~= Seq::empty());
        }
        Ok(())
    }
}

/// The identifiers of two runs of rows put together.
pub proof fn lemma_ids_of_concat(a: Seq<ShareableView>, b: Seq<ShareableView>)
    ensures
        ids_of(a + b) == ids_of(a) + ids_of(b),
        forall|id: Seq<char>|
            #[trigger] ids_of(a + b).contains(id) <==> ids_of(a).contains(id) || ids_of(
                b,
            ).contains(id),
{
    assert(ids_of(a + b) =~= ids_of(a) + ids_of(b));
    assert forall|id: Seq<char>| #[trigger]
        ids_of(a + b).contains(id) <==> ids_of(a).contains(id) || ids_of(b).contains(id) by {
        if ids_of(a).contains(id) {
            let i = choose|i: int| 0 <= i < ids_of(a).len() && ids_of(a)[i] == id;
            assert((ids_of(a) + ids_of(b))[i] == id);
        }
        if ids_of(b).contains(id) {
            let i = choose|i: int| 0 <= i < ids_of(b).len() && ids_of(b)[i] == id;
            assert((ids_of(a) + ids_of(b))[ids_of(a).len() + i] == id);
        }
    }
}

/// Whether one of `rows` has the identifier `id`.
fn holds_id(rows: &Vec<Shareable>, id: &String) -> (r: bool)
    ensures
        r == ids_of(rows.deep_view()).contains(id@),
{
    let mut i: usize = 0;
    while i < rows.len()
        invariant
            i <= rows.len(),
            forall|j: int| 0 <= j < i ==> ids_of(rows.deep_view())[j] != id@,
        decreases rows.len() - i,
    {
        if rows[i].id == *id {
            assert(ids_of(rows.deep_view())[i as int] == id@);
            return true;
        }
        i += 1;
    }
    false
}

} // verus!
