//! The in-memory vector store: fixed-dimension embeddings, tables of indexed
//! records keyed by name with overwrite semantics, and nearest-neighbor
//! retrieval.
//!
//! Embedding coordinates are fixed-point integers: a fractional coordinate is
//! scaled by a constant factor and rounded before it enters the store, so
//! distance comparisons are exact integer arithmetic. The store's metric is
//! squared Euclidean distance over those coordinates.

use vstd::prelude::*;
use crate::errors::RagError;

verus! {

/// The four-column row shape of a table, declared for a fixed embedding
/// dimensionality.
#[derive(Debug, Clone, Copy, PartialEq, Eq, Structural)]
pub struct Schema {
    /// Number of coordinates of every embedding stored under this schema.
    pub dims: usize,
}

/// Declares the row shape for embeddings of `dims` coordinates.
pub fn make_schema(dims: usize) -> (r: Schema)
    requires
        dims > 0,
    ensures
        r.dims == dims,
{
    Schema { dims }
}

/// One persisted row: a chunk id, its text, its source title, and its
/// embedding.
#[derive(Debug)]
pub struct IndexedRecord {
    /// Identifier of the chunk this row was built from.
    pub id: String,
    /// The chunk's text.
    pub content: String,
    /// Title of the source document.
    pub title: String,
    /// Fixed-point coordinates of the chunk's embedding.
    pub embedding: Vec<i32>,
}

/// Copies a coordinate vector.
fn copy_coords(v: &Vec<i32>) -> (r: Vec<i32>)
    ensures
        r@ == v@,
{
    let mut r: Vec<i32> = Vec::new();
    let mut i: usize = 0;
    while i < v.len()
        invariant
            i <= v@.len(),
            r@ =~= v@.subrange(0, i as int),
        decreases v@.len() - i,
    {
        r.push(v[i]);
        proof {
            assert(r@ =~= v@.subrange(0, i + 1));
        }
        i = i + 1;
    }
    proof {
        assert(v@.subrange(0, v@.len() as int) =~= v@);
    }
    r
}

/// The inputs to `prepare_data` agree: one id, text, title and embedding per
/// row, and every embedding has exactly `dims` coordinates as `schema`
/// declares.
pub open spec fn rows_consistent(
    ids: Seq<String>,
    contents: Seq<String>,
    titles: Seq<String>,
    embeddings: Seq<Vec<i32>>,
    dims: nat,
    schema: Schema,
) -> bool {
    &&& ids.len() == contents.len()
    &&& contents.len() == titles.len()
    &&& titles.len() == embeddings.len()
    &&& schema.dims == dims
    &&& forall|i: int| 0 <= i < embeddings.len() ==> (#[trigger] embeddings[i])@.len() == dims
}

/// Builds one `IndexedRecord` per input tuple.
///
/// Fails with `DimensionMismatch` exactly when the column lengths disagree,
/// some embedding does not have `dims` coordinates, or `schema` was declared
/// for a different dimensionality; otherwise row `i` carries `ids[i]`,
/// `contents[i]`, `titles[i]` and `embeddings[i]`, in order.
pub fn prepare_data(
    ids: Vec<String>,
    contents: Vec<String>,
    titles: Vec<String>,
    embeddings: Vec<Vec<i32>>,
    dims: usize,
    schema: Schema,
) -> (r: Result<Vec<IndexedRecord>, RagError>)
    ensures
        match r {
            Ok(rows) => {
                &&& rows_consistent(ids@, contents@, titles@, embeddings@, dims as nat, schema)
                &&& rows@.len() == ids@.len()
                &&& forall|i: int| 0 <= i < rows@.len() ==> {
                    &&& (#[trigger] rows@[i]).id == ids@[i]
                    &&& rows@[i].content == contents@[i]
                    &&& rows@[i].title == titles@[i]
                    &&& rows@[i].embedding@ == embeddings@[i]@
                }
            },
            Err(e) => {
                &&& !rows_consistent(ids@, contents@, titles@, embeddings@, dims as nat, schema)
                &&& e is DimensionMismatch
            },
        },
{
    if ids.len() != contents.len() || contents.len() != titles.len()
        || titles.len() != embeddings.len() || schema.dims != dims {
        return Err(RagError::DimensionMismatch);
    }
    let n = ids.len();
    let mut i: usize = 0;
    while i < n
        invariant
            i <= n,
            n == embeddings@.len(),
            forall|k: int| 0 <= k < i ==> (#[trigger] embeddings@[k])@.len() == dims,
        decreases n - i,
    {
        if embeddings[i].len() != dims {
            return Err(RagError::DimensionMismatch);
        }
        i = i + 1;
    }
    let mut rows: Vec<IndexedRecord> = Vec::new();
    let mut i: usize = 0;
    while i < n
        invariant
            i <= n,
            n == ids@.len(),
            n == contents@.len(),
            n == titles@.len(),
            n == embeddings@.len(),
            rows@.len() == i,
            forall|k: int| 0 <= k < i ==> {
                &&& (#[trigger] rows@[k]).id == ids@[k]
                &&& rows@[k].content == contents@[k]
                &&& rows@[k].title == titles@[k]
                &&& rows@[k].embedding@ == embeddings@[k]@
            },
        decreases n - i,
    {
        let row = IndexedRecord {
            id: ids[i].clone(),
            content: contents[i].clone(),
            title: titles[i].clone(),
            embedding: copy_coords(&embeddings[i]),
        };
        rows.push(row);
        i = i + 1;
    }
    Ok(rows)
}

/// Squared Euclidean distance between the first `n` coordinates of `a` and
/// `b`.
pub open spec fn dist2_prefix(a: Seq<i32>, b: Seq<i32>, n: int) -> int
    decreases n,
{
    if n <= 0 {
        0
    } else {
        dist2_prefix(a, b, n - 1) + (a[n - 1] - b[n - 1]) * (a[n - 1] - b[n - 1])
    }
}

/// Squared Euclidean distance between coordinate vectors `a` and `b`.
pub open spec fn dist2(a: Seq<i32>, b: Seq<i32>) -> int {
    dist2_prefix(a, b, a.len() as int)
}

/// Each summand of the squared distance is a square of a difference of two
/// `i32` values, so the whole sum is bounded by the length times the largest
/// such square.
proof fn lemma_dist2_prefix_bounds(a: Seq<i32>, b: Seq<i32>, n: int)
    requires
        0 <= n,
    ensures
        0 <= dist2_prefix(a, b, n) <= n * 0xffff_fffe_0000_0001,
    decreases n,
{
    if n > 0 {
        lemma_dist2_prefix_bounds(a, b, n - 1);
        let d = a[n - 1] - b[n - 1];
        assert(0 <= d * d <= 0xffff_fffe_0000_0001) by (nonlinear_arith)
            requires -0xffff_ffff <= d <= 0xffff_ffff;
        assert(n * 0xffff_fffe_0000_0001 == (n - 1) * 0xffff_fffe_0000_0001 + 0xffff_fffe_0000_0001)
            by (nonlinear_arith);
    }
}

/// Computes the squared Euclidean distance between two coordinate vectors of
/// the same length.
fn squared_distance(a: &Vec<i32>, b: &Vec<i32>) -> (r: u128)
    requires
        a@.len() == b@.len(),
    ensures
        r == dist2(a@, b@),
{
    let n = a.len();
    let mut acc: u128 = 0;
    let mut i: usize = 0;
    while i < n
        invariant
            i <= n,
            n == a@.len(),
            n == b@.len(),
            acc == dist2_prefix(a@, b@, i as int),
        decreases n - i,
    {
        let d: i128 = a[i] as i128 - b[i] as i128;
        proof {
            lemma_dist2_prefix_bounds(a@, b@, i as int);
            assert(0 <= d * d <= 0xffff_fffe_0000_0001) by (nonlinear_arith)
                requires -0xffff_ffff <= d <= 0xffff_ffff;
            assert((i + 1) * 0xffff_fffe_0000_0001 == i * 0xffff_fffe_0000_0001 + 0xffff_fffe_0000_0001)
                by (nonlinear_arith);
            assert((i + 1) * 0xffff_fffe_0000_0001 <= 0xffff_ffff_ffff_ffff * 0xffff_fffe_0000_0001)
                by (nonlinear_arith)
                requires 0 <= i + 1 <= 0xffff_ffff_ffff_ffff;
        }
        let sq: i128 = d * d;
        acc = acc + sq as u128;
        i = i + 1;
    }
    acc
}

/// One named table: a schema and the rows persisted under it.
#[derive(Debug)]
pub struct Table {
    /// The row shape this table was created with.
    pub schema: Schema,
    /// The persisted rows, in insertion order.
    pub rows: Vec<IndexedRecord>,
}

impl Table {
    /// The table's declared dimensionality.
    pub open spec fn spec_dims(&self) -> nat {
        self.schema.dims as nat
    }

    /// The table's rows, in insertion order.
    pub open spec fn spec_rows(&self) -> Seq<IndexedRecord> {
        self.rows@
    }

    /// Every row's embedding has the declared number of coordinates.
    pub open spec fn wf(&self) -> bool {
        &&& self.schema.dims > 0
        &&& forall|i: int| 0 <= i < self.rows@.len()
            ==> (#[trigger] self.rows@[i]).embedding@.len() == self.schema.dims as nat
    }

    /// The table's declared dimensionality.
    pub fn dims(&self) -> (r: usize)
        ensures
            r == self.spec_dims(),
    {
        self.schema.dims
    }

    /// How many rows the table holds.
    pub fn row_count(&self) -> (r: usize)
        ensures
            r == self.spec_rows().len(),
    {
        self.rows.len()
    }
}

/// First table in `ts` whose name reads `name`, if any.
pub open spec fn lookup_in(ts: Seq<(String, Table)>, name: Seq<char>) -> Option<Table>
    decreases ts.len(),
{
    if ts.len() == 0 {
        None
    } else if ts.first().0@ == name {
        Some(ts.first().1)
    } else {
        lookup_in(ts.drop_first(), name)
    }
}

proof fn lemma_lookup_in_snoc(ts: Seq<(String, Table)>, p: (String, Table), name: Seq<char>)
    ensures
        lookup_in(ts.push(p), name) == if lookup_in(ts, name) is Some {
            lookup_in(ts, name)
        } else if p.0@ == name {
            Some(p.1)
        } else {
            None::<Table>
        },
    decreases ts.len(),
{
    if ts.len() == 0 {
        assert(ts.push(p).drop_first() =~= ts);
    } else {
        assert(ts.push(p).drop_first() =~= ts.drop_first().push(p));
        lemma_lookup_in_snoc(ts.drop_first(), p, name);
    }
}

proof fn lemma_lookup_in_remove(ts: Seq<(String, Table)>, i: int, name: Seq<char>)
    requires
        0 <= i < ts.len(),
        forall|a: int, b: int| 0 <= a < b < ts.len() ==> (#[trigger] ts[a]).0@ != (#[trigger] ts[b]).0@,
    ensures
        lookup_in(ts.remove(i), name) == if ts[i].0@ == name {
            None::<Table>
        } else {
            lookup_in(ts, name)
        },
    decreases ts.len(),
{
    if i == 0 {
        assert(ts.remove(0) =~= ts.drop_first());
        if ts[0].0@ == name {
            // No later entry shares the removed name, so the rest misses it.
            lemma_lookup_in_unique_miss(ts.drop_first(), name);
        }
    } else {
        assert(ts.remove(i).drop_first() =~= ts.drop_first().remove(i - 1));
        lemma_lookup_in_remove(ts.drop_first(), i - 1, name);
    }
}

proof fn lemma_lookup_in_unique_miss(ts: Seq<(String, Table)>, name: Seq<char>)
    requires
        forall|a: int| 0 <= a < ts.len() ==> (#[trigger] ts[a]).0@ != name,
    ensures
        lookup_in(ts, name) is None,
    decreases ts.len(),
{
    if ts.len() > 0 {
        lemma_lookup_in_unique_miss(ts.drop_first(), name);
    }
}

/// The session's vector store: a set of named tables. Re-creating a table
/// under an existing name destroys the old table wholesale.
#[derive(Debug)]
pub struct VectorStore {
    /// The named tables, in creation order.
    pub tables: Vec<(String, Table)>,
}

impl VectorStore {
    /// Table names are unique and every table is well formed.
    pub open spec fn wf(&self) -> bool {
        &&& forall|a: int, b: int| 0 <= a < b < self.tables@.len()
            ==> (#[trigger] self.tables@[a]).0@ != (#[trigger] self.tables@[b]).0@
        &&& forall|a: int| 0 <= a < self.tables@.len() ==> (#[trigger] self.tables@[a]).1.wf()
    }

    /// The table stored under `name`, if any.
    pub open spec fn spec_lookup(&self, name: Seq<char>) -> Option<Table> {
        lookup_in(self.tables@, name)
    }

    /// An empty store with no tables.
    pub fn new() -> (r: VectorStore)
        ensures
            r.wf(),
            forall|name: Seq<char>| r.spec_lookup(name) is None,
    {
        VectorStore { tables: Vec::new() }
    }

    /// A reference to the table stored under `name`, or `None` when no table
    /// of that name exists.
    pub fn get_table(&self, name: &str) -> (r: Option<&Table>)
        requires
            self.wf(),
        ensures
            match r {
                Some(t) => self.spec_lookup(name@) == Some(*t) && t.wf(),
                None => self.spec_lookup(name@) is None,
            },
    {
        let n = self.tables.len();
        let mut i: usize = 0;
        proof {
            assert(self.tables@.skip(0) =~= self.tables@);
        }
        while i < n
            invariant
                i <= n,
                n == self.tables@.len(),
                self.wf(),
                lookup_in(self.tables@, name@) == lookup_in(self.tables@.skip(i as int), name@),
                forall|a: int| 0 <= a < i ==> (#[trigger] self.tables@[a]).0@ != name@,
            decreases n - i,
        {
            proof {
                assert(self.tables@.skip(i as int).first() == self.tables@[i as int]);
            }
            if string_eq_str(&self.tables[i].0, name) {
                return Some(&self.tables[i].1);
            }
            proof {
                assert(self.tables@.skip(i as int).drop_first() =~= self.tables@.skip(i + 1));
            }
            i = i + 1;
        }
        proof {
            assert(self.tables@.skip(n as int) =~= Seq::<(String, Table)>::empty());
        }
        None
    }

    /// Persists `rows` as the table named `name`: an existing table of that
    /// name is destroyed and replaced wholesale, and every other table is
    /// untouched.
    pub fn create_table(&mut self, name: &str, rows: Vec<IndexedRecord>, schema: Schema) -> (r: Result<(), RagError>)
        requires
            old(self).wf(),
        ensures
            final(self).wf(),
            match r {
                Ok(()) => {
                    &&& schema.dims > 0
                    &&& (forall|i: int| 0 <= i < rows@.len()
                        ==> (#[trigger] rows@[i]).embedding@.len() == schema.dims as nat)
                    &&& create_table_post(*old(self), *final(self), name@, rows@, schema)
                },
                Err(e) => {
                    &&& e is DimensionMismatch
                    &&& !(schema.dims > 0 && forall|i: int| 0 <= i < rows@.len()
                        ==> (#[trigger] rows@[i]).embedding@.len() == schema.dims as nat)
                    &&& *final(self) == *old(self)
                },
            },
    {
        if schema.dims == 0 {
            return Err(RagError::DimensionMismatch);
        }
        let mut i: usize = 0;
        let n = rows.len();
        while i < n
            invariant
                i <= n,
                n == rows@.len(),
                self == old(self),
                old(self).wf(),
                forall|k: int| 0 <= k < i ==> (#[trigger] rows@[k]).embedding@.len() == schema.dims as nat,
            decreases n - i,
        {
            if rows[i].embedding.len() != schema.dims {
                return Err(RagError::DimensionMismatch);
            }
            i = i + 1;
        }
        let m = self.tables.len();
        let mut j: usize = 0;
        while j < m
            invariant
                j <= m,
                m == self.tables@.len(),
                self.wf(),
                self == old(self),
                schema.dims > 0,
                n == rows@.len(),
                forall|k: int| 0 <= k < n ==> (#[trigger] rows@[k]).embedding@.len() == schema.dims as nat,
                forall|a: int| 0 <= a < j ==> (#[trigger] self.tables@[a]).0@ != name@,
            decreases m - j,
        {
            if string_eq_str(&self.tables[j].0, name) {
                proof {
                    lemma_lookup_in_remove(self.tables@, j as int, name@);
                    assert forall|other: Seq<char>| other != name@
                        implies lookup_in(self.tables@.remove(j as int), other)
                            == lookup_in(self.tables@, other) by {
                        lemma_lookup_in_remove(self.tables@, j as int, other);
                    }
                }
                let ghost ts = self.tables@;
                let ghost removed = self.tables@.remove(j as int);
                proof {
                    // No entry but the replaced one carries this name.
                    assert forall|x: int| 0 <= x < removed.len()
                        implies (#[trigger] removed[x]).0@ != name@ by {
                        if x < j {
                            assert(removed[x] == ts[x]);
                        } else {
                            assert(removed[x] == ts[x + 1]);
                        }
                    }
                    lemma_lookup_in_unique_miss(removed, name@);
                }
                self.tables.remove(j);
                let owned = name.to_owned();
                let table = Table { schema, rows };
                let ghost entry = (owned, table);
                self.tables.push((owned, table));
                proof {
                    assert(entry.1.wf());
                    lemma_lookup_in_snoc(removed, entry, name@);
                    assert forall|other: Seq<char>| other != name@
                        implies lookup_in(removed.push(entry), other)
                            == lookup_in(removed, other) by {
                        lemma_lookup_in_snoc(removed, entry, other);
                    }
                    assert(self.wf());
                }
                return Ok(());
            }
            j = j + 1;
        }
        let ghost before = self.tables@;
        let owned = name.to_owned();
        let table = Table { schema, rows };
        let ghost entry = (owned, table);
        self.tables.push((owned, table));
        proof {
            assert(entry.1.wf());
            lemma_lookup_in_unique_miss(before, name@);
            lemma_lookup_in_snoc(before, entry, name@);
            assert forall|other: Seq<char>| other != name@
                implies lookup_in(before.push(entry), other)
                    == lookup_in(before, other) by {
                lemma_lookup_in_snoc(before, entry, other);
            }
            assert(self.wf());
        }
        Ok(())
    }
}

/// What a successful table creation did to the store: the table named `name`
/// now holds exactly `rows` under `schema`, and every other name is bound as
/// before.
pub open spec fn create_table_post(
    pre: VectorStore,
    post: VectorStore,
    name: Seq<char>,
    rows: Seq<IndexedRecord>,
    schema: Schema,
) -> bool {
    &&& match post.spec_lookup(name) {
        Some(t) => t.spec_rows() == rows && t.spec_dims() == schema.dims as nat,
        None => false,
    }
    &&& forall|other: Seq<char>| other != name
        ==> #[trigger] post.spec_lookup(other) == pre.spec_lookup(other)
}

/// Overwrite semantics: after a table is created twice under the same name,
/// only the second batch of rows is bound to that name — the first batch is
/// gone — and tables under other names stand as before either creation.
pub proof fn lemma_overwrite_semantics(
    s0: VectorStore,
    s1: VectorStore,
    s2: VectorStore,
    name: Seq<char>,
    rows1: Seq<IndexedRecord>,
    rows2: Seq<IndexedRecord>,
    schema1: Schema,
    schema2: Schema,
)
    requires
        create_table_post(s0, s1, name, rows1, schema1),
        create_table_post(s1, s2, name, rows2, schema2),
    ensures
        match s2.spec_lookup(name) {
            Some(t) => t.spec_rows() == rows2 && t.spec_dims() == schema2.dims as nat,
            None => false,
        },
        forall|other: Seq<char>| other != name
            ==> #[trigger] s2.spec_lookup(other) == s0.spec_lookup(other),
{
}

/// Index of the first occurrence of the smallest value in `ds` (0 when `ds`
/// is empty).
pub open spec fn first_min_index(ds: Seq<int>) -> int
    decreases ds.len(),
{
    if ds.len() <= 1 {
        0
    } else {
        let r = first_min_index(ds.drop_last());
        if ds.last() < ds[r] {
            ds.len() - 1
        } else {
            r
        }
    }
}

/// `first_min_index` names an in-bounds index of a smallest value, and the
/// values before it are strictly larger.
pub proof fn lemma_first_min_index(ds: Seq<int>)
    requires
        ds.len() > 0,
    ensures
        0 <= first_min_index(ds) < ds.len(),
        forall|j: int| 0 <= j < ds.len() ==> ds[first_min_index(ds)] <= #[trigger] ds[j],
        forall|j: int| 0 <= j < first_min_index(ds) ==> ds[first_min_index(ds)] < #[trigger] ds[j],
    decreases ds.len(),
{
    if ds.len() > 1 {
        lemma_first_min_index(ds.drop_last());
        assert(forall|j: int| 0 <= j < ds.len() - 1 ==> ds.drop_last()[j] == #[trigger] ds[j]);
    }
}

/// One retrieval candidate per row: the row's content and its squared
/// distance to the query.
pub open spec fn dists_of(cands: Seq<(Seq<char>, int)>) -> Seq<int> {
    cands.map_values(|p: (Seq<char>, int)| p.1)
}

/// Up to `limit` candidates, repeatedly taking the first-closest remaining
/// one: the selection is ordered by non-decreasing distance, ties broken by
/// insertion order.
pub open spec fn nearest_rows(cands: Seq<(Seq<char>, int)>, limit: nat) -> Seq<(Seq<char>, int)>
    decreases cands.len(),
    via nearest_rows_decreases
{
    if limit == 0 || cands.len() == 0 {
        Seq::empty()
    } else {
        let m = first_min_index(dists_of(cands));
        seq![cands[m]] + nearest_rows(cands.remove(m), (limit - 1) as nat)
    }
}

#[via_fn]
proof fn nearest_rows_decreases(cands: Seq<(Seq<char>, int)>, limit: nat) {
    if !(limit == 0 || cands.len() == 0) {
        lemma_first_min_index(dists_of(cands));
        cands.remove_ensures(first_min_index(dists_of(cands)));
    }
}

/// Nearest-neighbor ordering: the selection holds `min(limit, n)` candidates,
/// each drawn from the input, in non-decreasing distance order.
pub proof fn lemma_nearest_ordering(cands: Seq<(Seq<char>, int)>, limit: nat)
    ensures
        nearest_rows(cands, limit).len() == if limit <= cands.len() {
            limit as int
        } else {
            cands.len() as int
        },
        forall|i: int| 0 <= i < nearest_rows(cands, limit).len()
            ==> exists|j: int| 0 <= j < cands.len()
                && #[trigger] nearest_rows(cands, limit)[i] == cands[j],
        forall|i: int, j: int| 0 <= i <= j < nearest_rows(cands, limit).len()
            ==> (#[trigger] nearest_rows(cands, limit)[i]).1
                <= (#[trigger] nearest_rows(cands, limit)[j]).1,
    decreases cands.len(),
{
    if limit == 0 || cands.len() == 0 {
    } else {
        let m = first_min_index(dists_of(cands));
        lemma_first_min_index(dists_of(cands));
        cands.remove_ensures(m);
        let rest = cands.remove(m);
        let sel = nearest_rows(cands, limit);
        let sub = nearest_rows(rest, (limit - 1) as nat);
        lemma_nearest_ordering(rest, (limit - 1) as nat);
        assert(sel[0] == cands[m]);
        assert forall|i: int| 0 <= i < sel.len()
            implies exists|j: int| 0 <= j < cands.len() && #[trigger] sel[i] == cands[j] by {
            if i == 0 {
                assert(sel[0] == cands[m]);
            } else {
                assert(sel[i] == sub[i - 1]);
                let j0 = choose|j0: int| 0 <= j0 < rest.len() && sub[i - 1] == rest[j0];
                if j0 < m {
                    assert(rest[j0] == cands[j0]);
                } else {
                    assert(rest[j0] == cands[j0 + 1]);
                }
            }
        }
        assert forall|i: int, j: int| 0 <= i <= j < sel.len()
            implies (#[trigger] sel[i]).1 <= (#[trigger] sel[j]).1 by {
            if i == 0 {
                if j > 0 {
                    assert(sel[j] == sub[j - 1]);
                    let j0 = choose|j0: int| 0 <= j0 < rest.len() && sub[j - 1] == rest[j0];
                    let jc = if j0 < m { j0 } else { j0 + 1 };
                    assert(sel[j] == cands[jc]);
                    assert(dists_of(cands)[m] <= dists_of(cands)[jc]);
                    assert(dists_of(cands)[jc] == cands[jc].1);
                }
            } else {
                assert(sel[i] == sub[i - 1]);
                assert(sel[j] == sub[j - 1]);
            }
        }
    }
}

/// The contents of a candidate list, in order.
pub open spec fn contents_of(cands: Seq<(Seq<char>, int)>) -> Seq<Seq<char>> {
    Seq::new(cands.len(), |i: int| cands[i].0)
}

/// The rows' contents paired with their distances to a query, in insertion
/// order.
pub open spec fn pairs_of(cs: Seq<String>, ds: Seq<u128>) -> Seq<(Seq<char>, int)> {
    Seq::new(ds.len(), |i: int| (cs[i]@, ds[i] as int))
}

impl Table {
    /// The retrieval candidates this table offers for query `q`.
    pub open spec fn spec_candidates(&self, q: Seq<i32>) -> Seq<(Seq<char>, int)> {
        Seq::new(
            self.rows@.len(),
            |i: int| (self.rows@[i].content@, dist2(self.rows@[i].embedding@, q)),
        )
    }
}

/// Returns the contents of up to `limit` rows whose embeddings are closest to
/// `query_vector` under squared Euclidean distance, nearest first, ties
/// broken by insertion order.
///
/// Fails with `DimensionMismatch` exactly when the query does not have the
/// table's declared number of coordinates; returns fewer than `limit` rows
/// when the table holds fewer.
pub fn execute_query(table: &Table, query_vector: &Vec<i32>, limit: usize) -> (r: Result<
    Vec<String>,
    RagError,
>)
    requires
        table.wf(),
    ensures
        match r {
            Ok(found) => {
                &&& query_vector@.len() == table.spec_dims()
                &&& found.deep_view() == contents_of(nearest_rows(
                    table.spec_candidates(query_vector@),
                    limit as nat,
                ))
            },
            Err(e) => {
                &&& query_vector@.len() != table.spec_dims()
                &&& e is DimensionMismatch
            },
        },
{
    if query_vector.len() != table.dims() {
        return Err(RagError::DimensionMismatch);
    }
    let n = table.row_count();
    let mut cand_c: Vec<String> = Vec::new();
    let mut cand_d: Vec<u128> = Vec::new();
    let mut i: usize = 0;
    while i < n
        invariant
            i <= n,
            n == table.rows@.len(),
            table.wf(),
            query_vector@.len() == table.spec_dims(),
            cand_c@.len() == i,
            cand_d@.len() == i,
            forall|k: int| 0 <= k < i
                ==> #[trigger] pairs_of(cand_c@, cand_d@)[k]
                    == table.spec_candidates(query_vector@)[k],
        decreases n - i,
    {
        let ghost pre_c = cand_c@;
        let ghost pre_d = cand_d@;
        let row = &table.rows[i];
        cand_c.push(row.content.clone());
        cand_d.push(squared_distance(&row.embedding, query_vector));
        proof {
            assert forall|k: int| 0 <= k < i + 1
                implies #[trigger] pairs_of(cand_c@, cand_d@)[k]
                    == table.spec_candidates(query_vector@)[k] by {
                if k < i {
                    assert(pairs_of(pre_c, pre_d)[k] == table.spec_candidates(query_vector@)[k]);
                }
            }
        }
        i = i + 1;
    }
    let ghost orig = table.spec_candidates(query_vector@);
    proof {
        assert(pairs_of(cand_c@, cand_d@) =~= orig);
    }
    let mut out: Vec<String> = Vec::new();
    let ghost mut sel: Seq<(Seq<char>, int)> = Seq::empty();
    let mut k: usize = 0;
    proof {
        assert(out.deep_view() =~= contents_of(sel));
        assert(sel + nearest_rows(orig, limit as nat) =~= nearest_rows(orig, limit as nat));
    }
    while k < limit && cand_d.len() > 0
        invariant
            k <= limit,
            cand_c@.len() == cand_d@.len(),
            out@.len() == k,
            out.deep_view() == contents_of(sel),
            nearest_rows(orig, limit as nat)
                == sel + nearest_rows(pairs_of(cand_c@, cand_d@), (limit - k) as nat),
        decreases limit - k,
    {
        let ghost cur = pairs_of(cand_c@, cand_d@);
        let len = cand_d.len();
        let mut m: usize = 0;
        let mut j: usize = 1;
        proof {
            assert(dists_of(cur).take(1) =~= seq![cur[0].1]);
        }
        while j < len
            invariant
                1 <= j <= len,
                m < j,
                len == cand_d@.len(),
                cand_c@.len() == cand_d@.len(),
                cur == pairs_of(cand_c@, cand_d@),
                m == first_min_index(dists_of(cur).take(j as int)),
            decreases len - j,
        {
            proof {
                assert(dists_of(cur).take(j + 1).drop_last() =~= dists_of(cur).take(j as int));
                lemma_first_min_index(dists_of(cur).take(j as int));
            }
            if cand_d[j] < cand_d[m] {
                m = j;
            }
            j = j + 1;
        }
        proof {
            assert(dists_of(cur).take(len as int) =~= dists_of(cur));
            lemma_first_min_index(dists_of(cur));
        }
        let ghost pre_out = out@;
        let ghost pre_dv = out.deep_view();
        let picked = cand_c.remove(m);
        cand_d.remove(m);
        out.push(picked);
        proof {
            let rest = nearest_rows(cur.remove(m as int), (limit - k - 1) as nat);
            assert(nearest_rows(cur, (limit - k) as nat) == seq![cur[m as int]] + rest);
            assert(pairs_of(cand_c@, cand_d@) =~= cur.remove(m as int));
            let prev = sel;
            sel = sel.push(cur[m as int]);
            assert(prev + (seq![cur[m as int]] + rest) =~= sel + rest);
            assert(out@ == pre_out.push(picked));
            assert(picked@ == cur[m as int].0);
            assert(pre_dv == contents_of(prev));
            assert(contents_of(prev).len() == prev.len());
            assert(pre_dv.len() == pre_out.len());
            assert(prev.len() == pre_out.len());
            assert forall|x: int| 0 <= x < out@.len()
                implies #[trigger] out.deep_view()[x] == contents_of(sel)[x] by {
                if x < pre_out.len() {
                    assert(out@[x] == pre_out[x]);
                    assert(pre_dv[x] == pre_out[x]@);
                    assert(contents_of(prev)[x] == prev[x].0);
                    assert(sel[x] == prev[x]);
                } else {
                    assert(x == pre_out.len());
                }
            }
            assert(out.deep_view() =~= contents_of(sel));
        }
        k = k + 1;
    }
    proof {
        assert(nearest_rows(pairs_of(cand_c@, cand_d@), (limit - k) as nat) =~= Seq::empty());
        assert(sel + nearest_rows(pairs_of(cand_c@, cand_d@), (limit - k) as nat) =~= sel);
        assert(nearest_rows(orig, limit as nat) == sel);
    }
    Ok(out)
}

/// Searches the table stored under `name` for the `limit` rows nearest to
/// `query_vector`.
///
/// Fails with `StoreError` exactly when no table of that name exists, and
/// with `DimensionMismatch` when the query does not have the table's
/// declared number of coordinates.
pub fn query_store(store: &VectorStore, name: &str, query_vector: &Vec<i32>, limit: usize) -> (r:
    Result<Vec<String>, RagError>)
    requires
        store.wf(),
    ensures
        match r {
            Ok(found) => match store.spec_lookup(name@) {
                Some(t) => {
                    &&& query_vector@.len() == t.spec_dims()
                    &&& found.deep_view() == contents_of(nearest_rows(
                        t.spec_candidates(query_vector@),
                        limit as nat,
                    ))
                },
                None => false,
            },
            Err(e) => match e {
                RagError::StoreError => store.spec_lookup(name@) is None,
                RagError::DimensionMismatch => match store.spec_lookup(name@) {
                    Some(t) => query_vector@.len() != t.spec_dims(),
                    None => false,
                },
                _ => false,
            },
        },
{
    let table = match store.get_table(name) {
        Some(t) => t,
        None => {
            return Err(RagError::StoreError);
        },
    };
    execute_query(table, query_vector, limit)
}

/// Compares an owned string with a string slice, character for character.
fn string_eq_str(a: &String, b: &str) -> (r: bool)
    ensures
        r == (a@ == b@),
{
    let owned = b.to_owned();
    a.eq(&owned)
}

} // verus!
