//! The storage map: named partitions of key-ordered rows. This is the
//! ordered key-value layer the catalog runs on; it offers atomic single-key
//! get, put and delete, partition create, drop and listing, and
//! prefix-ordered iteration within a partition.
use vstd::prelude::*;

use crate::config::DbConfig;
use crate::error::{MoeDbError, TrxError, TrxErrModel};
use crate::headers::{JqlSchema, SchemaModel};
use crate::util::{
    is_prefix, lemma_lex_connex, lemma_lex_irrefl, lemma_lex_trans, lex_lt, str_eq, str_has_prefix,
    str_lt,
};
use crate::var::{DB_CREDS, DB_LOG, DB_SYS};

verus! {

/// A catalog entry's value: the bare existence marker of a database, or the
/// schema document of a collection.
#[derive(Debug)]
pub enum CatVal {
    Marker,
    Schema(JqlSchema),
}

/// The mathematical shape of a catalog entry's value.
pub enum CatValModel {
    Marker,
    Schema(SchemaModel),
}

impl View for CatVal {
    type V = CatValModel;

    open spec fn view(&self) -> CatValModel {
        match self {
            CatVal::Marker => CatValModel::Marker,
            CatVal::Schema(s) => CatValModel::Schema(s@),
        }
    }
}

impl CatVal {
    /// A value equal to this one under the view.
    pub fn duplicate(&self) -> (r: Self)
        ensures
            r@ == self@,
    {
        match self {
            CatVal::Marker => CatVal::Marker,
            CatVal::Schema(s) => CatVal::Schema(s.duplicate()),
        }
    }
}

/// One stored row.
struct Row {
    key: String,
    val: CatVal,
}

/// One named partition, rows kept in strict key order.
struct Partition {
    name: String,
    rows: Vec<Row>,
}

/// Rows strictly ascending in the key order: no duplicate keys.
spec fn rows_sorted(rows: Seq<Row>) -> bool {
    forall|i: int, j: int|
        0 <= i < j < rows.len() ==> lex_lt(#[trigger] rows[i].key@, #[trigger] rows[j].key@)
}

/// The map a row sequence holds: later rows win, though sorted rows never
/// repeat a key.
spec fn kv_of_rows(rows: Seq<Row>) -> Map<Seq<char>, CatValModel>
    decreases rows.len(),
{
    if rows.len() == 0 {
        Map::empty()
    } else {
        kv_of_rows(rows.drop_last()).insert(rows.last().key@, rows.last().val@)
    }
}

/// A key is in the map exactly when some row carries it.
proof fn lemma_kv_dom(rows: Seq<Row>)
    ensures
        forall|k: Seq<char>|
            #[trigger] kv_of_rows(rows).dom().contains(k) == exists|i: int|
                0 <= i < rows.len() && #[trigger] rows[i].key@ == k,
    decreases rows.len(),
{
    if rows.len() > 0 {
        let dl = rows.drop_last();
        lemma_kv_dom(dl);
        let lk = rows.last().key@;
        assert forall|k: Seq<char>|
            #[trigger] kv_of_rows(rows).dom().contains(k) == (exists|i: int|
                0 <= i < rows.len() && #[trigger] rows[i].key@ == k) by {
            if kv_of_rows(rows).dom().contains(k) {
                if k == lk {
                    assert(rows[rows.len() - 1].key@ == k);
                } else {
                    assert(kv_of_rows(dl).dom().contains(k));
                    let i = choose|i: int| 0 <= i < dl.len() && #[trigger] dl[i].key@ == k;
                    assert(rows[i].key@ == k);
                }
            }
            if exists|i: int| 0 <= i < rows.len() && #[trigger] rows[i].key@ == k {
                let i = choose|i: int| 0 <= i < rows.len() && #[trigger] rows[i].key@ == k;
                if i == rows.len() - 1 {
                    assert(k == lk);
                    assert(kv_of_rows(rows).dom().contains(k));
                } else {
                    assert(dl[i].key@ == k);
                    assert(kv_of_rows(dl).dom().contains(k));
                    assert(kv_of_rows(rows).dom().contains(k));
                }
            }
        }
    }
}

/// In sorted rows, the map's value at a row's key is that row's value.
proof fn lemma_kv_at(rows: Seq<Row>, i: int)
    requires
        rows_sorted(rows),
        0 <= i < rows.len(),
    ensures
        kv_of_rows(rows).dom().contains(rows[i].key@),
        kv_of_rows(rows)[rows[i].key@] == rows[i].val@,
    decreases rows.len(),
{
    if i == rows.len() - 1 {
    } else {
        lemma_lex_irrefl(rows[i].key@);
        assert(lex_lt(rows[i].key@, rows.last().key@));
        assert(rows[i].key@ != rows.last().key@);
        assert(rows_sorted(rows.drop_last()));
        assert(rows.drop_last()[i] == rows[i]);
        lemma_kv_at(rows.drop_last(), i);
    }
}

/// Replacing a row in place, key kept, makes the map an insert at that key.
proof fn lemma_kv_update(rows: Seq<Row>, i: int, r2: Row)
    requires
        rows_sorted(rows),
        0 <= i < rows.len(),
        r2.key@ == rows[i].key@,
    ensures
        kv_of_rows(rows.update(i, r2)) == kv_of_rows(rows).insert(r2.key@, r2.val@),
    decreases rows.len(),
{
    let rs2 = rows.update(i, r2);
    if i == rows.len() - 1 {
        assert(rs2.drop_last() =~= rows.drop_last());
        assert(rs2.last() == r2);
    } else {
        assert(rs2.drop_last() =~= rows.drop_last().update(i, r2));
        assert(rs2.last() == rows.last());
        assert(rows_sorted(rows.drop_last()));
        assert(rows.drop_last()[i] == rows[i]);
        lemma_kv_update(rows.drop_last(), i, r2);
        lemma_lex_irrefl(r2.key@);
        assert(lex_lt(rows[i].key@, rows.last().key@));
        assert(kv_of_rows(rows.drop_last()).insert(r2.key@, r2.val@).insert(
            rows.last().key@,
            rows.last().val@,
        ) =~= kv_of_rows(rows.drop_last()).insert(rows.last().key@, rows.last().val@).insert(
            r2.key@,
            r2.val@,
        ));
    }
}

/// Inserting a row under a fresh key makes the map an insert at that key.
proof fn lemma_kv_insert(rows: Seq<Row>, i: int, r2: Row)
    requires
        0 <= i <= rows.len(),
        forall|j: int| 0 <= j < rows.len() ==> #[trigger] rows[j].key@ != r2.key@,
    ensures
        kv_of_rows(rows.insert(i, r2)) == kv_of_rows(rows).insert(r2.key@, r2.val@),
    decreases rows.len(),
{
    let rs2 = rows.insert(i, r2);
    if i == rows.len() {
        assert(rs2.drop_last() =~= rows);
        assert(rs2.last() == r2);
    } else {
        assert(rs2.last() == rows.last());
        assert(rs2.drop_last() =~= rows.drop_last().insert(i, r2));
        assert(forall|j: int|
            0 <= j < rows.drop_last().len() ==> #[trigger] rows.drop_last()[j].key@ != r2.key@);
        lemma_kv_insert(rows.drop_last(), i, r2);
        assert(rows[rows.len() - 1].key@ != r2.key@);
        assert(kv_of_rows(rows.drop_last()).insert(r2.key@, r2.val@).insert(
            rows.last().key@,
            rows.last().val@,
        ) =~= kv_of_rows(rows.drop_last()).insert(rows.last().key@, rows.last().val@).insert(
            r2.key@,
            r2.val@,
        ));
    }
}

/// Removing a row from sorted rows removes exactly its key from the map.
proof fn lemma_kv_remove(rows: Seq<Row>, i: int)
    requires
        rows_sorted(rows),
        0 <= i < rows.len(),
    ensures
        kv_of_rows(rows.remove(i)) == kv_of_rows(rows).remove(rows[i].key@),
    decreases rows.len(),
{
    let rs2 = rows.remove(i);
    if i == rows.len() - 1 {
        assert(rs2 =~= rows.drop_last());
        lemma_kv_dom(rows.drop_last());
        assert forall|j: int| 0 <= j < rows.drop_last().len() implies #[trigger] rows.drop_last(
        )[j].key@ != rows[i].key@ by {
            lemma_lex_irrefl(rows[i].key@);
            assert(lex_lt(rows[j].key@, rows[i].key@));
        }
        assert(!kv_of_rows(rows.drop_last()).dom().contains(rows[i].key@));
        assert(kv_of_rows(rows.drop_last()).insert(rows.last().key@, rows.last().val@).remove(
            rows[i].key@,
        ) =~= kv_of_rows(rows.drop_last()));
    } else {
        assert(rs2.drop_last() =~= rows.drop_last().remove(i));
        assert(rs2.last() == rows.last());
        assert(rows_sorted(rows.drop_last()));
        assert(rows.drop_last()[i] == rows[i]);
        lemma_kv_remove(rows.drop_last(), i);
        lemma_lex_irrefl(rows[i].key@);
        assert(lex_lt(rows[i].key@, rows.last().key@));
        assert(kv_of_rows(rows.drop_last()).remove(rows[i].key@).insert(
            rows.last().key@,
            rows.last().val@,
        ) =~= kv_of_rows(rows.drop_last()).insert(rows.last().key@, rows.last().val@).remove(
            rows[i].key@,
        ));
    }
}

/// Partition names, in storage order.
spec fn names_of(parts: Seq<Partition>) -> Seq<Seq<char>> {
    parts.map_values(|p: Partition| p.name@)
}

/// Partition names strictly ascending: no duplicate partitions.
spec fn parts_sorted(parts: Seq<Partition>) -> bool {
    forall|i: int, j: int|
        0 <= i < j < parts.len() ==> lex_lt(#[trigger] parts[i].name@, #[trigger] parts[j].name@)
}

spec fn has_part_in(parts: Seq<Partition>, n: Seq<char>) -> bool {
    exists|i: int| 0 <= i < parts.len() && #[trigger] parts[i].name@ == n
}

/// The map a named partition holds; an absent partition holds nothing.
spec fn kv_in_parts(parts: Seq<Partition>, n: Seq<char>) -> Map<Seq<char>, CatValModel>
    decreases parts.len(),
{
    if parts.len() == 0 {
        Map::empty()
    } else if parts.last().name@ == n {
        kv_of_rows(parts.last().rows@)
    } else {
        kv_in_parts(parts.drop_last(), n)
    }
}

/// A name no partition carries holds nothing.
proof fn lemma_kv_parts_absent(parts: Seq<Partition>, n: Seq<char>)
    requires
        !has_part_in(parts, n),
    ensures
        kv_in_parts(parts, n) == Map::<Seq<char>, CatValModel>::empty(),
    decreases parts.len(),
{
    if parts.len() > 0 {
        assert(parts[parts.len() - 1].name@ != n);
        assert forall|i: int| 0 <= i < parts.drop_last().len() implies #[trigger] parts.drop_last(
        )[i].name@ != n by {
            assert(parts[i].name@ == parts.drop_last()[i].name@);
        }
        lemma_kv_parts_absent(parts.drop_last(), n);
    }
}

/// With unique names, the map of partition `i` is what `kv_in_parts` yields
/// for its name.
proof fn lemma_kv_parts_at(parts: Seq<Partition>, i: int)
    requires
        parts_sorted(parts),
        0 <= i < parts.len(),
    ensures
        kv_in_parts(parts, parts[i].name@) == kv_of_rows(parts[i].rows@),
    decreases parts.len(),
{
    if i == parts.len() - 1 {
    } else {
        lemma_lex_irrefl(parts[i].name@);
        assert(lex_lt(parts[i].name@, parts.last().name@));
        assert(parts_sorted(parts.drop_last()));
        assert(parts.drop_last()[i] == parts[i]);
        lemma_kv_parts_at(parts.drop_last(), i);
    }
}

/// Inserting a partition under a fresh name leaves every other name's map
/// alone and gives the new name the new partition's map.
proof fn lemma_kv_parts_insert(parts: Seq<Partition>, i: int, p: Partition, n: Seq<char>)
    requires
        0 <= i <= parts.len(),
        forall|j: int| 0 <= j < parts.len() ==> #[trigger] parts[j].name@ != p.name@,
    ensures
        kv_in_parts(parts.insert(i, p), n) == if n == p.name@ {
            kv_of_rows(p.rows@)
        } else {
            kv_in_parts(parts, n)
        },
    decreases parts.len(),
{
    let ps2 = parts.insert(i, p);
    if i == parts.len() {
        assert(ps2.drop_last() =~= parts);
        assert(ps2.last() == p);
        if n != p.name@ {
        }
    } else {
        assert(ps2.last() == parts.last());
        assert(ps2.drop_last() =~= parts.drop_last().insert(i, p));
        assert(forall|j: int|
            0 <= j < parts.drop_last().len() ==> #[trigger] parts.drop_last()[j].name@ != p.name@);
        lemma_kv_parts_insert(parts.drop_last(), i, p, n);
        assert(parts[parts.len() - 1].name@ != p.name@);
    }
}

/// Swapping partition `i` for one of the same name leaves every other
/// name's map alone and gives that name the new partition's map.
proof fn lemma_kv_parts_update(parts: Seq<Partition>, i: int, p: Partition, n: Seq<char>)
    requires
        parts_sorted(parts),
        0 <= i < parts.len(),
        p.name@ == parts[i].name@,
    ensures
        kv_in_parts(parts.update(i, p), n) == if n == p.name@ {
            kv_of_rows(p.rows@)
        } else {
            kv_in_parts(parts, n)
        },
    decreases parts.len(),
{
    let ps2 = parts.update(i, p);
    if i == parts.len() - 1 {
        assert(ps2.drop_last() =~= parts.drop_last());
        assert(ps2.last() == p);
    } else {
        assert(ps2.last() == parts.last());
        assert(ps2.drop_last() =~= parts.drop_last().update(i, p));
        assert(parts_sorted(parts.drop_last()));
        assert(parts.drop_last()[i] == parts[i]);
        lemma_kv_parts_update(parts.drop_last(), i, p, n);
        lemma_lex_irrefl(p.name@);
        assert(lex_lt(parts[i].name@, parts.last().name@));
    }
}

/// Removing partition `i` empties its name's map and leaves every other
/// name's map alone.
proof fn lemma_kv_parts_remove(parts: Seq<Partition>, i: int, n: Seq<char>)
    requires
        parts_sorted(parts),
        0 <= i < parts.len(),
    ensures
        kv_in_parts(parts.remove(i), n) == if n == parts[i].name@ {
            Map::<Seq<char>, CatValModel>::empty()
        } else {
            kv_in_parts(parts, n)
        },
    decreases parts.len(),
{
    let ps2 = parts.remove(i);
    if i == parts.len() - 1 {
        assert(ps2 =~= parts.drop_last());
        if n == parts[i].name@ {
            assert forall|j: int|
                0 <= j < parts.drop_last().len() implies #[trigger] parts.drop_last()[j].name@
                != n by {
                lemma_lex_irrefl(n);
                assert(lex_lt(parts[j].name@, parts[i].name@));
            }
            lemma_kv_parts_absent(parts.drop_last(), n);
        }
    } else {
        assert(ps2.drop_last() =~= parts.drop_last().remove(i));
        assert(ps2.last() == parts.last());
        assert(parts_sorted(parts.drop_last()));
        assert(parts.drop_last()[i] == parts[i]);
        lemma_kv_parts_remove(parts.drop_last(), i, n);
        lemma_lex_irrefl(parts[i].name@);
        assert(lex_lt(parts[i].name@, parts.last().name@));
    }
}

/// The storage handle: the partitions, opened below the configured paths.
pub struct Trx {
    pub env: DbConfig,
    parts: Vec<Partition>,
}

impl Trx {
    /// Whether a partition of this name exists.
    pub closed spec fn has_part(&self, n: Seq<char>) -> bool {
        has_part_in(self.parts@, n)
    }

    /// The key-to-value map a named partition holds.
    pub closed spec fn part_kv(&self, n: Seq<char>) -> Map<Seq<char>, CatValModel> {
        kv_in_parts(self.parts@, n)
    }

    /// The partition names, in storage order.
    pub closed spec fn part_names(&self) -> Seq<Seq<char>> {
        names_of(self.parts@)
    }

    /// The configuration the storage was opened with.
    pub closed spec fn config(&self) -> DbConfig {
        self.env
    }

    /// Well-formed storage: partition names strictly ordered, each
    /// partition's rows strictly ordered by key.
    pub closed spec fn wf(&self) -> bool {
        &&& parts_sorted(self.parts@)
        &&& forall|i: int| 0 <= i < self.parts@.len() ==> rows_sorted(#[trigger] self.parts@[i].rows@)
    }

    /// A partition name is listed exactly when the partition exists.
    pub proof fn lemma_names(&self)
        ensures
            forall|n: Seq<char>| #[trigger] self.part_names().contains(n) == self.has_part(n),
            forall|i: int, j: int|
                self.wf() && 0 <= i < j < self.part_names().len() ==> lex_lt(
                    #[trigger] self.part_names()[i],
                    #[trigger] self.part_names()[j],
                ),
    {
        assert forall|n: Seq<char>| #[trigger] self.part_names().contains(n) == self.has_part(
            n,
        ) by {
            if self.part_names().contains(n) {
                let i = choose|i: int|
                    0 <= i < self.part_names().len() && self.part_names()[i] == n;
                assert(self.parts@[i].name@ == n);
            }
            if self.has_part(n) {
                let i = choose|i: int|
                    0 <= i < self.parts@.len() && #[trigger] self.parts@[i].name@ == n;
                assert(self.part_names()[i] == n);
            }
        }
    }
}

/// The message the storage layer reports when a partition to be created is
/// already there.
pub open spec fn cf_exists_msg(n: Seq<char>) -> Seq<char> {
    "cf already exists `"@ + n + "`"@
}

impl Trx {
    /// Opens the storage: the reserved system partitions for a catalog
    /// store, or the log partition for a query-log store. A fresh store is
    /// empty.
    pub fn new(env: DbConfig, with_log: bool) -> (r: Result<Trx, MoeDbError>)
        ensures
            match r {
                Ok(t) => {
                    &&& t.wf()
                    &&& t.config() == env
                    &&& forall|n: Seq<char>|
                        t.has_part(n) == if with_log {
                            n == DB_LOG@
                        } else {
                            n == DB_CREDS@ || n == DB_SYS@
                        }
                    &&& forall|n: Seq<char>|
                        t.part_kv(n) == Map::<Seq<char>, CatValModel>::empty()
                },
                Err(e) => false,
            },
    {
        let mut parts: Vec<Partition> = Vec::new();
        if with_log {
            parts.push(Partition { name: DB_LOG.to_owned(), rows: Vec::new() });
        } else {
            parts.push(Partition { name: DB_CREDS.to_owned(), rows: Vec::new() });
            parts.push(Partition { name: DB_SYS.to_owned(), rows: Vec::new() });
            proof {
                reveal_strlit("credentials");
                reveal_strlit("sys");
                assert(DB_CREDS@ =~= "credentials"@);
                assert(DB_SYS@ =~= "sys"@);
                assert("credentials"@[0] == 'c' && "sys"@[0] == 's');
                assert(lex_lt(DB_CREDS@, DB_SYS@));
            }
        }
        let t = Trx { env, parts };
        proof {
            assert forall|n: Seq<char>|
                t.part_kv(n) == Map::<Seq<char>, CatValModel>::empty() by {
                let ps = t.parts@;
                assert(kv_in_parts(Seq::<Partition>::empty(), n) == Map::<
                    Seq<char>,
                    CatValModel,
                >::empty());
                if with_log {
                    assert(ps.drop_last() =~= Seq::<Partition>::empty());
                    assert(kv_of_rows(ps.last().rows@) =~= Map::<Seq<char>, CatValModel>::empty());
                    assert(kv_in_parts(ps, n) == Map::<Seq<char>, CatValModel>::empty());
                } else {
                    assert(ps.drop_last() =~= seq![ps[0]]);
                    assert(seq![ps[0]].drop_last() =~= Seq::<Partition>::empty());
                    assert(kv_of_rows(ps[0].rows@) =~= Map::<Seq<char>, CatValModel>::empty());
                    assert(kv_of_rows(ps[1].rows@) =~= Map::<Seq<char>, CatValModel>::empty());
                    assert(kv_in_parts(seq![ps[0]], n) == Map::<Seq<char>, CatValModel>::empty());
                    assert(kv_in_parts(ps, n) == Map::<Seq<char>, CatValModel>::empty());
                }
            }
            assert forall|n: Seq<char>|
                t.has_part(n) == if with_log {
                    n == DB_LOG@
                } else {
                    n == DB_CREDS@ || n == DB_SYS@
                } by {
                if !with_log {
                    assert(t.parts@[0].name@ == DB_CREDS@);
                    assert(t.parts@[1].name@ == DB_SYS@);
                } else {
                    assert(t.parts@[0].name@ == DB_LOG@);
                }
            }
        }
        Ok(t)
    }

    /// The index of an existing partition.
    #[verifier::loop_isolation(false)]
    fn part_index(&self, name: &str) -> (r: usize)
        requires
            self.has_part(name@),
        ensures
            r < self.parts@.len(),
            self.parts@[r as int].name@ == name@,
    {
        let mut i: usize = 0;
        while i < self.parts.len()
            invariant
                0 <= i <= self.parts@.len(),
                forall|j: int| 0 <= j < i ==> #[trigger] self.parts@[j].name@ != name@,
            decreases self.parts@.len() - i,
        {
            if str_eq(self.parts[i].name.as_str(), name) {
                return i;
            }
            i = i + 1;
        }
        proof {
            assert(false);
        }
        0
    }

    /// The index of a partition, where one of this name exists.
    #[verifier::loop_isolation(false)]
    fn find_part(&self, name: &str) -> (r: Option<usize>)
        ensures
            match r {
                Some(i) => i < self.parts@.len() && self.parts@[i as int].name@ == name@,
                None => !self.has_part(name@),
            },
    {
        let mut i: usize = 0;
        while i < self.parts.len()
            invariant
                0 <= i <= self.parts@.len(),
                forall|j: int| 0 <= j < i ==> #[trigger] self.parts@[j].name@ != name@,
            decreases self.parts@.len() - i,
        {
            if str_eq(self.parts[i].name.as_str(), name) {
                return Some(i);
            }
            i = i + 1;
        }
        None
    }

    /// Whether a partition of this name exists.
    pub fn has_partition(&self, name: &str) -> (r: bool)
        ensures
            r == self.has_part(name@),
    {
        self.find_part(name).is_some()
    }

    /// The partition names, in storage order.
    #[verifier::loop_isolation(false)]
    pub fn cfs(&self) -> (r: Vec<String>)
        ensures
            r.deep_view() == self.part_names(),
    {
        let mut out: Vec<String> = Vec::new();
        let mut i: usize = 0;
        proof {
            assert(out.deep_view() =~= self.part_names().take(0));
        }
        while i < self.parts.len()
            invariant
                0 <= i <= self.parts@.len(),
                out.deep_view() == self.part_names().take(i as int),
            decreases self.parts@.len() - i,
        {
            let ghost before = out.deep_view();
            out.push(self.parts[i].name.clone());
            proof {
                assert(out.deep_view() =~= before.push(self.parts@[i as int].name@));
                assert(out.deep_view() =~= self.part_names().take(i + 1 as int));
            }
            i = i + 1;
        }
        proof {
            assert(self.part_names().take(self.parts@.len() as int) =~= self.part_names());
        }
        out
    }

    /// Creates a partition. One that is already there cannot be created
    /// again: the storage primitive itself arbitrates racing creates, and
    /// the loser is told so.
    #[verifier::loop_isolation(false)]
    pub fn create_cf(&mut self, name: &str) -> (r: Result<(), TrxError>)
        requires
            old(self).wf(),
        ensures
            final(self).wf(),
            final(self).config() == old(self).config(),
            match r {
                Ok(u) => {
                    &&& !old(self).has_part(name@)
                    &&& forall|n: Seq<char>|
                        final(self).has_part(n) == (old(self).has_part(n) || n == name@)
                    &&& final(self).part_kv(name@) == Map::<Seq<char>, CatValModel>::empty()
                    &&& forall|n: Seq<char>|
                        n != name@ ==> final(self).part_kv(n) == old(self).part_kv(n)
                },
                Err(e) => {
                    &&& old(self).has_part(name@)
                    &&& *final(self) == *old(self)
                    &&& e@ == TrxErrModel::CreateDbError(cf_exists_msg(name@))
                },
            },
    {
        if self.find_part(name).is_some() {
            let msg: String = "cf already exists `".to_owned();
            return Err(TrxError::CreateDbError(msg.concat(name).concat("`")));
        }
        let ghost oldparts = self.parts@;
        let mut pos: usize = 0;
        while pos < self.parts.len() && str_lt(self.parts[pos].name.as_str(), name)
            invariant
                0 <= pos <= self.parts@.len(),
                self.parts@ == oldparts,
                forall|j: int| 0 <= j < pos ==> lex_lt(#[trigger] self.parts@[j].name@, name@),
            decreases self.parts@.len() - pos,
        {
            pos = pos + 1;
        }
        let p = Partition { name: name.to_owned(), rows: Vec::new() };
        proof {
            assert forall|j: int| pos <= j < oldparts.len() implies lex_lt(
                name@,
                #[trigger] oldparts[j].name@,
            ) by {
                assert(oldparts[j].name@ != name@);
                if j == pos {
                    lemma_lex_connex(name@, oldparts[j].name@);
                } else {
                    assert(!lex_lt(oldparts[pos as int].name@, name@));
                    assert(oldparts[pos as int].name@ != name@);
                    lemma_lex_connex(name@, oldparts[pos as int].name@);
                    lemma_lex_trans(name@, oldparts[pos as int].name@, oldparts[j].name@);
                }
            }
        }
        self.parts.insert(pos, p);
        proof {
            let newparts = self.parts@;
            assert(newparts == oldparts.insert(pos as int, p));
            assert forall|n: Seq<char>| #![auto] self.part_kv(n) == if n == name@ {
                Map::<Seq<char>, CatValModel>::empty()
            } else {
                kv_in_parts(oldparts, n)
            } by {
                lemma_kv_parts_insert(oldparts, pos as int, p, n);
                assert(kv_of_rows(p.rows@) =~= Map::<Seq<char>, CatValModel>::empty());
            }
            assert forall|n: Seq<char>|
                self.has_part(n) == (has_part_in(oldparts, n) || n == name@) by {
                if has_part_in(newparts, n) {
                    let i = choose|i: int|
                        0 <= i < newparts.len() && #[trigger] newparts[i].name@ == n;
                    if i < pos {
                        assert(oldparts[i].name@ == n);
                    } else if i > pos {
                        assert(oldparts[i - 1].name@ == n);
                    }
                }
                if has_part_in(oldparts, n) {
                    let i = choose|i: int|
                        0 <= i < oldparts.len() && #[trigger] oldparts[i].name@ == n;
                    if i < pos {
                        assert(newparts[i].name@ == n);
                    } else {
                        assert(newparts[i + 1].name@ == n);
                    }
                }
                if n == name@ {
                    assert(newparts[pos as int].name@ == n);
                }
            }
            assert forall|i: int, j: int| 0 <= i < j < newparts.len() implies lex_lt(
                #[trigger] newparts[i].name@,
                #[trigger] newparts[j].name@,
            ) by {
                if i < pos && j == pos {
                } else if i == pos && j > pos {
                } else if i < pos && j > pos {
                    assert(newparts[i].name@ == oldparts[i].name@);
                    assert(newparts[j].name@ == oldparts[j - 1].name@);
                } else if j < pos {
                } else if i > pos {
                    assert(newparts[i].name@ == oldparts[i - 1].name@);
                    assert(newparts[j].name@ == oldparts[j - 1].name@);
                }
            }
            assert forall|i: int| 0 <= i < newparts.len() implies rows_sorted(
                #[trigger] newparts[i].rows@,
            ) by {
                if i < pos {
                    assert(newparts[i] == oldparts[i]);
                } else if i > pos {
                    assert(newparts[i] == oldparts[i - 1]);
                }
            }
        }
        Ok(())
    }

    /// Reads a key from a partition.
    #[verifier::loop_isolation(false)]
    pub fn get<'a>(&'a self, cf_name: &str, key: &str) -> (r: Option<&'a CatVal>)
        requires
            self.wf(),
            self.has_part(cf_name@),
        ensures
            match r {
                Some(v) => self.part_kv(cf_name@).dom().contains(key@) && v@ == self.part_kv(
                    cf_name@,
                )[key@],
                None => !self.part_kv(cf_name@).dom().contains(key@),
            },
    {
        let idx = self.part_index(cf_name);
        proof {
            lemma_kv_parts_at(self.parts@, idx as int);
        }
        let part = &self.parts[idx];
        let mut j: usize = 0;
        while j < part.rows.len()
            invariant
                0 <= j <= part.rows@.len(),
                part == &self.parts@[idx as int],
                forall|p: int| 0 <= p < j ==> #[trigger] part.rows@[p].key@ != key@,
            decreases part.rows@.len() - j,
        {
            if str_eq(part.rows[j].key.as_str(), key) {
                proof {
                    lemma_kv_at(part.rows@, j as int);
                }
                return Some(&part.rows[j].val);
            }
            j = j + 1;
        }
        proof {
            lemma_kv_dom(part.rows@);
        }
        None
    }

    /// Writes a key into a partition: an atomic insert-or-overwrite.
    #[verifier::loop_isolation(false)]
    pub fn put(&mut self, cf_name: &str, key: &str, value: CatVal) -> (r: Result<(), TrxError>)
        requires
            old(self).wf(),
            old(self).has_part(cf_name@),
        ensures
            final(self).wf(),
            final(self).config() == old(self).config(),
            r is Ok,
            forall|n: Seq<char>| final(self).has_part(n) == old(self).has_part(n),
            final(self).part_kv(cf_name@) == old(self).part_kv(cf_name@).insert(key@, value@),
            forall|n: Seq<char>| n != cf_name@ ==> final(self).part_kv(n) == old(self).part_kv(n),
    {
        let idx = self.part_index(cf_name);
        let ghost oldparts = self.parts@;
        proof {
            lemma_kv_parts_at(oldparts, idx as int);
        }
        let mut part = self.parts.remove(idx);
        let ghost oldrows = part.rows@;
        let mut pos: usize = 0;
        while pos < part.rows.len() && str_lt(part.rows[pos].key.as_str(), key)
            invariant
                0 <= pos <= part.rows@.len(),
                part.rows@ == oldrows,
                forall|j: int| 0 <= j < pos ==> lex_lt(#[trigger] part.rows@[j].key@, key@),
            decreases part.rows@.len() - pos,
        {
            pos = pos + 1;
        }
        let row = Row { key: key.to_owned(), val: value };
        if pos < part.rows.len() && str_eq(part.rows[pos].key.as_str(), key) {
            let ghost r2 = row;
            part.rows.remove(pos);
            part.rows.insert(pos, row);
            proof {
                assert(part.rows@ =~= oldrows.update(pos as int, r2));
                lemma_kv_update(oldrows, pos as int, r2);
                assert forall|i: int, j: int| 0 <= i < j < part.rows@.len() implies lex_lt(
                    #[trigger] part.rows@[i].key@,
                    #[trigger] part.rows@[j].key@,
                ) by {
                    assert(part.rows@[i].key@ == oldrows[i].key@);
                    assert(part.rows@[j].key@ == oldrows[j].key@);
                }
            }
        } else {
            let ghost r2 = row;
            proof {
                assert forall|j: int| pos <= j < oldrows.len() implies lex_lt(
                    key@,
                    #[trigger] oldrows[j].key@,
                ) by {
                    assert(oldrows[j].key@ != key@ || j == pos);
                    if j == pos {
                        assert(!lex_lt(oldrows[pos as int].key@, key@));
                        assert(oldrows[pos as int].key@ != key@);
                        lemma_lex_connex(key@, oldrows[j].key@);
                    } else {
                        assert(!lex_lt(oldrows[pos as int].key@, key@));
                        assert(oldrows[pos as int].key@ != key@);
                        lemma_lex_connex(key@, oldrows[pos as int].key@);
                        lemma_lex_trans(key@, oldrows[pos as int].key@, oldrows[j].key@);
                    }
                }
                assert forall|j: int| 0 <= j < oldrows.len() implies #[trigger] oldrows[j].key@
                    != key@ by {
                    lemma_lex_irrefl(key@);
                    if j < pos {
                    } else {
                    }
                }
            }
            part.rows.insert(pos, row);
            proof {
                assert(part.rows@ =~= oldrows.insert(pos as int, r2));
                lemma_kv_insert(oldrows, pos as int, r2);
                assert forall|i: int, j: int| 0 <= i < j < part.rows@.len() implies lex_lt(
                    #[trigger] part.rows@[i].key@,
                    #[trigger] part.rows@[j].key@,
                ) by {
                    if i < pos && j == pos {
                    } else if i == pos && j > pos {
                    } else if i < pos && j > pos {
                        assert(part.rows@[i].key@ == oldrows[i].key@);
                        assert(part.rows@[j].key@ == oldrows[j - 1].key@);
                    } else if j < pos {
                    } else if i > pos {
                        assert(part.rows@[i].key@ == oldrows[i - 1].key@);
                        assert(part.rows@[j].key@ == oldrows[j - 1].key@);
                    }
                }
            }
        }
        let ghost newpart = part;
        self.parts.insert(idx, part);
        proof {
            assert(self.parts@ =~= oldparts.update(idx as int, newpart));
            assert forall|n: Seq<char>| #![auto] self.part_kv(n) == if n == cf_name@ {
                kv_of_rows(newpart.rows@)
            } else {
                kv_in_parts(oldparts, n)
            } by {
                lemma_kv_parts_update(oldparts, idx as int, newpart, n);
            }
            assert forall|n: Seq<char>| self.has_part(n) == has_part_in(oldparts, n) by {
                let newparts = self.parts@;
                if has_part_in(newparts, n) {
                    let i = choose|i: int|
                        0 <= i < newparts.len() && #[trigger] newparts[i].name@ == n;
                    assert(oldparts[i].name@ == n);
                }
                if has_part_in(oldparts, n) {
                    let i = choose|i: int|
                        0 <= i < oldparts.len() && #[trigger] oldparts[i].name@ == n;
                    assert(self.parts@[i].name@ == n);
                }
            }
            assert forall|i: int, j: int| 0 <= i < j < self.parts@.len() implies lex_lt(
                #[trigger] self.parts@[i].name@,
                #[trigger] self.parts@[j].name@,
            ) by {
                assert(self.parts@[i].name@ == oldparts[i].name@);
                assert(self.parts@[j].name@ == oldparts[j].name@);
            }
            assert forall|i: int| 0 <= i < self.parts@.len() implies rows_sorted(
                #[trigger] self.parts@[i].rows@,
            ) by {
                if i != idx {
                    assert(self.parts@[i] == oldparts[i]);
                }
            }
        }
        Ok(())
    }

    /// Deletes a key from a partition; deleting an absent key is a no-op.
    #[verifier::loop_isolation(false)]
    pub fn delete(&mut self, cf_name: &str, key: &str) -> (r: Result<(), TrxError>)
        requires
            old(self).wf(),
            old(self).has_part(cf_name@),
        ensures
            final(self).wf(),
            final(self).config() == old(self).config(),
            r is Ok,
            forall|n: Seq<char>| final(self).has_part(n) == old(self).has_part(n),
            final(self).part_kv(cf_name@) == old(self).part_kv(cf_name@).remove(key@),
            forall|n: Seq<char>| n != cf_name@ ==> final(self).part_kv(n) == old(self).part_kv(n),
    {
        let idx = self.part_index(cf_name);
        let ghost oldparts = self.parts@;
        proof {
            lemma_kv_parts_at(oldparts, idx as int);
        }
        let mut part = self.parts.remove(idx);
        let ghost oldrows = part.rows@;
        let mut pos: usize = 0;
        while pos < part.rows.len() && !str_eq(part.rows[pos].key.as_str(), key)
            invariant
                0 <= pos <= part.rows@.len(),
                part.rows@ == oldrows,
                forall|j: int| 0 <= j < pos ==> #[trigger] part.rows@[j].key@ != key@,
            decreases part.rows@.len() - pos,
        {
            pos = pos + 1;
        }
        if pos < part.rows.len() {
            part.rows.remove(pos);
            proof {
                assert(part.rows@ =~= oldrows.remove(pos as int));
                lemma_kv_remove(oldrows, pos as int);
                assert forall|i: int, j: int| 0 <= i < j < part.rows@.len() implies lex_lt(
                    #[trigger] part.rows@[i].key@,
                    #[trigger] part.rows@[j].key@,
                ) by {
                    if j < pos {
                    } else if i >= pos {
                        assert(part.rows@[i].key@ == oldrows[i + 1].key@);
                        assert(part.rows@[j].key@ == oldrows[j + 1].key@);
                    } else {
                        assert(part.rows@[i].key@ == oldrows[i].key@);
                        assert(part.rows@[j].key@ == oldrows[j + 1].key@);
                    }
                }
            }
        } else {
            proof {
                lemma_kv_dom(oldrows);
                assert(!kv_of_rows(oldrows).dom().contains(key@));
                assert(kv_of_rows(oldrows).remove(key@) =~= kv_of_rows(oldrows));
            }
        }
        let ghost newpart = part;
        self.parts.insert(idx, part);
        proof {
            assert(self.parts@ =~= oldparts.update(idx as int, newpart));
            assert forall|n: Seq<char>| #![auto] self.part_kv(n) == if n == cf_name@ {
                kv_of_rows(newpart.rows@)
            } else {
                kv_in_parts(oldparts, n)
            } by {
                lemma_kv_parts_update(oldparts, idx as int, newpart, n);
            }
            assert forall|n: Seq<char>| self.has_part(n) == has_part_in(oldparts, n) by {
                let newparts = self.parts@;
                if has_part_in(newparts, n) {
                    let i = choose|i: int|
                        0 <= i < newparts.len() && #[trigger] newparts[i].name@ == n;
                    assert(oldparts[i].name@ == n);
                }
                if has_part_in(oldparts, n) {
                    let i = choose|i: int|
                        0 <= i < oldparts.len() && #[trigger] oldparts[i].name@ == n;
                    assert(self.parts@[i].name@ == n);
                }
            }
            assert forall|i: int, j: int| 0 <= i < j < self.parts@.len() implies lex_lt(
                #[trigger] self.parts@[i].name@,
                #[trigger] self.parts@[j].name@,
            ) by {
                assert(self.parts@[i].name@ == oldparts[i].name@);
                assert(self.parts@[j].name@ == oldparts[j].name@);
            }
            assert forall|i: int| 0 <= i < self.parts@.len() implies rows_sorted(
                #[trigger] self.parts@[i].rows@,
            ) by {
                if i != idx {
                    assert(self.parts@[i] == oldparts[i]);
                }
            }
        }
        Ok(())
    }

    /// Drops a partition whole. Dropping one that is not there is the
    /// storage primitive's unrecognized-partition failure.
    #[verifier::loop_isolation(false)]
    pub fn truncate(&mut self, cf_name: &str) -> (r: Result<(), TrxError>)
        requires
            old(self).wf(),
        ensures
            final(self).wf(),
            final(self).config() == old(self).config(),
            match r {
                Ok(u) => {
                    &&& old(self).has_part(cf_name@)
                    &&& forall|n: Seq<char>|
                        final(self).has_part(n) == (old(self).has_part(n) && n != cf_name@)
                    &&& final(self).part_kv(cf_name@) == Map::<Seq<char>, CatValModel>::empty()
                    &&& forall|n: Seq<char>|
                        n != cf_name@ ==> final(self).part_kv(n) == old(self).part_kv(n)
                },
                Err(e) => {
                    &&& !old(self).has_part(cf_name@)
                    &&& *final(self) == *old(self)
                    &&& e@ == TrxErrModel::UnknownError
                },
            },
    {
        let found = self.find_part(cf_name);
        if found.is_none() {
            return Err(TrxError::UnknownError);
        }
        let idx = found.unwrap();
        let ghost oldparts = self.parts@;
        self.parts.remove(idx);
        proof {
            assert(self.parts@ =~= oldparts.remove(idx as int));
            assert forall|n: Seq<char>| #![auto] self.part_kv(n) == if n == cf_name@ {
                Map::<Seq<char>, CatValModel>::empty()
            } else {
                kv_in_parts(oldparts, n)
            } by {
                lemma_kv_parts_remove(oldparts, idx as int, n);
            }
            assert forall|n: Seq<char>|
                self.has_part(n) == (has_part_in(oldparts, n) && n != cf_name@) by {
                let newparts = self.parts@;
                if has_part_in(newparts, n) {
                    let i = choose|i: int|
                        0 <= i < newparts.len() && #[trigger] newparts[i].name@ == n;
                    if i < idx {
                        assert(oldparts[i].name@ == n);
                        if n == cf_name@ {
                            lemma_lex_irrefl(n);
                            assert(lex_lt(oldparts[i].name@, oldparts[idx as int].name@));
                        }
                    } else {
                        assert(oldparts[i + 1].name@ == n);
                        if n == cf_name@ {
                            lemma_lex_irrefl(n);
                            assert(lex_lt(oldparts[idx as int].name@, oldparts[i + 1].name@));
                        }
                    }
                }
                if has_part_in(oldparts, n) && n != cf_name@ {
                    let i = choose|i: int|
                        0 <= i < oldparts.len() && #[trigger] oldparts[i].name@ == n;
                    if i < idx {
                        assert(self.parts@[i].name@ == n);
                    } else {
                        assert(i != idx);
                        assert(self.parts@[i - 1].name@ == n);
                    }
                }
            }
            assert forall|i: int, j: int| 0 <= i < j < self.parts@.len() implies lex_lt(
                #[trigger] self.parts@[i].name@,
                #[trigger] self.parts@[j].name@,
            ) by {
                if j < idx {
                } else if i >= idx {
                    assert(self.parts@[i].name@ == oldparts[i + 1].name@);
                    assert(self.parts@[j].name@ == oldparts[j + 1].name@);
                } else {
                    assert(self.parts@[i].name@ == oldparts[i].name@);
                    assert(self.parts@[j].name@ == oldparts[j + 1].name@);
                }
            }
            assert forall|i: int| 0 <= i < self.parts@.len() implies rows_sorted(
                #[trigger] self.parts@[i].rows@,
            ) by {
                if i < idx {
                    assert(self.parts@[i] == oldparts[i]);
                } else {
                    assert(self.parts@[i] == oldparts[i + 1]);
                }
            }
        }
        Ok(())
    }

    /// Walks a partition in key order and hands out every row whose key
    /// starts with the prefix.
    #[verifier::loop_isolation(false)]
    #[verifier::rlimit(30)]
    pub fn through(&self, cf_name: &str, prefix: &str) -> (r: Vec<(String, CatVal)>)
        requires
            self.wf(),
            self.has_part(cf_name@),
        ensures
            forall|a: int, b: int|
                0 <= a < b < r@.len() ==> lex_lt(#[trigger] r@[a].0@, #[trigger] r@[b].0@),
            forall|a: int|
                0 <= a < r@.len() ==> {
                    &&& is_prefix(prefix@, #[trigger] r@[a].0@)
                    &&& self.part_kv(cf_name@).dom().contains(r@[a].0@)
                    &&& r@[a].1@ == self.part_kv(cf_name@)[r@[a].0@]
                },
            forall|k: Seq<char>|
                self.part_kv(cf_name@).dom().contains(k) && is_prefix(prefix@, k) ==> exists|a: int|
                    0 <= a < r@.len() && #[trigger] r@[a].0@ == k,
    {
        let idx = self.part_index(cf_name);
        proof {
            lemma_kv_parts_at(self.parts@, idx as int);
            lemma_kv_dom(self.parts@[idx as int].rows@);
        }
        let part = &self.parts[idx];
        let ghost rows = part.rows@;
        let mut out: Vec<(String, CatVal)> = Vec::new();
        let ghost mut idxs: Seq<int> = Seq::empty();
        let mut j: usize = 0;
        while j < part.rows.len()
            invariant
                0 <= j <= rows.len(),
                part == &self.parts@[idx as int],
                rows == part.rows@,
                idxs.len() == out@.len(),
                forall|a: int| 0 <= a < idxs.len() ==> 0 <= #[trigger] idxs[a] < j,
                forall|a: int|
                    0 <= a < idxs.len() ==> {
                        &&& #[trigger] out@[a].0@ == rows[idxs[a]].key@
                        &&& out@[a].1@ == rows[idxs[a]].val@
                        &&& is_prefix(prefix@, out@[a].0@)
                    },
                forall|a: int, b: int| 0 <= a < b < idxs.len() ==> idxs[a] < idxs[b],
                forall|p: int|
                    0 <= p < j && is_prefix(prefix@, #[trigger] rows[p].key@) ==> exists|a: int|
                        0 <= a < idxs.len() && #[trigger] idxs[a] == p,
            decreases rows.len() - j,
        {
            if str_has_prefix(part.rows[j].key.as_str(), prefix) {
                let ghost before = out@;
                out.push((part.rows[j].key.clone(), part.rows[j].val.duplicate()));
                proof {
                    let oldidxs = idxs;
                    idxs = idxs.push(j as int);
                    assert(out@[out@.len() - 1].0@ == rows[j as int].key@);
                    assert(idxs[idxs.len() - 1] == j as int);
                    assert forall|p: int|
                        0 <= p < j + 1 && is_prefix(prefix@, #[trigger] rows[p].key@) implies exists|
                        a: int,
                    | 0 <= a < idxs.len() && #[trigger] idxs[a] == p by {
                        if p == j {
                            assert(idxs[idxs.len() - 1] == p);
                        } else {
                            let a = choose|a: int|
                                0 <= a < oldidxs.len() && #[trigger] oldidxs[a] == p;
                            assert(idxs[a] == p);
                        }
                    }
                    assert forall|a: int| 0 <= a < idxs.len() implies 0 <= #[trigger] idxs[a] < j
                        + 1 by {
                        if a < idxs.len() - 1 {
                            assert(idxs[a] == oldidxs[a]);
                        }
                    }
                }
            }
            j = j + 1;
        }
        proof {
            assert forall|a: int, b: int| 0 <= a < b < out@.len() implies lex_lt(
                #[trigger] out@[a].0@,
                #[trigger] out@[b].0@,
            ) by {
                assert(lex_lt(rows[idxs[a]].key@, rows[idxs[b]].key@));
            }
            assert forall|a: int| 0 <= a < out@.len() implies {
                &&& is_prefix(prefix@, #[trigger] out@[a].0@)
                &&& self.part_kv(cf_name@).dom().contains(out@[a].0@)
                &&& out@[a].1@ == self.part_kv(cf_name@)[out@[a].0@]
            } by {
                lemma_kv_at(rows, idxs[a]);
            }
            assert forall|k: Seq<char>|
                self.part_kv(cf_name@).dom().contains(k) && is_prefix(prefix@, k) implies exists|
                a: int,
            | 0 <= a < out@.len() && #[trigger] out@[a].0@ == k by {
                let p = choose|p: int| 0 <= p < rows.len() && #[trigger] rows[p].key@ == k;
                assert(is_prefix(prefix@, rows[p].key@));
                let a = choose|a: int| 0 <= a < idxs.len() && #[trigger] idxs[a] == p;
                assert(out@[a].0@ == k);
            }
        }
        out
    }
}

} // verus!
