//! The catalog: maps logical database and collection identity to storage
//! partitions, and keeps the reserved `sys` partition's records and the
//! partitions in agreement.
use vstd::prelude::*;

use crate::error::{TrxError, TrxErrModel};
use crate::func::{lemma_valid_name_no_colon, lemma_valid_name_no_hash, valid_name};
use crate::headers::{DbRes, Exec, JqlCommand, SchemaModel};
use crate::trx::{CatVal, CatValModel, Trx};
use crate::util::{
    has_hash, is_prefix, key_merger, ksm_db, lemma_key_codec_round_trip, lex_lt, spec_merged,
    spec_split, str_has_prefix,
};
use crate::var::{lemma_var_names, DB_PREFIX, DB_SYS};

verus! {

/// The catalog key recording a database's existence.
pub open spec fn db_key(db: Seq<char>) -> Seq<char> {
    DB_PREFIX@ + seq!['#'] + db
}

/// The catalog key of a collection, which also names its partition.
pub open spec fn col_key(db: Seq<char>, col: Seq<char>) -> Seq<char> {
    db + seq!['#'] + col
}

/// The prefix a scan for database markers uses.
pub open spec fn db_scan_prefix() -> Seq<char> {
    DB_PREFIX@ + seq!['#']
}

/// The names of the reserved partitions, which never hold user collections.
pub open spec fn reserved_part(n: Seq<char>) -> bool {
    n == "sys"@ || n == "credentials"@
}

/// The facts the shape lemmas rest on: the marker prefix is ten characters,
/// none of them a hash, with a colon at position eight.
proof fn lemma_db_prefix_chars()
    ensures
        DB_PREFIX@.len() == 10,
        forall|i: int| 0 <= i < 10 ==> DB_PREFIX@[i] != '#',
        DB_PREFIX@[8] == ':',
        !has_hash("sys"@),
        !has_hash("credentials"@),
        "sys"@.len() == 3,
        "credentials"@.len() == 11,
        forall|i: int| 0 <= i < 3 ==> "sys"@[i] != '#',
        forall|i: int| 0 <= i < 11 ==> "credentials"@[i] != '#',
{
    reveal_strlit("database::");
    reveal_strlit("sys");
    reveal_strlit("credentials");
    assert(DB_PREFIX@ =~= "database::"@);
    assert forall|i: int| 0 <= i < 10 implies DB_PREFIX@[i] != '#' by {
        if i == 0 {
        } else if i == 1 {
        } else if i == 2 {
        } else if i == 3 {
        } else if i == 4 {
        } else if i == 5 {
        } else if i == 6 {
        } else if i == 7 {
        } else if i == 8 {
        } else {
            assert(i == 9);
        }
    }
    assert forall|i: int| 0 <= i < 3 implies "sys"@[i] != '#' by {
        if i == 0 {
        } else if i == 1 {
        } else {
            assert(i == 2);
        }
    }
    assert forall|i: int| 0 <= i < 11 implies "credentials"@[i] != '#' by {
        if i == 0 {
        } else if i == 1 {
        } else if i == 2 {
        } else if i == 3 {
        } else if i == 4 {
        } else if i == 5 {
        } else if i == 6 {
        } else if i == 7 {
        } else if i == 8 {
        } else if i == 9 {
        } else {
            assert(i == 10);
        }
    }
    assert(!has_hash("sys"@));
    assert(!has_hash("credentials"@));
}

/// A marker key splits back into the prefix and the database name, and
/// carries the scan prefix.
pub proof fn lemma_db_key_shape(d: Seq<char>)
    requires
        valid_name(d),
    ensures
        spec_split(db_key(d)) == seq![DB_PREFIX@, d],
        is_prefix(db_scan_prefix(), db_key(d)),
        has_hash(db_key(d)),
        db_key(d) == spec_merged(seq![DB_PREFIX@, d]),
{
    lemma_db_prefix_chars();
    lemma_valid_name_no_hash(d);
    assert(!has_hash(DB_PREFIX@));
    lemma_key_codec_round_trip(DB_PREFIX@, d);
    assert(spec_merged(seq![DB_PREFIX@, d]) == DB_PREFIX@ + seq!['#'] + spec_merged(seq![d])) by {
        assert(seq![DB_PREFIX@, d].skip(1) =~= seq![d]);
    }
    assert(spec_merged(seq![d]) == d);
    assert(db_key(d)[10] == '#');
    assert(db_key(d).subrange(0, 11) =~= db_scan_prefix());
}

/// A collection key splits back into the database and collection names.
pub proof fn lemma_col_key_shape(d: Seq<char>, c: Seq<char>)
    requires
        valid_name(d),
        valid_name(c),
    ensures
        spec_split(col_key(d, c)) == seq![d, c],
        has_hash(col_key(d, c)),
        col_key(d, c) == spec_merged(seq![d, c]),
        !reserved_part(col_key(d, c)),
        !is_prefix(db_scan_prefix(), col_key(d, c)),
{
    lemma_db_prefix_chars();
    lemma_valid_name_no_hash(d);
    lemma_valid_name_no_hash(c);
    lemma_valid_name_no_colon(d);
    lemma_valid_name_no_colon(c);
    lemma_key_codec_round_trip(d, c);
    assert(spec_merged(seq![d, c]) == d + seq!['#'] + spec_merged(seq![c])) by {
        assert(seq![d, c].skip(1) =~= seq![c]);
    }
    assert(spec_merged(seq![c]) == c);
    let k = col_key(d, c);
    assert(k[d.len() as int] == '#');
    assert(has_hash(k));
    if k == "sys"@ {
        assert(forall|i: int| 0 <= i < 3 ==> "sys"@[i] != '#');
        assert(k.len() == 3 && 0 <= d.len() < 3);
        assert(k[d.len() as int] != '#');
    }
    if k == "credentials"@ {
        assert(forall|i: int| 0 <= i < 11 ==> "credentials"@[i] != '#');
        assert(0 <= d.len() < 11);
        assert(k[d.len() as int] != '#');
    }
    if is_prefix(db_scan_prefix(), k) {
        assert(k[8] == db_scan_prefix()[8]);
        assert(db_scan_prefix()[8] == ':');
        if d.len() > 8 {
            assert(k[8] == d[8]);
        } else if d.len() == 8 {
            assert(k[8] == '#');
        } else {
            assert(k[8] == c[8 - d.len() - 1]);
        }
    }
}

/// A marker key is never a collection key, and never carries a collection
/// scan prefix.
pub proof fn lemma_marker_col_distinct(d: Seq<char>, d2: Seq<char>, c2: Seq<char>, db: Seq<char>)
    requires
        valid_name(d),
        valid_name(d2),
        valid_name(c2),
        valid_name(db),
    ensures
        db_key(d) != col_key(d2, c2),
        !is_prefix(db + seq!['#'], db_key(d)),
{
    lemma_db_prefix_chars();
    lemma_valid_name_no_colon(d2);
    lemma_valid_name_no_colon(c2);
    lemma_valid_name_no_colon(db);
    lemma_valid_name_no_hash(db);
    if db_key(d) == col_key(d2, c2) {
        let k = col_key(d2, c2);
        assert(k[8] == db_key(d)[8]);
        assert(db_key(d)[8] == ':');
        assert(k.len() == d2.len() + 1 + c2.len() >= 9);
        if d2.len() > 8 {
            assert(k[8] == d2[8]);
        } else if d2.len() == 8 {
            assert(k[8] == '#');
        } else {
            assert(k[8] == c2[8 - d2.len() - 1]);
        }
    }
    if is_prefix(db + seq!['#'], db_key(d)) {
        let p = db + seq!['#'];
        assert(p[db.len() as int] == '#');
        assert(db_key(d)[db.len() as int] == p[db.len() as int]);
        if db.len() < 10 {
            assert(db_key(d)[db.len() as int] == DB_PREFIX@[db.len() as int]);
        } else if db.len() == 10 {
            assert(db_key(d).subrange(0, p.len() as int)[8] == db_key(d)[8]);
            assert(db[8] == p[8]);
            assert(db[8] == db_key(d)[8]);
            assert(db_key(d)[8] == ':');
        } else {
            assert(db_key(d)[10] == '#');
            assert(db[10] == db_key(d)[10]) by {
                assert(p[10] == db[10]);
            }
            assert(crate::func::spec_name_char(db[10]));
        }
    }
}

/// A collection key carries a database's scan prefix exactly when it is a
/// collection of that database.
pub proof fn lemma_col_prefix_iff(db: Seq<char>, d: Seq<char>, c: Seq<char>)
    requires
        valid_name(db),
        valid_name(d),
        valid_name(c),
    ensures
        is_prefix(db + seq!['#'], col_key(d, c)) == (d == db),
{
    lemma_valid_name_no_hash(db);
    lemma_valid_name_no_hash(d);
    lemma_valid_name_no_hash(c);
    let p = db + seq!['#'];
    let k = col_key(d, c);
    if d == db {
        assert(k.subrange(0, p.len() as int) =~= p);
    }
    if is_prefix(p, k) && d != db {
        if db.len() == d.len() {
            assert(d =~= db) by {
                assert forall|i: int| 0 <= i < d.len() implies d[i] == db[i] by {
                    assert(p[i] == k[i]);
                }
            }
        } else if db.len() < d.len() {
            assert(k[db.len() as int] == p[db.len() as int]);
            assert(p[db.len() as int] == '#');
            assert(k[db.len() as int] == d[db.len() as int]);
        } else {
            assert(d.len() < db.len() <= k.len());
            assert(k[d.len() as int] == '#');
            if db.len() == d.len() + 1 {
                assert(p[db.len() as int - 1] == db[db.len() - 1]);
            } else {
                assert(p[d.len() as int] == db[d.len() as int]);
                assert(k[d.len() as int] == p[d.len() as int]);
            }
        }
    }
}

/// The reserved partitions never carry a collection scan prefix.
pub proof fn lemma_reserved_unprefixed(db: Seq<char>)
    requires
        valid_name(db),
    ensures
        !is_prefix(db + seq!['#'], "sys"@),
        !is_prefix(db + seq!['#'], "credentials"@),
{
    lemma_db_prefix_chars();
    let p = db + seq!['#'];
    if is_prefix(p, "sys"@) {
        assert("sys"@[db.len() as int] == p[db.len() as int]);
        assert(p[db.len() as int] == '#');
    }
    if is_prefix(p, "credentials"@) {
        assert("credentials"@[db.len() as int] == p[db.len() as int]);
        assert(p[db.len() as int] == '#');
    }
}

/// One acceptable catalog record: a database marker under a marker key, or a
/// collection schema under a collection key whose partition exists.
pub open spec fn sys_entry_ok(t: Trx, k: Seq<char>) -> bool {
    ||| ((exists|d: Seq<char>| valid_name(d) && k == db_key(d)) && t.part_kv("sys"@)[k]
        is Marker)
    ||| ((exists|d: Seq<char>, c: Seq<char>|
        valid_name(d) && valid_name(c) && k == col_key(d, c)) && t.part_kv("sys"@)[k] is Schema
        && t.has_part(k))
}

/// What recording a database does, as a relation between the states before
/// and after the call and its result: refused with an already-exists error
/// and unmoved where the marker is already there, otherwise the marker is
/// written and nothing else moves.
pub open spec fn new_db_rel(pre: Exec, post: Exec, db: Seq<char>, r: DbRes) -> bool {
    let k = db_key(db);
    if pre.sys_kv().dom().contains(k) {
        &&& r.data is None
        &&& r.error matches Some(e) && e@ == TrxErrModel::CreateDbError(
            "db already exists `"@ + db + "`"@,
        )
        &&& post == pre
    } else {
        &&& r.data is None
        &&& r.error is None
        &&& post.sys_kv() == pre.sys_kv().insert(k, CatValModel::Marker)
        &&& forall|n: Seq<char>| #[trigger] post.trx.has_part(n) == pre.trx.has_part(n)
        &&& forall|n: Seq<char>|
            n != "sys"@ ==> #[trigger] post.trx.part_kv(n) == pre.trx.part_kv(n)
    }
}

/// What creating a collection does, as a relation between the states before
/// and after the call and its result: refused with an already-exists error
/// and unmoved where the record is already there, otherwise the partition is
/// created and the schema recorded together.
pub open spec fn new_col_rel(pre: Exec, post: Exec, db: Seq<char>, b: SchemaModel, r: DbRes) -> bool {
    let k = col_key(db, b.name);
    if pre.sys_kv().dom().contains(k) {
        &&& r.data is None
        &&& r.error matches Some(e) && e@ == TrxErrModel::CreateCollectionError(
            "collection already exists `"@ + b.name + "`"@,
        )
        &&& post == pre
    } else {
        &&& r.data is None
        &&& r.error is None
        &&& post.sys_kv() == pre.sys_kv().insert(k, CatValModel::Schema(b))
        &&& forall|n: Seq<char>| #[trigger] post.trx.has_part(n) == (pre.trx.has_part(n) || n == k)
        &&& post.trx.part_kv(k) == Map::<Seq<char>, CatValModel>::empty()
        &&& forall|n: Seq<char>|
            n != "sys"@ && n != k ==> #[trigger] post.trx.part_kv(n) == pre.trx.part_kv(n)
    }
}

impl Exec {
    /// The catalog records.
    pub open spec fn sys_kv(&self) -> Map<Seq<char>, CatValModel> {
        self.trx.part_kv("sys"@)
    }

    /// The catalog's consistency: the storage is well-formed; the reserved
    /// partitions exist; every catalog record is acceptable; and every
    /// partition beyond the reserved ones is a collection whose record
    /// exists — a collection's record and its partition agree on existence.
    pub open spec fn inv(&self) -> bool {
        &&& self.trx.wf()
        &&& self.trx.has_part("sys"@)
        &&& self.trx.has_part("credentials"@)
        &&& forall|k: Seq<char>| #[trigger]
            self.sys_kv().dom().contains(k) ==> sys_entry_ok(self.trx, k)
        &&& forall|n: Seq<char>| #[trigger]
            self.trx.has_part(n) && !reserved_part(n) ==> self.sys_kv().dom().contains(n)
                && (exists|d: Seq<char>, c: Seq<char>|
                valid_name(d) && valid_name(c) && n == col_key(d, c))
    }

    /// Authentication is stubbed: every caller is denied.
    pub fn authenticate(&self, username: &str, password: &str) -> (r: bool)
        ensures
            r == false,
    {
        false
    }
}

/// An acceptable catalog record stays acceptable in a store that keeps its
/// value and loses no partition.
proof fn lemma_entry_preserved(t1: Trx, t2: Trx, k: Seq<char>)
    requires
        sys_entry_ok(t1, k),
        t2.part_kv("sys"@)[k] == t1.part_kv("sys"@)[k],
        forall|n: Seq<char>| t1.has_part(n) ==> #[trigger] t2.has_part(n),
    ensures
        sys_entry_ok(t2, k),
{
}

impl Exec {
    /// The collection key of a command's database and collection names.
    fn db_col_merged(cmd: &JqlCommand) -> (r: Option<String>)
        requires
            cmd@.database is Some,
            cmd@.collection is Some,
        ensures
            r matches Some(k) && k@ == col_key(cmd@.database->0, cmd@.collection->0),
    {
        let wrp_db = cmd._database.as_ref().unwrap();
        let wrp_col = cmd._collection.as_ref().unwrap();
        let mut parts: Vec<String> = Vec::new();
        parts.push(wrp_db.clone());
        parts.push(wrp_col.clone());
        proof {
            assert(parts.deep_view() =~= seq![cmd@.database->0, cmd@.collection->0]);
            crate::util::lemma_merged_pair(cmd@.database->0, cmd@.collection->0);
        }
        key_merger(parts)
    }

    /// Records a new database: its marker is written unless one is already
    /// there, in which case the caller is told it exists and nothing moves.
    pub fn new_db(&mut self, cmd: &JqlCommand) -> (r: DbRes)
        requires
            old(self).inv(),
            cmd@.database matches Some(d) && valid_name(d),
        ensures
            final(self).inv(),
            new_db_rel(*old(self), *final(self), cmd@.database->0, r),
    {
        proof {
            lemma_var_names();
        }
        let wrp_db = cmd._database.as_ref().unwrap();
        let db = wrp_db.as_str();
        let mut key_parts: Vec<String> = Vec::new();
        key_parts.push(DB_PREFIX.to_owned());
        key_parts.push(db.to_owned());
        proof {
            assert(key_parts.deep_view() =~= seq![DB_PREFIX@, db@]);
            crate::util::lemma_merged_pair(DB_PREFIX@, db@);
        }
        let wrp_key = key_merger(key_parts);
        if wrp_key.is_some() {
            let key = wrp_key.unwrap();
            let ghost k = db_key(db@);
            let exi = self.trx.get(DB_SYS, key.as_str());
            return if exi.is_some() {
                let msg: String = "db already exists `".to_owned();
                DbRes {
                    data: None,
                    error: Some(TrxError::CreateDbError(msg.concat(db).concat("`"))),
                }
            } else {
                let created = self.trx.put(DB_SYS, key.as_str(), CatVal::Marker);
                if created.is_ok() {
                    proof {
                        let t1 = old(self).trx;
                        let t2 = self.trx;
                        assert forall|k2: Seq<char>| #[trigger]
                            t2.part_kv("sys"@).dom().contains(k2) implies sys_entry_ok(
                            t2,
                            k2,
                        ) by {
                            if k2 == k {
                                assert(valid_name(db@) && k2 == db_key(db@));
                                assert(t2.part_kv("sys"@)[k2] is Marker);
                            } else {
                                assert(t1.part_kv("sys"@).dom().contains(k2));
                                assert(old(self).sys_kv().dom().contains(k2));
                                assert(sys_entry_ok(t1, k2));
                                lemma_entry_preserved(t1, t2, k2);
                            }
                        }
                    }
                    DbRes { data: None, error: None }
                } else {
                    let e = created.unwrap_err();
                    DbRes { data: None, error: Some(TrxError::CreateDbError(e.message())) }
                }
            };
        }
        DbRes {
            data: None,
            error: Some(TrxError::CreateCollectionError("check database name".to_owned())),
        }
    }

    /// Creates a collection: unless its record is already there, its
    /// partition is created and its schema recorded, together. The storage
    /// primitive arbitrates racing creates; here the record check and the
    /// creation are one atomic step.
    pub fn new_col(&mut self, cmd: &JqlCommand) -> (r: DbRes)
        requires
            old(self).inv(),
            cmd@.database matches Some(d) && valid_name(d),
            cmd@.body matches Some(b) && valid_name(b.name),
        ensures
            final(self).inv(),
            new_col_rel(*old(self), *final(self), cmd@.database->0, cmd@.body->0, r),
    {
        proof {
            lemma_var_names();
        }
        let wrp_db = cmd._database.as_ref().unwrap();
        let wrp_col = cmd._body.as_ref().unwrap();
        let db = wrp_db.as_str();
        let col = wrp_col._name.as_str();
        let mut key_parts: Vec<String> = Vec::new();
        key_parts.push(db.to_owned());
        key_parts.push(col.to_owned());
        proof {
            assert(key_parts.deep_view() =~= seq![db@, col@]);
            crate::util::lemma_merged_pair(db@, col@);
            lemma_col_key_shape(db@, col@);
        }
        let wrp_key = key_merger(key_parts);
        if wrp_key.is_some() {
            let key = wrp_key.unwrap();
            let ghost k = col_key(db@, col@);
            let exi = self.trx.get(DB_SYS, key.as_str());
            return if exi.is_some() {
                let msg: String = "collection already exists `".to_owned();
                DbRes {
                    data: None,
                    error: Some(TrxError::CreateCollectionError(msg.concat(col).concat("`"))),
                }
            } else {
                let cf_created = self.trx.create_cf(key.as_str());
                if cf_created.is_err() {
                    proof {
                        assert(old(self).trx.has_part(k));
                        assert(!reserved_part(k));
                        assert(old(self).sys_kv().dom().contains(k));
                        assert(false);
                    }
                    let e = cf_created.unwrap_err();
                    return DbRes {
                        data: None,
                        error: Some(TrxError::CreateCollectionError(e.message())),
                    };
                }
                let created = self.trx.put(DB_SYS, key.as_str(), CatVal::Schema(
                    wrp_col.duplicate(),
                ));
                if created.is_ok() {
                    proof {
                        let t1 = old(self).trx;
                        let t2 = self.trx;
                        assert forall|k2: Seq<char>| #[trigger]
                            t2.part_kv("sys"@).dom().contains(k2) implies sys_entry_ok(
                            t2,
                            k2,
                        ) by {
                            if k2 == k {
                                assert(valid_name(db@) && valid_name(col@) && k2 == col_key(
                                    db@,
                                    col@,
                                ));
                                assert(t2.part_kv("sys"@)[k2] is Schema);
                                assert(t2.has_part(k2));
                            } else {
                                assert(t1.part_kv("sys"@).dom().contains(k2));
                                assert(old(self).sys_kv().dom().contains(k2));
                                assert(sys_entry_ok(t1, k2));
                                lemma_entry_preserved(t1, t2, k2);
                            }
                        }
                        assert forall|n: Seq<char>| #[trigger]
                            t2.has_part(n) && !reserved_part(n) implies self.sys_kv(
                        ).dom().contains(n) && (exists|d: Seq<char>, c: Seq<char>|
                            valid_name(d) && valid_name(c) && n == col_key(d, c)) by {
                            if n != k {
                                assert(t1.has_part(n));
                            }
                        }
                    }
                    DbRes { data: None, error: None }
                } else {
                    let e = created.unwrap_err();
                    DbRes { data: None, error: Some(TrxError::CreateCollectionError(e.message())) }
                }
            };
        }
        DbRes {
            data: None,
            error: Some(
                TrxError::CreateCollectionError("check database & collection name".to_owned()),
            ),
        }
    }

    /// Empties a collection's partition, leaving its catalog record alone.
    /// Truncating a collection that is not there succeeds as a no-op:
    /// truncation is idempotent by design.
    pub fn trun_col(&mut self, cmd: &JqlCommand) -> (r: DbRes)
        requires
            old(self).inv(),
            cmd@.database is Some,
            cmd@.collection is Some,
        ensures
            final(self).inv(),
            ({
                let k = col_key(cmd@.database->0, cmd@.collection->0);
                if !old(self).trx.has_part(k) {
                    &&& r.data is None
                    &&& r.error is None
                    &&& *final(self) == *old(self)
                } else {
                    &&& r.data is None
                    &&& r.error is None
                    &&& final(self).sys_kv() == old(self).sys_kv()
                    &&& forall|n: Seq<char>| #[trigger]
                        final(self).trx.has_part(n) == old(self).trx.has_part(n)
                    &&& final(self).trx.part_kv(k) == Map::<Seq<char>, CatValModel>::empty()
                    &&& forall|n: Seq<char>|
                        n != k ==> #[trigger] final(self).trx.part_kv(n) == old(self).trx.part_kv(n)
                }
            }),
    {
        proof {
            lemma_var_names();
            lemma_db_prefix_chars();
        }
        let wrp_key = Self::db_col_merged(cmd);
        if wrp_key.is_some() {
            let key = wrp_key.unwrap();
            let ghost k = col_key(cmd@.database->0, cmd@.collection->0);
            proof {
                assert(k[cmd@.database->0.len() as int] == '#');
                assert(has_hash(k));
                assert(k != "sys"@ && k != "credentials"@);
            }
            if !self.trx.has_partition(key.as_str()) {
                return DbRes { data: None, error: None };
            }
            let ghost t1 = old(self).trx;
            let dropped = self.trx.truncate(key.as_str());
            if dropped.is_err() {
                proof {
                    assert(false);
                }
                let e = dropped.unwrap_err();
                return DbRes {
                    data: None,
                    error: Some(TrxError::TruncateCollectionError(e.message())),
                };
            }
            let recreated = self.trx.create_cf(key.as_str());
            if recreated.is_err() {
                proof {
                    assert(false);
                }
                let e = recreated.unwrap_err();
                return DbRes {
                    data: None,
                    error: Some(TrxError::TruncateCollectionError(e.message())),
                };
            }
            proof {
                let t2 = self.trx;
                assert(t2.part_kv("sys"@) == t1.part_kv("sys"@));
                assert forall|n: Seq<char>| #[trigger] t2.has_part(n) == t1.has_part(n) by {}
                assert forall|k2: Seq<char>| #[trigger]
                    t2.part_kv("sys"@).dom().contains(k2) implies sys_entry_ok(t2, k2) by {
                    assert(old(self).sys_kv().dom().contains(k2));
                    assert(sys_entry_ok(t1, k2));
                    lemma_entry_preserved(t1, t2, k2);
                }
                assert forall|n: Seq<char>| #[trigger]
                    t2.has_part(n) && !reserved_part(n) implies self.sys_kv().dom().contains(n) && (
                exists|d: Seq<char>, c: Seq<char>|
                    valid_name(d) && valid_name(c) && n == col_key(d, c)) by {
                    assert(t1.has_part(n));
                }
            }
            return DbRes { data: None, error: None };
        }
        DbRes {
            data: None,
            error: Some(
                TrxError::TruncateCollectionError("check database & collection name".to_owned()),
            ),
        }
    }

    /// Drops a collection: its record and its partition go together, and a
    /// record that was never created is reported as not existing.
    pub fn drop_col(&mut self, cmd: &JqlCommand) -> (r: DbRes)
        requires
            old(self).inv(),
            cmd@.database matches Some(d) && valid_name(d),
            cmd@.collection matches Some(c) && valid_name(c),
        ensures
            final(self).inv(),
            ({
                let k = col_key(cmd@.database->0, cmd@.collection->0);
                if !old(self).sys_kv().dom().contains(k) {
                    &&& r.data is None
                    &&& r.error matches Some(e) && e@ == TrxErrModel::DropCollectionError(
                        "collection does not exist"@,
                    )
                    &&& *final(self) == *old(self)
                } else {
                    &&& r.data is None
                    &&& r.error is None
                    &&& final(self).sys_kv() == old(self).sys_kv().remove(k)
                    &&& forall|n: Seq<char>| #[trigger]
                        final(self).trx.has_part(n) == (old(self).trx.has_part(n) && n != k)
                    &&& forall|n: Seq<char>|
                        n != "sys"@ && n != k ==> #[trigger] final(self).trx.part_kv(n) == old(
                            self,
                        ).trx.part_kv(n)
                }
            }),
    {
        proof {
            lemma_var_names();
            lemma_db_prefix_chars();
        }
        let wrp_key = Self::db_col_merged(cmd);
        if wrp_key.is_none() {
            return DbRes {
                data: None,
                error: Some(
                    TrxError::TruncateCollectionError(
                        "check database & collection name".to_owned(),
                    ),
                ),
            };
        }
        let key = wrp_key.unwrap();
        let ghost k = col_key(cmd@.database->0, cmd@.collection->0);
        proof {
            assert(k[cmd@.database->0.len() as int] == '#');
            assert(has_hash(k));
            assert(k != "sys"@ && k != "credentials"@);
        }
        let exi = self.trx.get(DB_SYS, key.as_str());
        if exi.is_none() {
            return DbRes {
                data: None,
                error: Some(TrxError::DropCollectionError("collection does not exist".to_owned())),
            };
        }
        let ghost t1 = old(self).trx;
        if self.trx.has_partition(key.as_str()) {
            let dropped = self.trx.truncate(key.as_str());
            if dropped.is_err() {
                proof {
                    assert(false);
                }
                let e = dropped.unwrap_err();
                return DbRes { data: None, error: Some(TrxError::DropCollectionError(e.message())) };
            }
        } else {
            proof {
                assert(old(self).sys_kv().dom().contains(k));
                assert(sys_entry_ok(t1, k));
                if !(t1.part_kv("sys"@)[k] is Schema && t1.has_part(k)) {
                    let d = choose|d: Seq<char>| valid_name(d) && k == db_key(d);
                    lemma_marker_col_distinct(d, cmd@.database->0, cmd@.collection->0, d);
                }
                assert(false);
            }
        }
        let dlt = self.trx.delete(DB_SYS, key.as_str());
        if dlt.is_err() {
            proof {
                assert(false);
            }
            let e = dlt.unwrap_err();
            return DbRes { data: None, error: Some(TrxError::DropCollectionError(e.message())) };
        }
        proof {
            let t2 = self.trx;
            assert forall|k2: Seq<char>| #[trigger]
                t2.part_kv("sys"@).dom().contains(k2) implies sys_entry_ok(t2, k2) by {
                assert(t1.part_kv("sys"@).dom().contains(k2));
                assert(old(self).sys_kv().dom().contains(k2));
                assert(k2 != k);
                assert(sys_entry_ok(t1, k2));
                if t1.part_kv("sys"@)[k2] is Schema && t1.has_part(k2) {
                    assert(t2.has_part(k2));
                }
            }
            assert forall|n: Seq<char>| #[trigger]
                t2.has_part(n) && !reserved_part(n) implies self.sys_kv().dom().contains(n) && (
            exists|d: Seq<char>, c: Seq<char>|
                valid_name(d) && valid_name(c) && n == col_key(d, c)) by {
                assert(t1.has_part(n));
                assert(n != k);
            }
        }
        DbRes { data: None, error: None }
    }
}

/// Marker keys order as their database names do.
proof fn lemma_db_key_order(a: Seq<char>, b: Seq<char>)
    requires
        valid_name(a),
        valid_name(b),
    ensures
        lex_lt(db_key(a), db_key(b)) == lex_lt(a, b),
        db_key(a) == db_key(b) ==> a == b,
{
    lemma_db_prefix_chars();
    let ka = db_key(a);
    let kb = db_key(b);
    assert forall|j: int| 0 <= j < 11 implies ka[j] == kb[j] by {}
    crate::util::lemma_lex_skip_common(ka, kb, 11);
    assert(ka.skip(11) =~= a);
    assert(kb.skip(11) =~= b);
    if ka == kb {
        assert(a =~= b) by {
            assert forall|j: int| 0 <= j < a.len() implies a[j] == b[j] by {
                assert(ka[11 + j] == kb[11 + j]);
            }
        }
    }
}

/// Collection keys of one database order as their collection names do.
proof fn lemma_col_key_order(db: Seq<char>, a: Seq<char>, b: Seq<char>)
    requires
        valid_name(db),
        valid_name(a),
        valid_name(b),
    ensures
        lex_lt(col_key(db, a), col_key(db, b)) == lex_lt(a, b),
        col_key(db, a) == col_key(db, b) ==> a == b,
{
    let ka = col_key(db, a);
    let kb = col_key(db, b);
    let n = db.len() + 1;
    assert forall|j: int| 0 <= j < n implies ka[j] == kb[j] by {}
    crate::util::lemma_lex_skip_common(ka, kb, n as int);
    assert(ka.skip(n as int) =~= a);
    assert(kb.skip(n as int) =~= b);
    if ka == kb {
        assert(a =~= b) by {
            assert forall|j: int| 0 <= j < a.len() implies a[j] == b[j] by {
                assert(ka[n + j] == kb[n + j]);
            }
        }
    }
}

impl Exec {
    /// Lists the databases the catalog records, in the lexicographic order
    /// of the underlying keys.
    #[verifier::loop_isolation(false)]
    pub fn db_list(&self) -> (r: DbRes)
        requires
            self.inv(),
        ensures
            r.error is None,
            r.data matches Some(names) && {
                let ns = names.deep_view();
                &&& forall|i: int, j: int|
                    0 <= i < j < ns.len() ==> lex_lt(#[trigger] ns[i], #[trigger] ns[j])
                &&& forall|i: int|
                    0 <= i < ns.len() ==> valid_name(#[trigger] ns[i])
                        && self.sys_kv().dom().contains(db_key(ns[i]))
                &&& forall|d: Seq<char>|
                    valid_name(d) && #[trigger] self.sys_kv().dom().contains(db_key(d))
                        ==> exists|i: int| 0 <= i < ns.len() && #[trigger] ns[i] == d
            },
    {
        proof {
            lemma_var_names();
            lemma_db_prefix_chars();
        }
        let mut prefix_parts: Vec<String> = Vec::new();
        prefix_parts.push(DB_PREFIX.to_owned());
        prefix_parts.push("".to_owned());
        proof {
            reveal_strlit("");
            assert(prefix_parts.deep_view() =~= seq![DB_PREFIX@, ""@]);
            crate::util::lemma_merged_pair(DB_PREFIX@, ""@);
        }
        let wrp_prefix = key_merger(prefix_parts).unwrap();
        proof {
            assert(wrp_prefix@ =~= db_scan_prefix());
        }
        let dbs = self.trx.through(DB_SYS, wrp_prefix.as_str());
        let mut items: Vec<String> = Vec::new();
        let mut i: usize = 0;
        let ghost sys = self.sys_kv();
        while i < dbs.len()
            invariant
                0 <= i <= dbs@.len(),
                items.deep_view().len() == i as int,
                forall|a: int|
                    0 <= a < i ==> valid_name(#[trigger] items.deep_view()[a]) && db_key(
                        items.deep_view()[a],
                    ) == dbs@[a].0@,
            decreases dbs@.len() - i,
        {
            let ghost k = dbs@[i as int].0@;
            proof {
                assert(sys.dom().contains(k));
                assert(sys_entry_ok(self.trx, k));
                if exists|d: Seq<char>, c: Seq<char>|
                    valid_name(d) && valid_name(c) && k == col_key(d, c) {
                    let (d, c) = choose|d: Seq<char>, c: Seq<char>|
                        valid_name(d) && valid_name(c) && k == col_key(d, c);
                    lemma_col_key_shape(d, c);
                    assert(is_prefix(db_scan_prefix(), k));
                    assert(false);
                }
                let d = choose|d: Seq<char>| valid_name(d) && k == db_key(d);
                lemma_db_key_shape(d);
            }
            let name = ksm_db(dbs[i].0.clone()).unwrap();
            proof {
                let d = choose|d: Seq<char>| valid_name(d) && k == db_key(d);
                assert(spec_split(k) == seq![DB_PREFIX@, d]);
                assert(name@ == d);
            }
            let ghost before = items.deep_view();
            items.push(name);
            proof {
                assert(items.deep_view() =~= before.push(name@));
            }
            i = i + 1;
        }
        proof {
            let ns = items.deep_view();
            assert forall|a: int, b: int| 0 <= a < b < ns.len() implies lex_lt(
                #[trigger] ns[a],
                #[trigger] ns[b],
            ) by {
                assert(lex_lt(dbs@[a].0@, dbs@[b].0@));
                lemma_db_key_order(ns[a], ns[b]);
            }
            assert forall|d: Seq<char>|
                valid_name(d) && #[trigger] sys.dom().contains(db_key(d)) implies exists|i: int|
                0 <= i < ns.len() && #[trigger] ns[i] == d by {
                lemma_db_key_shape(d);
                let a = choose|a: int| 0 <= a < dbs@.len() && #[trigger] dbs@[a].0@ == db_key(d);
                lemma_db_key_order(ns[a], d);
                assert(ns[a] == d);
            }
        }
        DbRes { data: Some(items), error: None }
    }

    /// Lists a database's collections: the partitions carrying its scan
    /// prefix, in the lexicographic order of the underlying names.
    #[verifier::loop_isolation(false)]
    pub fn col_list(&self, cmd: &JqlCommand) -> (r: DbRes)
        requires
            self.inv(),
            cmd@.database matches Some(d) && valid_name(d),
        ensures
            r.error is None,
            r.data matches Some(names) && {
                let db = cmd@.database->0;
                let ns = names.deep_view();
                &&& forall|i: int, j: int|
                    0 <= i < j < ns.len() ==> lex_lt(#[trigger] ns[i], #[trigger] ns[j])
                &&& forall|i: int|
                    0 <= i < ns.len() ==> valid_name(#[trigger] ns[i]) && self.trx.has_part(
                        col_key(db, ns[i]),
                    )
                &&& forall|c: Seq<char>|
                    valid_name(c) && #[trigger] self.trx.has_part(col_key(db, c)) ==> exists|i: int|
                        0 <= i < ns.len() && #[trigger] ns[i] == c
            },
    {
        proof {
            lemma_var_names();
            lemma_db_prefix_chars();
            self.trx.lemma_names();
        }
        let wrp_db = cmd._database.as_ref().unwrap();
        let db = wrp_db.as_str();
        let mut prefix_parts: Vec<String> = Vec::new();
        prefix_parts.push(db.to_owned());
        prefix_parts.push("".to_owned());
        proof {
            reveal_strlit("");
            assert(prefix_parts.deep_view() =~= seq![db@, ""@]);
            crate::util::lemma_merged_pair(db@, ""@);
        }
        let prefix = key_merger(prefix_parts).unwrap();
        let ghost pfx = db@ + seq!['#'];
        proof {
            assert(prefix@ =~= pfx);
        }
        let cfs = self.trx.cfs();
        let ghost dv = self.trx.part_names();
        let mut names: Vec<String> = Vec::new();
        let ghost mut idxs: Seq<int> = Seq::empty();
        let mut i: usize = 0;
        while i < cfs.len()
            invariant
                0 <= i <= dv.len(),
                cfs.deep_view() == dv,
                cfs@.len() == dv.len(),
                idxs.len() == names.deep_view().len(),
                forall|a: int| 0 <= a < idxs.len() ==> 0 <= #[trigger] idxs[a] < i,
                forall|a: int, b: int| 0 <= a < b < idxs.len() ==> idxs[a] < idxs[b],
                forall|a: int|
                    0 <= a < idxs.len() ==> valid_name(#[trigger] names.deep_view()[a]) && col_key(
                        cmd@.database->0,
                        names.deep_view()[a],
                    ) == dv[idxs[a]],
                forall|p: int|
                    0 <= p < i && is_prefix(pfx, #[trigger] dv[p]) ==> exists|a: int|
                        0 <= a < idxs.len() && #[trigger] idxs[a] == p,
            decreases dv.len() - i,
        {
            if str_has_prefix(cfs[i].as_str(), prefix.as_str()) {
                let ghost n0 = dv[i as int];
                proof {
                    assert(self.trx.part_names().contains(n0)) by {
                        assert(self.trx.part_names()[i as int] == n0);
                    }
                    assert(self.trx.has_part(n0));
                    lemma_reserved_unprefixed(cmd@.database->0);
                    assert(!reserved_part(n0));
                    let (d, c) = choose|d: Seq<char>, c: Seq<char>|
                        valid_name(d) && valid_name(c) && n0 == col_key(d, c);
                    lemma_col_key_shape(d, c);
                    lemma_col_prefix_iff(cmd@.database->0, d, c);
                    assert(d == cmd@.database->0);
                }
                let name = ksm_db(cfs[i].clone()).unwrap();
                let ghost before = names.deep_view();
                let ghost oldidxs = idxs;
                names.push(name);
                proof {
                    idxs = idxs.push(i as int);
                    assert(names.deep_view() =~= before.push(name@));
                    let (d, c) = choose|d: Seq<char>, c: Seq<char>|
                        valid_name(d) && valid_name(c) && n0 == col_key(d, c);
                    assert(spec_split(n0) == seq![d, c]);
                    assert(name@ == c);
                    assert forall|p: int|
                        0 <= p < i + 1 && is_prefix(pfx, #[trigger] dv[p]) implies exists|a: int|
                        0 <= a < idxs.len() && #[trigger] idxs[a] == p by {
                        if p == i {
                            assert(idxs[idxs.len() - 1] == p);
                        } else {
                            let a = choose|a: int|
                                0 <= a < oldidxs.len() && #[trigger] oldidxs[a] == p;
                            assert(idxs[a] == p);
                        }
                    }
                }
            }
            i = i + 1;
        }
        proof {
            let db2 = cmd@.database->0;
            let ns = names.deep_view();
            assert forall|a: int, b: int| 0 <= a < b < ns.len() implies lex_lt(
                #[trigger] ns[a],
                #[trigger] ns[b],
            ) by {
                assert(lex_lt(dv[idxs[a]], dv[idxs[b]]));
                lemma_col_key_order(db2, ns[a], ns[b]);
            }
            assert forall|a: int| 0 <= a < ns.len() implies valid_name(#[trigger] ns[a])
                && self.trx.has_part(col_key(db2, ns[a])) by {
                assert(self.trx.part_names()[idxs[a]] == col_key(db2, ns[a]));
                assert(self.trx.part_names().contains(col_key(db2, ns[a])));
            }
            assert forall|c: Seq<char>|
                valid_name(c) && #[trigger] self.trx.has_part(col_key(db2, c)) implies exists|
                i2: int,
            | 0 <= i2 < ns.len() && #[trigger] ns[i2] == c by {
                assert(self.trx.part_names().contains(col_key(db2, c)));
                let p = choose|p: int| 0 <= p < dv.len() && dv[p] == col_key(db2, c);
                lemma_col_key_shape(db2, c);
                lemma_col_prefix_iff(db2, db2, c);
                assert(is_prefix(pfx, dv[p]));
                let a = choose|a: int| 0 <= a < idxs.len() && #[trigger] idxs[a] == p;
                lemma_col_key_order(db2, ns[a], c);
                assert(ns[a] == c);
            }
        }
        DbRes { data: Some(names), error: None }
    }
}

impl Exec {
    /// Drops a database: every partition carrying the database's scan prefix
    /// is dropped and its catalog record removed, collection by collection,
    /// and then the database marker itself is removed. A database with no
    /// collections is still droppable.
    #[verifier::loop_isolation(false)]
    pub fn drop_db(&mut self, cmd: &JqlCommand) -> (r: DbRes)
        requires
            old(self).inv(),
            cmd@.database matches Some(d) && valid_name(d),
        ensures
            final(self).inv(),
            r.data is None,
            r.error is None,
            ({
                let db = cmd@.database->0;
                let pfx = db + seq!['#'];
                &&& forall|n: Seq<char>| #[trigger]
                    final(self).trx.has_part(n)
                        == (old(self).trx.has_part(n) && !is_prefix(pfx, n))
                &&& forall|k: Seq<char>| #[trigger]
                    final(self).sys_kv().dom().contains(k) == (old(self).sys_kv().dom().contains(k)
                        && k != db_key(db) && !is_prefix(pfx, k))
                &&& forall|k: Seq<char>| #[trigger]
                    final(self).sys_kv().dom().contains(k)
                        ==> final(self).sys_kv()[k] == old(self).sys_kv()[k]
                &&& forall|n: Seq<char>|
                    n != "sys"@ && #[trigger] final(self).trx.has_part(n)
                        ==> final(self).trx.part_kv(n) == old(self).trx.part_kv(n)
            }),
    {
        proof {
            lemma_var_names();
            lemma_db_prefix_chars();
            old(self).trx.lemma_names();
        }
        let wrp_db = cmd._database.as_ref().unwrap();
        let db = wrp_db.as_str();
        let ghost dbm = cmd@.database->0;
        let ghost pfx = dbm + seq!['#'];
        let mut key_parts: Vec<String> = Vec::new();
        key_parts.push(DB_PREFIX.to_owned());
        key_parts.push(db.to_owned());
        proof {
            assert(key_parts.deep_view() =~= seq![DB_PREFIX@, db@]);
            crate::util::lemma_merged_pair(DB_PREFIX@, db@);
        }
        let wrp_prefix = key_merger(key_parts).unwrap();
        let mut pfx_parts: Vec<String> = Vec::new();
        pfx_parts.push(db.to_owned());
        pfx_parts.push("".to_owned());
        proof {
            reveal_strlit("");
            assert(pfx_parts.deep_view() =~= seq![db@, ""@]);
            crate::util::lemma_merged_pair(db@, ""@);
        }
        let prefix = key_merger(pfx_parts).unwrap();
        proof {
            assert(prefix@ =~= pfx);
            lemma_reserved_unprefixed(dbm);
        }
        let cfs = self.trx.cfs();
        let ghost dv = old(self).trx.part_names();
        let ghost t1 = old(self).trx;
        let mut i: usize = 0;
        while i < cfs.len()
            invariant
                0 <= i <= dv.len(),
                cfs.deep_view() == dv,
                cfs@.len() == dv.len(),
                self.trx.wf(),
                forall|n: Seq<char>| #[trigger]
                    self.trx.has_part(n) == (t1.has_part(n) && !(is_prefix(pfx, n) && exists|
                        j: int,
                    | 0 <= j < i && #[trigger] dv[j] == n)),
                forall|k: Seq<char>| #[trigger]
                    self.sys_kv().dom().contains(k) == (t1.part_kv("sys"@).dom().contains(k) && !(
                    is_prefix(pfx, k) && exists|j: int| 0 <= j < i && #[trigger] dv[j] == k)),
                forall|k: Seq<char>| #[trigger]
                    self.sys_kv().dom().contains(k) ==> self.sys_kv()[k] == t1.part_kv("sys"@)[k],
                forall|n: Seq<char>|
                    n != "sys"@ && #[trigger] self.trx.has_part(n) ==> self.trx.part_kv(n)
                        == t1.part_kv(n),
            decreases dv.len() - i,
        {
            let ghost n0 = dv[i as int];
            let ghost t0 = self.trx;
            proof {
                assert(cfs@[i as int]@ == dv[i as int]);
                assert forall|k: Seq<char>| #[trigger]
                    t0.part_kv("sys"@).dom().contains(k) == (t1.part_kv("sys"@).dom().contains(k)
                        && !(is_prefix(pfx, k) && exists|j: int|
                        0 <= j < i && #[trigger] dv[j] == k)) by {
                    assert(self.sys_kv().dom().contains(k) == t0.part_kv("sys"@).dom().contains(
                        k,
                    ));
                }
                assert forall|k: Seq<char>| #[trigger]
                    t0.part_kv("sys"@).dom().contains(k) implies t0.part_kv("sys"@)[k]
                    == t1.part_kv("sys"@)[k] by {
                    assert(self.sys_kv().dom().contains(k));
                    assert(self.sys_kv()[k] == t0.part_kv("sys"@)[k]);
                }
                assert forall|n: Seq<char>| #[trigger]
                    t0.has_part(n) == (t1.has_part(n) && !(is_prefix(pfx, n) && exists|j: int|
                        0 <= j < i && #[trigger] dv[j] == n)) by {
                    assert(self.trx.has_part(n) == t0.has_part(n));
                }
                assert forall|n: Seq<char>|
                    n != "sys"@ && #[trigger] t0.has_part(n) implies t0.part_kv(n) == t1.part_kv(
                    n,
                ) by {
                    assert(self.trx.has_part(n));
                    assert(self.trx.part_kv(n) == t0.part_kv(n));
                }
            }
            if str_has_prefix(cfs[i].as_str(), prefix.as_str()) {
                proof {
                    assert(t1.part_names()[i as int] == n0);
                    assert(t1.part_names().contains(n0));
                    assert(t1.has_part(n0));
                    assert forall|j: int| 0 <= j < i implies #[trigger] dv[j] != n0 by {
                        assert(lex_lt(dv[j], dv[i as int]));
                        crate::util::lemma_lex_irrefl(n0);
                    }
                    assert(self.trx.has_part(n0));
                }
                let chk = self.trx.truncate(cfs[i].as_str());
                if chk.is_err() {
                    proof {
                        assert(false);
                    }
                }
                let ghost tm = self.trx;
                proof {
                    assert(!is_prefix(pfx, "sys"@));
                    assert("sys"@ != n0);
                    assert(tm.part_kv("sys"@) == t0.part_kv("sys"@));
                    assert(tm.has_part("sys"@));
                    assert(forall|n: Seq<char>| #[trigger]
                        tm.has_part(n) == (t0.has_part(n) && n != n0));
                    assert(forall|n: Seq<char>|
                        n != n0 ==> #[trigger] tm.part_kv(n) == t0.part_kv(n));
                }
                let chk2 = self.trx.delete(DB_SYS, cfs[i].as_str());
                if chk2.is_err() {
                    proof {
                        assert(false);
                    }
                }
                proof {
                    assert(self.sys_kv() == tm.part_kv("sys"@).remove(n0));
                    assert(forall|n: Seq<char>| #[trigger]
                        self.trx.has_part(n) == tm.has_part(n));
                    assert(forall|n: Seq<char>|
                        n != "sys"@ ==> #[trigger] self.trx.part_kv(n) == tm.part_kv(n));
                    assert forall|n: Seq<char>| #[trigger]
                        self.trx.has_part(n) == (t1.has_part(n) && !(is_prefix(pfx, n) && exists|
                            j: int,
                        | 0 <= j < i + 1 && #[trigger] dv[j] == n)) by {
                        if n == n0 {
                            assert(dv[i as int] == n);
                            assert(!self.trx.has_part(n));
                        } else {
                            if exists|j: int| 0 <= j < i + 1 && #[trigger] dv[j] == n {
                                let j = choose|j: int| 0 <= j < i + 1 && #[trigger] dv[j] == n;
                                assert(j < i);
                            }
                        }
                    }
                    assert forall|k: Seq<char>| #[trigger]
                        self.sys_kv().dom().contains(k) == (t1.part_kv("sys"@).dom().contains(k)
                            && !(is_prefix(pfx, k) && exists|j: int|
                            0 <= j < i + 1 && #[trigger] dv[j] == k)) by {
                        assert(self.sys_kv().dom().contains(k) == (t0.part_kv(
                            "sys"@,
                        ).dom().contains(k) && k != n0));
                        if k == n0 {
                            assert(dv[i as int] == k);
                        } else {
                            if exists|j: int| 0 <= j < i + 1 && #[trigger] dv[j] == k {
                                let j = choose|j: int| 0 <= j < i + 1 && #[trigger] dv[j] == k;
                                assert(j < i);
                            }
                        }
                    }
                    assert forall|k: Seq<char>| #[trigger]
                        self.sys_kv().dom().contains(k) implies self.sys_kv()[k] == t1.part_kv(
                        "sys"@,
                    )[k] by {
                        assert(k != n0);
                        assert(t0.part_kv("sys"@).dom().contains(k));
                        assert(self.sys_kv()[k] == t0.part_kv("sys"@)[k]);
                    }
                    assert forall|n: Seq<char>|
                        n != "sys"@ && #[trigger] self.trx.has_part(n) implies self.trx.part_kv(n)
                        == t1.part_kv(n) by {
                        assert(n != n0);
                        assert(t0.has_part(n));
                        assert(self.trx.part_kv(n) == t0.part_kv(n));
                    }
                }
            } else {
                proof {
                    assert forall|n: Seq<char>|
                        (is_prefix(pfx, n) && exists|j: int|
                            0 <= j < i + 1 && #[trigger] dv[j] == n) implies (is_prefix(pfx, n)
                        && exists|j: int| 0 <= j < i && #[trigger] dv[j] == n) by {
                        let j = choose|j: int| 0 <= j < i + 1 && #[trigger] dv[j] == n;
                        assert(j != i);
                    }
                }
            }
            i = i + 1;
        }
        let ghost tpre = self.trx;
        proof {
            assert forall|n: Seq<char>| #[trigger]
                tpre.has_part(n) == (t1.has_part(n) && !is_prefix(pfx, n)) by {
                assert(self.trx.has_part(n) == tpre.has_part(n));
                if t1.has_part(n) && is_prefix(pfx, n) {
                    assert(t1.part_names().contains(n));
                    let j = choose|j: int| 0 <= j < dv.len() && dv[j] == n;
                    assert(dv[j] == n);
                }
            }
            assert forall|k: Seq<char>| #[trigger]
                tpre.part_kv("sys"@).dom().contains(k) == (t1.part_kv("sys"@).dom().contains(k)
                    && !is_prefix(pfx, k)) by {
                assert(self.sys_kv().dom().contains(k) == tpre.part_kv("sys"@).dom().contains(k));
                if t1.part_kv("sys"@).dom().contains(k) && is_prefix(pfx, k) {
                    assert(old(self).sys_kv().dom().contains(k));
                    assert(sys_entry_ok(t1, k));
                    if (exists|d: Seq<char>| valid_name(d) && k == db_key(d)) && t1.part_kv(
                        "sys"@,
                    )[k] is Marker {
                        let d = choose|d: Seq<char>| valid_name(d) && k == db_key(d);
                        lemma_marker_col_distinct(d, dbm, dbm, dbm);
                        assert(false);
                    }
                    assert(t1.has_part(k));
                    assert(t1.part_names().contains(k));
                    let j = choose|j: int| 0 <= j < dv.len() && dv[j] == k;
                    assert(dv[j] == k);
                }
            }
            assert forall|k: Seq<char>| #[trigger]
                tpre.part_kv("sys"@).dom().contains(k) implies tpre.part_kv("sys"@)[k]
                == t1.part_kv("sys"@)[k] by {
                assert(self.sys_kv().dom().contains(k));
                assert(self.sys_kv()[k] == tpre.part_kv("sys"@)[k]);
            }
            assert forall|n: Seq<char>|
                n != "sys"@ && #[trigger] tpre.has_part(n) implies tpre.part_kv(n) == t1.part_kv(
                n,
            ) by {
                assert(self.trx.has_part(n));
                assert(self.trx.part_kv(n) == tpre.part_kv(n));
            }
            assert(!is_prefix(pfx, "sys"@));
            assert(tpre.has_part("sys"@));
        }
        let dlt = self.trx.delete(DB_SYS, wrp_prefix.as_str());
        if dlt.is_err() {
            proof {
                assert(false);
            }
            let e = dlt.unwrap_err();
            return DbRes { data: None, error: Some(TrxError::DropCollectionError(e.message())) };
        }
        proof {
            let t2 = self.trx;
            assert(wrp_prefix@ == db_key(dbm));
            assert(t2.part_kv("sys"@) == tpre.part_kv("sys"@).remove(db_key(dbm)));
            assert forall|k2: Seq<char>| #[trigger]
                t2.part_kv("sys"@).dom().contains(k2) implies sys_entry_ok(t2, k2) by {
                assert(tpre.part_kv("sys"@).dom().contains(k2));
                assert(k2 != db_key(dbm));
                assert(t1.part_kv("sys"@).dom().contains(k2) && !is_prefix(pfx, k2));
                assert(old(self).sys_kv().dom().contains(k2));
                assert(sys_entry_ok(t1, k2));
                assert(t2.part_kv("sys"@)[k2] == t1.part_kv("sys"@)[k2]);
                if (exists|d: Seq<char>, c: Seq<char>|
                    valid_name(d) && valid_name(c) && k2 == col_key(d, c)) && t1.part_kv(
                    "sys"@,
                )[k2] is Schema && t1.has_part(k2) {
                    assert(tpre.has_part(k2));
                    assert(t2.has_part(k2));
                }
            }
            assert forall|n: Seq<char>| #[trigger]
                t2.has_part(n) && !reserved_part(n) implies self.sys_kv().dom().contains(n) && (
            exists|d: Seq<char>, c: Seq<char>|
                valid_name(d) && valid_name(c) && n == col_key(d, c)) by {
                assert(tpre.has_part(n));
                assert(t1.has_part(n) && !is_prefix(pfx, n));
                assert(t1.part_kv("sys"@).dom().contains(n));
                assert(old(self).sys_kv().dom().contains(n));
                assert(sys_entry_ok(t1, n));
                let (d, c) = choose|d: Seq<char>, c: Seq<char>|
                    valid_name(d) && valid_name(c) && n == col_key(d, c);
                lemma_marker_col_distinct(dbm, d, c, dbm);
                assert(n != db_key(dbm));
                assert(tpre.part_kv("sys"@).dom().contains(n));
                assert(self.sys_kv().dom().contains(n));
            }
            assert forall|n: Seq<char>| #[trigger]
                self.trx.has_part(n) == (t1.has_part(n) && !is_prefix(pfx, n)) by {
                assert(self.trx.has_part(n) == tpre.has_part(n));
            }
            assert forall|k: Seq<char>| #[trigger]
                self.sys_kv().dom().contains(k) == (t1.part_kv("sys"@).dom().contains(k) && k
                    != db_key(dbm) && !is_prefix(pfx, k)) by {
                assert(self.sys_kv().dom().contains(k) == (tpre.part_kv("sys"@).dom().contains(k)
                    && k != db_key(dbm)));
            }
            assert forall|n: Seq<char>|
                n != "sys"@ && #[trigger] self.trx.has_part(n) implies self.trx.part_kv(n)
                == t1.part_kv(n) by {
                assert(self.trx.part_kv(n) == tpre.part_kv(n));
                assert(tpre.has_part(n));
            }
        }
        DbRes { data: None, error: None }
    }
}

/// One winner per database name: whichever of two creations of the same
/// name the storage serializes first succeeds; the other is refused with an
/// already-exists error and moves nothing.
pub proof fn lemma_create_db_race(
    pre: Exec,
    mid: Exec,
    post: Exec,
    db: Seq<char>,
    r1: DbRes,
    r2: DbRes,
)
    requires
        valid_name(db),
        !pre.sys_kv().dom().contains(db_key(db)),
        new_db_rel(pre, mid, db, r1),
        new_db_rel(mid, post, db, r2),
    ensures
        r1.error is None,
        mid.sys_kv().dom().contains(db_key(db)),
        r2.error matches Some(e) && e@ == TrxErrModel::CreateDbError(
            "db already exists `"@ + db + "`"@,
        ),
        post == mid,
{
}

/// One winner per (database, collection) pair: whichever of two creations
/// the storage serializes first succeeds; the other is refused with an
/// already-exists error and moves nothing. Afterwards the collection's
/// record and its partition both exist — never just one.
pub proof fn lemma_create_collection_race(
    pre: Exec,
    mid: Exec,
    post: Exec,
    db: Seq<char>,
    b: SchemaModel,
    r1: DbRes,
    r2: DbRes,
)
    requires
        valid_name(db),
        valid_name(b.name),
        !pre.sys_kv().dom().contains(col_key(db, b.name)),
        new_col_rel(pre, mid, db, b, r1),
        new_col_rel(mid, post, db, b, r2),
    ensures
        r1.error is None,
        r2.error matches Some(e) && e@ == TrxErrModel::CreateCollectionError(
            "collection already exists `"@ + b.name + "`"@,
        ),
        post == mid,
        mid.sys_kv().dom().contains(col_key(db, b.name)),
        mid.trx.has_part(col_key(db, b.name)),
{
}

/// A collection's record and its partition agree on existence: under the
/// catalog's consistency, every recorded collection's partition exists, and
/// every partition beyond the reserved ones is recorded.
pub proof fn lemma_record_partition_agree(e: Exec, db: Seq<char>, col: Seq<char>)
    requires
        e.inv(),
        valid_name(db),
        valid_name(col),
    ensures
        e.sys_kv().dom().contains(col_key(db, col)) ==> e.trx.has_part(col_key(db, col)),
        e.trx.has_part(col_key(db, col)) ==> e.sys_kv().dom().contains(col_key(db, col)),
{
    let k = col_key(db, col);
    if e.sys_kv().dom().contains(k) {
        assert(sys_entry_ok(e.trx, k));
        if !(e.trx.part_kv("sys"@)[k] is Schema && e.trx.has_part(k)) {
            let d = choose|d: Seq<char>| valid_name(d) && k == db_key(d);
            lemma_marker_col_distinct(d, db, col, db);
            assert(false);
        }
    }
    if e.trx.has_part(k) {
        lemma_col_key_shape(db, col);
        assert(!reserved_part(k));
    }
}

} // verus!
