//! Direct partition management over a storage handle.
use vstd::prelude::*;

use crate::error::{TrxError, TrxErrModel};
use crate::headers::ParsedStatement;
use crate::trx::{cf_exists_msg, CatValModel, Trx};

verus! {

/// A thin handle for creating partitions directly from parsed statements.
pub struct Ops {
    pub db: Trx,
}

impl Ops {
    /// Wraps a storage handle.
    pub fn new(db: Trx) -> (r: Ops)
        ensures
            r.db == db,
    {
        Ops { db }
    }

    /// Creates the partition a statement names; one already there is an
    /// error.
    pub fn create_db(&mut self, stmt: ParsedStatement) -> (r: Result<(), TrxError>)
        requires
            old(self).db.wf(),
        ensures
            final(self).db.wf(),
            match r {
                Ok(u) => {
                    &&& !old(self).db.has_part(stmt.db@)
                    &&& forall|n: Seq<char>| #[trigger]
                        final(self).db.has_part(n) == (old(self).db.has_part(n) || n == stmt.db@)
                    &&& final(self).db.part_kv(stmt.db@) == Map::<Seq<char>, CatValModel>::empty()
                    &&& forall|n: Seq<char>|
                        n != stmt.db@ ==> #[trigger] final(self).db.part_kv(n) == old(
                            self,
                        ).db.part_kv(n)
                },
                Err(e) => {
                    &&& old(self).db.has_part(stmt.db@)
                    &&& *final(self) == *old(self)
                    &&& e@ == TrxErrModel::CreateDbError(cf_exists_msg(stmt.db@))
                },
            },
    {
        let res = self.db.create_cf(stmt.db.as_str());
        if res.is_err() {
            return Err(res.unwrap_err());
        }
        Ok(())
    }
}

} // verus!
