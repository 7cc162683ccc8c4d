//! The query logger: a separate store, opened below the query-log path.
use vstd::prelude::*;

use crate::config::DbConfig;
use crate::error::MoeDbError;
use crate::headers::Logging;
use crate::trx::{CatValModel, Trx};
use crate::var::lemma_var_names;

verus! {

impl Logging {
    /// Opens the query logger over a fresh log store.
    pub fn new(cfg: DbConfig) -> (r: Result<Logging, MoeDbError>)
        ensures
            match r {
                Ok(l) => {
                    &&& l.trx.wf()
                    &&& forall|n: Seq<char>| #[trigger] l.trx.has_part(n) == (n == "logs"@)
                    &&& forall|n: Seq<char>|
                        l.trx.part_kv(n) == Map::<Seq<char>, CatValModel>::empty()
                    &&& l.trx.config() == cfg
                },
                Err(e) => false,
            },
    {
        proof {
            lemma_var_names();
        }
        let trx = Trx::new(cfg, true);
        match trx {
            Ok(t) => Ok(Logging { trx: t }),
            Err(e) => Err(e),
        }
    }
}

} // verus!
