//! The dispatcher: parses a statement, routes it to the catalog operation
//! its action kind selects, and wraps the outcome. Parse failures return
//! before the catalog is touched; declared-but-unimplemented actions report
//! a not-implemented condition instead of executing anything.
use vstd::prelude::*;

use crate::act::spec_action_of;
use crate::config::DbConfig;
use crate::error::{jql_err_msg, trx_err_msg, JqlError, MoeDbError, TrxErrModel};
use crate::func::valid_name;
use crate::headers::{ActionType, Exec, Jql};
use crate::jql::spec_parse;
use crate::json::json_text_model;
use crate::sys::{col_key, db_key};
use crate::trx::{CatValModel, Trx};
use crate::util::{is_prefix, lex_lt};
use crate::var::lemma_var_names;

verus! {

impl Exec {
    /// Opens the dispatcher over a fresh catalog store.
    pub fn new(cfg: DbConfig) -> (r: Result<Exec, MoeDbError>)
        ensures
            match r {
                Ok(e) => {
                    &&& e.inv()
                    &&& e.env == cfg
                    &&& e.sys_kv() == Map::<Seq<char>, CatValModel>::empty()
                    &&& forall|n: Seq<char>| #[trigger]
                        e.trx.has_part(n) == (n == "sys"@ || n == "credentials"@)
                    &&& forall|n: Seq<char>|
                        e.trx.part_kv(n) == Map::<Seq<char>, CatValModel>::empty()
                },
                Err(e) => false,
            },
    {
        proof {
            lemma_var_names();
        }
        let env = cfg.duplicate();
        let trx = Trx::new(env, false);
        match trx {
            Ok(t) => Ok(Exec { env: cfg, trx: t }),
            Err(e) => Err(e),
        }
    }

    /// Parses a statement and runs it: command errors come back before the
    /// catalog is touched; catalog failures come back wrapped as one
    /// transaction error; `get`, `upsert` and `delete` are parsed but their
    /// execution reports a not-implemented condition.
    pub fn run(&mut self, _id: &str, stmt: &str) -> (r: Result<Option<Vec<String>>, MoeDbError>)
        requires
            old(self).inv(),
        ensures
            final(self).inv(),
            ({
                let pm = spec_parse(json_text_model(stmt@));
                match pm {
                    Err(e) => {
                        &&& r matches Err(MoeDbError::QueryError(m)) && m@ == jql_err_msg(e)
                        &&& *final(self) == *old(self)
                    },
                    Ok(c) => match spec_action_of(c.action) {
                        ActionType::CreateDb => {
                            let k = db_key(c.database->0);
                            if old(self).sys_kv().dom().contains(k) {
                                &&& r matches Err(MoeDbError::TransactionError(m)) && m@
                                    == trx_err_msg(
                                    TrxErrModel::CreateDbError(
                                        "db already exists `"@ + c.database->0 + "`"@,
                                    ),
                                )
                                &&& *final(self) == *old(self)
                            } else {
                                &&& r matches Ok(d) && d is None
                                &&& final(self).sys_kv() == old(self).sys_kv().insert(
                                    k,
                                    CatValModel::Marker,
                                )
                                &&& forall|n: Seq<char>| #[trigger]
                                    final(self).trx.has_part(n) == old(self).trx.has_part(n)
                                &&& forall|n: Seq<char>|
                                    n != "sys"@ ==> #[trigger] final(self).trx.part_kv(n) == old(
                                        self,
                                    ).trx.part_kv(n)
                            }
                        },
                        ActionType::Create => {
                            let b = c.body->0;
                            let k = col_key(c.database->0, b.name);
                            if old(self).sys_kv().dom().contains(k) {
                                &&& r matches Err(MoeDbError::TransactionError(m)) && m@
                                    == trx_err_msg(
                                    TrxErrModel::CreateCollectionError(
                                        "collection already exists `"@ + b.name + "`"@,
                                    ),
                                )
                                &&& *final(self) == *old(self)
                            } else {
                                &&& r matches Ok(d) && d is None
                                &&& final(self).sys_kv() == old(self).sys_kv().insert(
                                    k,
                                    CatValModel::Schema(b),
                                )
                                &&& forall|n: Seq<char>| #[trigger]
                                    final(self).trx.has_part(n) == (old(self).trx.has_part(n) || n
                                        == k)
                                &&& final(self).trx.part_kv(k) == Map::<
                                    Seq<char>,
                                    CatValModel,
                                >::empty()
                                &&& forall|n: Seq<char>|
                                    n != "sys"@ && n != k ==> #[trigger] final(self).trx.part_kv(n)
                                        == old(self).trx.part_kv(n)
                            }
                        },
                        ActionType::Drop => {
                            let k = col_key(c.database->0, c.collection->0);
                            if !old(self).sys_kv().dom().contains(k) {
                                &&& r matches Err(MoeDbError::TransactionError(m)) && m@
                                    == trx_err_msg(
                                    TrxErrModel::DropCollectionError("collection does not exist"@),
                                )
                                &&& *final(self) == *old(self)
                            } else {
                                &&& r matches Ok(d) && d is None
                                &&& final(self).sys_kv() == old(self).sys_kv().remove(k)
                                &&& forall|n: Seq<char>| #[trigger]
                                    final(self).trx.has_part(n) == (old(self).trx.has_part(n) && n
                                        != k)
                                &&& forall|n: Seq<char>|
                                    n != "sys"@ && n != k ==> #[trigger] final(self).trx.part_kv(n)
                                        == old(self).trx.part_kv(n)
                            }
                        },
                        ActionType::Truncate => {
                            let k = col_key(c.database->0, c.collection->0);
                            if !old(self).trx.has_part(k) {
                                &&& r matches Ok(d) && d is None
                                &&& *final(self) == *old(self)
                            } else {
                                &&& r matches Ok(d) && d is None
                                &&& final(self).sys_kv() == old(self).sys_kv()
                                &&& forall|n: Seq<char>| #[trigger]
                                    final(self).trx.has_part(n) == old(self).trx.has_part(n)
                                &&& final(self).trx.part_kv(k) == Map::<
                                    Seq<char>,
                                    CatValModel,
                                >::empty()
                                &&& forall|n: Seq<char>|
                                    n != k ==> #[trigger] final(self).trx.part_kv(n) == old(
                                        self,
                                    ).trx.part_kv(n)
                            }
                        },
                        ActionType::DropDb => {
                            let db = c.database->0;
                            let pfx = db + seq!['#'];
                            &&& r matches Ok(d) && d is None
                            &&& forall|n: Seq<char>| #[trigger]
                                final(self).trx.has_part(n) == (old(self).trx.has_part(n)
                                    && !is_prefix(pfx, n))
                            &&& forall|k: Seq<char>| #[trigger]
                                final(self).sys_kv().dom().contains(k) == (old(
                                    self,
                                ).sys_kv().dom().contains(k) && k != db_key(db) && !is_prefix(
                                    pfx,
                                    k,
                                ))
                            &&& forall|k: Seq<char>| #[trigger]
                                final(self).sys_kv().dom().contains(k) ==> final(self).sys_kv()[k]
                                    == old(self).sys_kv()[k]
                            &&& forall|n: Seq<char>|
                                n != "sys"@ && #[trigger] final(self).trx.has_part(n)
                                    ==> final(self).trx.part_kv(n) == old(self).trx.part_kv(n)
                        },
                        ActionType::DbList => {
                            &&& *final(self) == *old(self)
                            &&& r matches Ok(d) && d matches Some(names) && {
                                let ns = names.deep_view();
                                &&& forall|i: int, j: int|
                                    0 <= i < j < ns.len() ==> lex_lt(
                                        #[trigger] ns[i],
                                        #[trigger] ns[j],
                                    )
                                &&& forall|i: int|
                                    0 <= i < ns.len() ==> valid_name(#[trigger] ns[i]) && old(
                                        self,
                                    ).sys_kv().dom().contains(db_key(ns[i]))
                                &&& forall|d2: Seq<char>|
                                    valid_name(d2) && #[trigger] old(
                                        self,
                                    ).sys_kv().dom().contains(db_key(d2)) ==> exists|i: int|
                                        0 <= i < ns.len() && #[trigger] ns[i] == d2
                            }
                        },
                        ActionType::ColList => {
                            let db = c.database->0;
                            &&& *final(self) == *old(self)
                            &&& r matches Ok(d) && d matches Some(names) && {
                                let ns = names.deep_view();
                                &&& forall|i: int, j: int|
                                    0 <= i < j < ns.len() ==> lex_lt(
                                        #[trigger] ns[i],
                                        #[trigger] ns[j],
                                    )
                                &&& forall|i: int|
                                    0 <= i < ns.len() ==> valid_name(#[trigger] ns[i]) && old(
                                        self,
                                    ).trx.has_part(col_key(db, ns[i]))
                                &&& forall|c2: Seq<char>|
                                    valid_name(c2) && #[trigger] old(self).trx.has_part(
                                        col_key(db, c2),
                                    ) ==> exists|i: int| 0 <= i < ns.len() && #[trigger] ns[i] == c2
                            }
                        },
                        ActionType::Get => {
                            &&& r matches Err(MoeDbError::NotImplementedError(m)) && m@ == c.action
                            &&& *final(self) == *old(self)
                        },
                        ActionType::Upsert => {
                            &&& r matches Err(MoeDbError::NotImplementedError(m)) && m@ == c.action
                            &&& *final(self) == *old(self)
                        },
                        ActionType::Delete => {
                            &&& r matches Err(MoeDbError::NotImplementedError(m)) && m@ == c.action
                            &&& *final(self) == *old(self)
                        },
                        ActionType::Unknown => false,
                    },
                }
            }),
    {
        let jql = Jql::parse(stmt);
        if jql.is_err() {
            let jerr = jql.unwrap_err();
            return Err(MoeDbError::QueryError(jerr.message()));
        }
        let parsed = jql.unwrap();
        let ghost c = parsed@;
        let at = ActionType::from_str(parsed._action.as_str());
        proof {
            assert(spec_parse(json_text_model(stmt@)) == Ok::<_, crate::error::JqlErrModel>(c));
            assert(at == spec_action_of(c.action));
        }
        let exec_res = match at {
            ActionType::Create => {
                proof {
                    assert(c.database matches Some(d) && valid_name(d));
                    assert(c.body is Some);
                    assert(valid_name(c.body->0.name));
                }
                self.new_col(&parsed)
            },
            ActionType::CreateDb => {
                proof {
                    assert(c.database matches Some(d) && valid_name(d));
                }
                self.new_db(&parsed)
            },
            ActionType::Get => {
                return Err(MoeDbError::NotImplementedError(parsed._action.clone()));
            },
            ActionType::Upsert => {
                return Err(MoeDbError::NotImplementedError(parsed._action.clone()));
            },
            ActionType::Delete => {
                return Err(MoeDbError::NotImplementedError(parsed._action.clone()));
            },
            ActionType::Drop => self.drop_col(&parsed),
            ActionType::DropDb => self.drop_db(&parsed),
            ActionType::DbList => self.db_list(),
            ActionType::Truncate => self.trun_col(&parsed),
            ActionType::ColList => self.col_list(&parsed),
            ActionType::Unknown => {
                proof {
                    assert(false);
                }
                return Err(MoeDbError::QueryError(JqlError::UnknownQuery.message()));
            },
        };
        match exec_res.error {
            Some(e) => Err(MoeDbError::TransactionError(e.message())),
            None => Ok(exec_res.data),
        }
    }
}

} // verus!
