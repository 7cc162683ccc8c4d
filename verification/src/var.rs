//! Reserved partition names and catalog key prefixes.
use vstd::prelude::*;

verus! {

/// Partition holding user credentials (authentication is stubbed: it always denies).
pub const DB_CREDS: &'static str = "credentials";

/// Reserved partition holding the catalog: existence markers for databases and
/// schema documents for collections.
pub const DB_SYS: &'static str = "sys";

/// Partition holding query logs.
pub const DB_LOG: &'static str = "logs";

/// Catalog keys for database markers start with this prefix (joined to the
/// database name by the key codec).
pub const DB_PREFIX: &'static str = "database::";

/// Prefix for query log entries.
pub const QUERY_LOG_PREFIX: &'static str = "query::";

/// Prefix for query result log entries.
pub const RES_LOG_PREFIX: &'static str = "query-result::";

/// The reserved names written out, for proofs that hold them against
/// computed keys.
pub proof fn lemma_var_names()
    ensures
        DB_SYS@ == "sys"@,
        DB_CREDS@ == "credentials"@,
        DB_LOG@ == "logs"@,
        DB_PREFIX@ == "database::"@,
{
    reveal_strlit("sys");
    reveal_strlit("credentials");
    reveal_strlit("logs");
    reveal_strlit("database::");
    assert(DB_SYS@ =~= "sys"@);
    assert(DB_CREDS@ =~= "credentials"@);
    assert(DB_LOG@ =~= "logs"@);
    assert(DB_PREFIX@ =~= "database::"@);
}

} // verus!
