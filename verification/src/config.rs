//! The process configuration the storage layer is opened with.
use vstd::prelude::*;

verus! {

/// Where the storage and its logs live, and the configured default
/// credentials.
#[derive(Clone, Debug)]
pub struct DbConfig {
    pub db_path: String,
    pub log_path: String,
    pub default_auth: Vec<String>,
}

impl DbConfig {
    /// A configuration equal to this one, field for field.
    pub fn duplicate(&self) -> (r: Self)
        ensures
            r.db_path == self.db_path,
            r.log_path == self.log_path,
            r.default_auth@ == self.default_auth@,
    {
        let mut auth: Vec<String> = Vec::new();
        let mut i: usize = 0;
        while i < self.default_auth.len()
            invariant
                0 <= i <= self.default_auth@.len(),
                auth@ == self.default_auth@.take(i as int),
            decreases self.default_auth@.len() - i,
        {
            let ghost before = auth@;
            auth.push(self.default_auth[i].clone());
            proof {
                assert(auth@ =~= self.default_auth@.take(i + 1 as int));
            }
            i = i + 1;
        }
        proof {
            assert(self.default_auth@.take(self.default_auth@.len() as int)
                =~= self.default_auth@);
        }
        DbConfig {
            db_path: self.db_path.clone(),
            log_path: self.log_path.clone(),
            default_auth: auth,
        }
    }
}

} // verus!
