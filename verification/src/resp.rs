//! The response wrapper: outcome, elapsed time and message, with an explicit
//! error flag. Callers never receive an unwind across the statement boundary.
use vstd::prelude::*;

use crate::error::MoeDbError;
use crate::headers::Response;

verus! {

impl Response {
    /// Wraps an execution outcome and the elapsed time the caller measured.
    pub fn build(
        time_taken: String,
        outcome: Result<Option<Vec<String>>, MoeDbError>,
    ) -> (r: Response)
        ensures
            r.time_taken == time_taken,
            match outcome {
                Ok(d) => !r.error && r.message@ == Seq::<char>::empty() && r.data == d,
                Err(e) => r.error && r.message@ == e.spec_message() && r.data is None,
            },
    {
        match outcome {
            Ok(d) => Response { time_taken, error: false, message: String::new(), data: d },
            Err(e) => Response { time_taken, error: true, message: e.message(), data: None },
        }
    }

    /// The line this response renders as.
    pub fn describe(&self) -> (r: String)
        ensures
            r@ == if self.error {
                "query executed in "@ + self.time_taken@ + " with error. details: "@
                    + self.message@
            } else {
                "query executed in "@ + self.time_taken@ + " with success status"@
            },
    {
        if self.error {
            let p: String = "query executed in ".to_owned();
            p.concat(self.time_taken.as_str()).concat(" with error. details: ").concat(
                self.message.as_str(),
            )
        } else {
            let p: String = "query executed in ".to_owned();
            p.concat(self.time_taken.as_str()).concat(" with success status")
        }
    }
}

} // verus!
