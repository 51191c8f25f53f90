//! The settings of the RESP server.

use vstd::prelude::*;

verus! {

/// The server's settings.
pub struct Config {
    pub dir: Option<String>,
    pub dbfilename: Option<String>,
}

impl Config {
    pub fn new() -> (r: Self)
        ensures
            r.dir is None,
            r.dbfilename is None,
    {
        Self { dir: None, dbfilename: None }
    }
}

} // verus!
