//! Where the state lives.
use vstd::prelude::*;
use vstd::string::*;

use crate::path::{join, joined, parent, parent_of};
use crate::text::opt_view;

verus! {

/// The directory of the state: `$BULLPEN_HOME` when set and not empty,
/// otherwise `.bullpen` under the home directory, or under the working
/// directory where there is none.
pub open spec fn home_of(bullpen_home: Option<Seq<char>>, home: Option<Seq<char>>) -> Seq<char> {
    match bullpen_home {
        Some(dir) => if dir.len() > 0 {
            dir
        } else {
            dot_bullpen(home)
        },
        None => dot_bullpen(home),
    }
}

/// `.bullpen` under the home directory.
pub open spec fn dot_bullpen(home: Option<Seq<char>>) -> Seq<char> {
    joined(
        match home {
            Some(h) => h,
            None => "."@,
        },
        ".bullpen"@,
    )
}

/// `bullpen_home` is `$BULLPEN_HOME` and `home` is `$HOME` (the caller reads
/// the environment). An empty `BULLPEN_HOME` counts as unset: taken literally
/// it would put the whole store in whatever directory the process happened to
/// start in.
pub fn resolve_home(bullpen_home: Option<String>, home: Option<String>) -> (r: String)
    ensures
        r@ == home_of(opt_view(bullpen_home), opt_view(home)),
{
    match bullpen_home {
        Some(dir) => {
            if !dir.as_str().is_empty() {
                return dir;
            }
        },
        None => {},
    }
    let base = match home {
        Some(h) => h,
        None => ".".to_owned(),
    };
    join(base.as_str(), ".bullpen")
}

/// The database under a home directory.
pub fn default_path(home: &str) -> (r: String)
    ensures
        r@ == joined(home@, "bullpen.db"@),
{
    join(home, "bullpen.db")
}

/// The directory a database lives in.
pub open spec fn store_dir(db_path: Seq<char>) -> Seq<char> {
    match parent_of(db_path) {
        Some(p) => p,
        None => "."@,
    }
}

/// The directory a database lives in.
pub fn dir_of(db_path: &str) -> (r: String)
    ensures
        r@ == store_dir(db_path@),
{
    match parent(db_path) {
        Some(p) => p,
        None => ".".to_owned(),
    }
}

} // verus!
