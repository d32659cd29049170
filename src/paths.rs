//! Locations of the databases under an application data directory.

use vstd::prelude::*;

verus! {

/// `name` placed under the directory `dir`, with one separator between them.
pub open spec fn joined(dir: Seq<char>, name: Seq<char>) -> Seq<char> {
    if dir.len() == 0 {
        name
    } else if dir.last() == '/' {
        dir + name
    } else {
        dir + seq!['/'] + name
    }
}

/// Joins a relative file name onto a directory path.
pub fn join_path(dir: &str, name: &str) -> (r: String)
    ensures
        r@ == joined(dir@, name@),
{
    let n = dir.unicode_len();
    if n == 0 {
        return String::from_str(name);
    }
    let mut r = String::from_str(dir);
    if dir.get_char(n - 1) != '/' {
        proof {
            reveal_strlit("/");
        }
        r.append("/");
    }
    r.append(name);
    r
}

/// Path of the message store inside the data directory.
pub fn get_db_path(data_dir: &str) -> (r: String)
    ensures
        r@ == joined(data_dir@, "signal.db"@),
{
    join_path(data_dir, "signal.db")
}

/// Path of the read-state ledger inside the data directory, a file of its own
/// beside the message store.
pub fn get_read_sync_db_path(data_dir: &str) -> (r: String)
    ensures
        r@ == joined(data_dir@, "read_sync.db"@),
{
    join_path(data_dir, "read_sync.db")
}

} // verus!
