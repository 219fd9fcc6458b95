use vstd::prelude::*;
use vstd::string::*;

verus! {

/// Connection string of the SQLite database stored at `database_path`.
pub fn database_url(database_path: &str) -> (r: String)
    ensures
        r@ == "sqlite:"@ + database_path@,
{
    let mut url = String::from_str("sqlite:");
    url.append(database_path);
    url
}

} // verus!
