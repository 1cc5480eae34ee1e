//! The database destination's decisions: which SQL runs.  A configured
//! query wins; otherwise insert mode with a table builds the standard
//! insert; anything else is a configuration error.  The mode is upper-cased
//! on construction, so `insert` and `INSERT` read alike.  Executing the SQL
//! is the driver's work, outside this crate.

use vstd::prelude::*;

use crate::bytesutil::{chars_to_string, str_chars, str_eq};
use vstd::string::{StrSliceExecFns, StringExecFns};

verus! {

/// A character with any ASCII small letter capitalized.
pub open spec fn upper_char(c: char) -> char {
    if 97 <= (c as u32) && (c as u32) <= 122 {
        (((c as u32) - 32) as u8) as char
    } else {
        c
    }
}

/// A text with every ASCII small letter capitalized.
pub open spec fn upper_chars_of(s: Seq<char>) -> Seq<char> {
    s.map_values(|c: char| upper_char(c))
}

/// Capitalizes the ASCII small letters of a text.
pub fn to_upper_text(s: &str) -> (r: String)
    ensures
        r@ == upper_chars_of(s@),
{
    let cs = str_chars(s);
    let n = cs.len();
    let mut out: Vec<char> = Vec::new();
    let mut i: usize = 0;
    while i < n
        invariant
            n == cs@.len(),
            cs@ == s@,
            i <= n,
            out@.len() == i,
            forall|j: int| 0 <= j < i ==> out@[j] == upper_char(s@[j]),
        decreases n - i,
    {
        let c = cs[i];
        let u = c as u32;
        if 97 <= u && u <= 122 {
            out.push(((u - 32) as u8) as char);
        } else {
            out.push(c);
        }
        i += 1;
    }
    proof {
        assert(out@ =~= upper_chars_of(s@));
    }
    chars_to_string(out.as_slice())
}

/// The database destination's configuration; the mode is kept upper-cased.
pub struct DatabaseWriter {
    pub url: String,
    pub table: Option<String>,
    pub mode: String,
    pub query: Option<String>,
    pub channel_id: String,
}

impl DatabaseWriter {
    pub fn new(
        url: String,
        table: Option<String>,
        mode: String,
        query: Option<String>,
        channel_id: String,
    ) -> (r: Self)
        ensures
            r.url == url,
            r.table == table,
            r.query == query,
            r.channel_id == channel_id,
            r.mode@ == upper_chars_of(mode@),
    {
        let mode = to_upper_text(mode.as_str());
        DatabaseWriter { url, table, mode, query, channel_id }
    }

    /// The SQL this destination runs, with content and origin as the two
    /// positional parameters: the configured query verbatim; else, in
    /// insert mode with a table, the standard insert; else an error.
    pub fn build_sql(&self) -> (r: Result<String, String>)
        ensures
            match self.query {
                Some(q) => r matches Ok(sql) && sql@ == q@,
                None => match self.table {
                    Some(t) => {
                        if self.mode@ == "INSERT"@ {
                            r matches Ok(sql) && sql@ == "INSERT INTO "@ + t@
                                + " (content, origin, created_at) VALUES ($1, $2, NOW())"@
                        } else {
                            r is Err
                        }
                    },
                    None => r is Err,
                },
            },
    {
        match &self.query {
            Some(q) => Ok(q.clone()),
            None => match &self.table {
                Some(t) => {
                    if str_eq(self.mode.as_str(), "INSERT") {
                        let mut sql = String::from_str("INSERT INTO ");
                        sql.append(t.as_str());
                        sql.append(" (content, origin, created_at) VALUES ($1, $2, NOW())");
                        assert(sql@ =~= "INSERT INTO "@ + t@
                            + " (content, origin, created_at) VALUES ($1, $2, NOW())"@);
                        Ok(sql)
                    } else {
                        Err(String::from_str("Only INSERT mode is supported without a query"))
                    }
                },
                None => Err(String::from_str("No query or table configured")),
            },
        }
    }
}

} // verus!
