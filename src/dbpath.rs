use vstd::prelude::*;

verus! {

/// The file name that the database gets inside the user's data directory.
pub const DEFAULT_DB_NAME: &'static str = "mood.db";

/// The index just past the last `/` of `s`, or zero where `s` holds none.
pub open spec fn name_start(s: Seq<char>) -> nat
    decreases s.len(),
{
    if s.len() == 0 {
        0
    } else if s.last() == '/' {
        s.len()
    } else {
        name_start(s.drop_last())
    }
}

/// `s` ends in a component `.`, which names the directory before it.
pub open spec fn ends_in_current_dir(s: Seq<char>) -> bool {
    s.len() > 0 && s.last() == '.' && (s.len() == 1 || s[s.len() - 2] == '/')
}

/// The last component of a path: trailing separators and `.` components are
/// passed over; a path that ends in `..`, or has no component left, has none.
pub open spec fn file_name(s: Seq<char>) -> Option<Seq<char>>
    decreases s.len(),
{
    if s.len() == 0 {
        None
    } else if s.last() == '/' || ends_in_current_dir(s) {
        file_name(s.drop_last())
    } else {
        let c = s.subrange(name_start(s) as int, s.len() as int);
        if c == seq!['.', '.'] {
            None
        } else {
            Some(c)
        }
    }
}

/// The index of the last `.` of `c`, or `-1` where it holds none.
pub open spec fn last_dot(c: Seq<char>) -> int
    decreases c.len(),
{
    if c.len() == 0 {
        -1
    } else if c.last() == '.' {
        c.len() - 1
    } else {
        last_dot(c.drop_last())
    }
}

/// What follows the last `.` of the file name, where that `.` is not its first character.
pub open spec fn extension(s: Seq<char>) -> Option<Seq<char>> {
    match file_name(s) {
        None => None,
        Some(c) => if last_dot(c) <= 0 {
            None
        } else {
            Some(c.subrange(last_dot(c) + 1, c.len() as int))
        },
    }
}

/// The path that joining the relative name `n` onto `d` gives: a separator goes
/// between them unless `d` is empty or already ends in one.
pub open spec fn join_name(d: Seq<char>, n: Seq<char>) -> Seq<char> {
    if d.len() == 0 || d.last() == '/' {
        d + n
    } else {
        d + seq!['/'] + n
    }
}

proof fn lemma_name_start_bound(s: Seq<char>)
    ensures
        name_start(s) <= s.len(),
        s.len() > 0 && s.last() != '/' ==> name_start(s) < s.len(),
    decreases s.len(),
{
    if s.len() > 0 && s.last() != '/' {
        lemma_name_start_bound(s.drop_last());
    }
}

/// Copies the characters of `text` into a vector.
fn chars_of(text: &str) -> (r: Vec<char>)
    ensures
        r@ == text@,
{
    let n = text.unicode_len();
    let mut r: Vec<char> = Vec::new();
    let mut i: usize = 0;
    while i < n
        invariant
            n == text@.len(),
            i <= n,
            r@ == text@.subrange(0, i as int),
        decreases n - i,
    {
        r.push(text.get_char(i));
        i = i + 1;
        assert(r@ =~= text@.subrange(0, i as int));
    }
    assert(r@ =~= text@);
    r
}

/// Where the last component of `cs` lies, as `(start, end)`.
fn file_name_span(cs: &Vec<char>) -> (r: Option<(usize, usize)>)
    ensures
        match r {
            None => file_name(cs@) is None,
            Some((a, b)) => a < b <= cs@.len() && file_name(cs@) == Some(cs@.subrange(a as int, b as int)),
        },
{
    let ghost s = cs@;
    let mut end: usize = cs.len();
    assert(s.subrange(0, end as int) =~= s);
    while end > 0 && (cs[end - 1] == '/' || (cs[end - 1] == '.' && (end == 1 || cs[end - 2] == '/')))
        invariant
            s == cs@,
            end <= s.len(),
            file_name(s.subrange(0, end as int)) == file_name(s),
        decreases end,
    {
        assert(s.subrange(0, end as int).drop_last() =~= s.subrange(0, end - 1));
        end = end - 1;
    }
    if end == 0 {
        return None;
    }
    let ghost p = s.subrange(0, end as int);
    let mut start: usize = end;
    while start > 0 && cs[start - 1] != '/'
        invariant
            s == cs@,
            start <= end <= s.len(),
            p == s.subrange(0, end as int),
            name_start(p) == name_start(s.subrange(0, start as int)),
        decreases start,
    {
        assert(s.subrange(0, start as int).drop_last() =~= s.subrange(0, start - 1));
        start = start - 1;
    }
    proof {
        lemma_name_start_bound(p);
        if start > 0 {
            assert(s.subrange(0, start as int).last() == '/');
        }
    }
    assert(name_start(p) == start);
    let ghost c = s.subrange(start as int, end as int);
    assert(p.subrange(start as int, end as int) =~= c);
    if end - start == 2 && cs[start] == '.' && cs[start + 1] == '.' {
        assert(c =~= seq!['.', '.']);
        None
    } else {
        assert(c != seq!['.', '.']);
        Some((start, end))
    }
}

/// Where the extension of `cs` lies, as `(start, end)`.
fn extension_span(cs: &Vec<char>) -> (r: Option<(usize, usize)>)
    ensures
        match r {
            None => extension(cs@) is None,
            Some((x, y)) => x <= y <= cs@.len() && extension(cs@) == Some(cs@.subrange(x as int, y as int)),
        },
{
    let ghost s = cs@;
    match file_name_span(cs) {
        None => None,
        Some((a, b)) => {
            let ghost c = s.subrange(a as int, b as int);
            let mut i: usize = b;
            while i > a && cs[i - 1] != '.'
                invariant
                    s == cs@,
                    a <= i <= b <= s.len(),
                    c == s.subrange(a as int, b as int),
                    last_dot(c) == last_dot(s.subrange(a as int, i as int)),
                decreases i,
            {
                assert(s.subrange(a as int, i as int).drop_last() =~= s.subrange(a as int, i - 1));
                i = i - 1;
            }
            if i == a {
                assert(s.subrange(a as int, i as int).len() == 0);
                None
            } else if i - 1 == a {
                assert(last_dot(c) == 0);
                None
            } else {
                assert(last_dot(c) == i - 1 - a);
                assert(c.subrange(i - a, c.len() as int) =~= s.subrange(i as int, b as int));
                Some((i, b))
            }
        },
    }
}

/// The extension of the path's file name, if it has one.
pub fn path_extension(path: &str) -> (r: Option<String>)
    ensures
        match r {
            None => extension(path@) is None,
            Some(e) => extension(path@) == Some(e@),
        },
{
    let cs = chars_of(path);
    match extension_span(&cs) {
        None => None,
        Some((x, y)) => Some(path.substring_char(x, y).to_string()),
    }
}

/// Why a path cannot hold the mood database.
#[derive(Clone, Debug, PartialEq, Eq)]
pub enum DbPathError {
    /// The file name has an extension other than `db`; it is kept.
    InvalidExtension(String),
    /// The file name has no extension.
    MissingExtension,
}

/// The text that reports a refused database path.
pub open spec fn dbpath_message(e: DbPathError) -> Seq<char> {
    match e {
        DbPathError::InvalidExtension(x) => "invalid dbpath. invalid extension `."@ + x@ + "` use .db"@,
        DbPathError::MissingExtension => "invalid dbpath. `.db` extension not found"@,
    }
}

impl DbPathError {
    pub fn message(&self) -> (r: String)
        ensures
            r@ == dbpath_message(*self),
    {
        match self {
            DbPathError::InvalidExtension(x) => {
                let mut r = "invalid dbpath. invalid extension `.".to_string();
                r.append(x.as_str());
                r.append("` use .db");
                r
            },
            DbPathError::MissingExtension => "invalid dbpath. `.db` extension not found".to_string(),
        }
    }
}

/// Accepts a path whose file name has the extension `db`, and hands it back.
pub fn validate_dbpath(path: &str) -> (r: Result<String, DbPathError>)
    ensures
        match extension(path@) {
            None => r == Err::<String, DbPathError>(DbPathError::MissingExtension),
            Some(e) => if e == seq!['d', 'b'] {
                r matches Ok(p) && p@ == path@
            } else {
                r matches Err(DbPathError::InvalidExtension(x)) && x@ == e
            },
        },
{
    let cs = chars_of(path);
    match extension_span(&cs) {
        None => Err(DbPathError::MissingExtension),
        Some((x, y)) => {
            let ghost e = cs@.subrange(x as int, y as int);
            if y - x == 2 && cs[x] == 'd' && cs[x + 1] == 'b' {
                assert(e =~= seq!['d', 'b']);
                Ok(path.to_string())
            } else {
                assert(e != seq!['d', 'b']) by {
                    let db = seq!['d', 'b'];
                    assert(db.len() == 2 && db[0] == 'd' && db[1] == 'b');
                    if e == db {
                        assert(e[0] == cs@[x as int] && e[1] == cs@[x + 1]);
                    }
                }
                Err(DbPathError::InvalidExtension(path.substring_char(x, y).to_string()))
            }
        },
    }
}

/// The default database path inside the data directory `data_dir`.
pub fn default_dbpath(data_dir: &str) -> (r: String)
    ensures
        r@ == join_name(data_dir@, DEFAULT_DB_NAME@),
{
    let n = data_dir.unicode_len();
    let mut r = data_dir.to_string();
    if n > 0 && data_dir.get_char(n - 1) != '/' {
        r.append("/");
    }
    r.append(DEFAULT_DB_NAME);
    proof {
        reveal_strlit("/");
    }
    r
}

/// The database path: the one given, else the default inside `data_dir`, else none.
pub fn resolve_dbpath(dbpath: Option<String>, data_dir: Option<String>) -> (r: Option<String>)
    ensures
        match dbpath {
            Some(p) => r == Some(p),
            None => match data_dir {
                Some(d) => r matches Some(q) && q@ == join_name(d@, DEFAULT_DB_NAME@),
                None => r is None,
            },
        },
{
    match dbpath {
        Some(p) => Some(p),
        None => match data_dir {
            Some(d) => Some(default_dbpath(d.as_str())),
            None => None,
        },
    }
}

/// Relies on `dirs::data_dir`: the user's data directory, if the platform names one.
/// A directory whose name is not UTF-8 counts as none.
#[verifier::external_body]
fn user_data_dir() -> (r: Option<String>) {
    dirs::data_dir().and_then(|p| p.to_str().map(|t| t.to_string()))
}

/// The database path: the one given, else the default inside the user's data
/// directory, else none. The data directory is only looked up where no path is given.
pub fn dbpath_or_default(dbpath: Option<String>) -> (r: Option<String>)
    ensures
        dbpath is Some ==> r == dbpath,
        dbpath is None ==> (r matches Some(q) ==> exists|d: Seq<char>| q@ == join_name(d, DEFAULT_DB_NAME@)),
{
    match dbpath {
        Some(p) => Some(p),
        None => {
            let d = user_data_dir();
            resolve_dbpath(None, d)
        },
    }
}

/// A path that ends in `.db`, where the `.` does not begin the file name, has the
/// extension `db`, so `validate_dbpath` accepts it.
pub proof fn lemma_db_suffix_accepted(t: Seq<char>)
    requires
        t.len() > 0,
        t.last() != '/',
    ensures
        extension(t + ".db"@) == Some(seq!['d', 'b']),
{
    reveal_strlit(".db");
    let s = t + ".db"@;
    let s1 = s.drop_last();
    let s2 = s1.drop_last();
    assert(s2.drop_last() =~= t);
    assert(s.last() == 'b' && s1.last() == 'd' && s2.last() == '.');
    lemma_name_start_bound(t);
    let k = name_start(t);
    assert(name_start(s2) == k);
    assert(name_start(s1) == k);
    assert(name_start(s) == k);
    assert(!ends_in_current_dir(s));
    let c = s.subrange(k as int, s.len() as int);
    assert(c.len() >= 4);
    assert(c != seq!['.', '.']) by {
        if c == seq!['.', '.'] {
            assert(c.len() == 2);
        }
    }
    assert(file_name(s) == Some(c));
    let c1 = c.drop_last();
    let c2 = c1.drop_last();
    assert(c1.last() == 'd' && c.last() == 'b' && c2.last() == '.');
    assert(last_dot(c2) == c2.len() - 1);
    assert(last_dot(c1) == c2.len() - 1);
    assert(last_dot(c) == c.len() - 3);
    assert(c.subrange(c.len() - 2, c.len() as int) =~= seq!['d', 'b']);
}

} // verus!
