//! Where the pairing keys are kept.
use vstd::prelude::*;
use vstd::string::*;

verus! {

/// Appends the relative path `rel` to `dir` as a Unix path join does: with a
/// `/` between them unless `dir` is empty or already ends in one.
pub open spec fn join_path(dir: Seq<char>, rel: Seq<char>) -> Seq<char> {
    if dir.len() > 0 && dir.last() != '/' {
        dir + "/"@ + rel
    } else {
        dir + rel
    }
}

/// The directory under the home directory (or `.` without one) that holds
/// the pairing store by default.
pub open spec fn default_store_dir(home: Option<Seq<char>>) -> Seq<char> {
    let base = match home {
        Some(h) => h,
        None => "."@,
    };
    join_path(base, "Library/Application Support/chorus/airplay"@)
}

/// The pairing store file: `<store-dir>/pairings.json`, the directory being
/// `--store` when given, else the default one.
pub open spec fn pairings_path_spec(store: Option<Seq<char>>, home: Option<Seq<char>>) -> Seq<
    char,
> {
    let dir = match store {
        Some(s) => s,
        None => default_store_dir(home),
    };
    join_path(dir, "pairings.json"@)
}

/// A string's characters, if it is there.
pub open spec fn opt_chars(s: Option<&str>) -> Option<Seq<char>> {
    match s {
        Some(t) => Some(t@),
        None => None,
    }
}

fn join(dir: &str, rel: &str) -> (r: String)
    ensures
        r@ == join_path(dir@, rel@),
{
    let n = dir.unicode_len();
    let mut r = String::from_str(dir);
    if n > 0 && dir.get_char(n - 1) != '/' {
        r.append("/");
    }
    r.append(rel);
    r
}

/// Default pairing-store file: `<store>/pairings.json`, the directory
/// defaulting to `<home>/Library/Application Support/chorus/airplay`, and
/// `home` to `.` when there is none.
pub fn pairings_path(store: Option<&str>, home: Option<&str>) -> (p: String)
    ensures
        p@ == pairings_path_spec(opt_chars(store), opt_chars(home)),
{
    match store {
        Some(s) => join(s, "pairings.json"),
        None => {
            let base = match home {
                Some(h) => h,
                None => ".",
            };
            let dir = join(base, "Library/Application Support/chorus/airplay");
            join(dir.as_str(), "pairings.json")
        },
    }
}

/// With `--store` given, the pairing keys are in `pairings.json` right in
/// that directory, whatever the home directory: the path is the directory,
/// a `/` unless it is empty or already ends in one, then `pairings.json`.
pub proof fn lemma_store_given(s: Seq<char>, home: Option<Seq<char>>)
    ensures
        pairings_path_spec(Some(s), home) == if s.len() > 0 && s[s.len() - 1] != '/' {
            s + "/pairings.json"@
        } else {
            s + "pairings.json"@
        },
{
    reveal_strlit("/");
    reveal_strlit("pairings.json");
    reveal_strlit("/pairings.json");
    assert("/"@ + "pairings.json"@ =~= "/pairings.json"@);
    assert(s + "/"@ + "pairings.json"@ =~= s + "/pairings.json"@);
}

/// Without `--store`, the pairing keys are under the home directory (`.`
/// without one), in `Library/Application Support/chorus/airplay`.
pub proof fn lemma_store_default(home: Option<Seq<char>>)
    ensures
        ({
            let h = match home {
                Some(h) => h,
                None => "."@,
            };
            pairings_path_spec(None, home) == if h.len() > 0 && h[h.len() - 1] != '/' {
                h + "/Library/Application Support/chorus/airplay/pairings.json"@
            } else {
                h + "Library/Application Support/chorus/airplay/pairings.json"@
            }
        }),
{
    reveal_strlit("/");
    reveal_strlit(".");
    reveal_strlit("pairings.json");
    reveal_strlit("Library/Application Support/chorus/airplay");
    reveal_strlit("/Library/Application Support/chorus/airplay/pairings.json");
    reveal_strlit("Library/Application Support/chorus/airplay/pairings.json");
    let h = match home {
        Some(h) => h,
        None => "."@,
    };
    let dir = default_store_dir(home);
    assert(dir.len() > 0);
    assert(dir.last() == 'y');
    if h.len() > 0 && h[h.len() - 1] != '/' {
        assert(dir + "/"@ + "pairings.json"@ =~= h
            + "/Library/Application Support/chorus/airplay/pairings.json"@);
    } else {
        assert(dir + "/"@ + "pairings.json"@ =~= h
            + "Library/Application Support/chorus/airplay/pairings.json"@);
    }
}

/// A given string is passed on as its characters.
pub proof fn lemma_opt_chars(s: Option<&str>)
    ensures
        s matches Some(t) ==> opt_chars(s) == Some(t@),
        s is None ==> opt_chars(s) is None,
{
}

} // verus!
