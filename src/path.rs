//! Path keys: how request paths, folder entries and archive entries become the
//! normalized `/`-rooted keys under which content is stored.
use vstd::prelude::*;

verus! {

/// The part of a request path before the query string: everything up to the
/// first `?`, or the whole path when it has none.
pub open spec fn path_part(s: Seq<char>) -> Seq<char> {
    if exists|i: int| 0 <= i < s.len() && s[i] == '?' {
        s.take(choose|i: int| 0 <= i < s.len() && s[i] == '?' && forall|j: int| 0 <= j < i ==> s[j] != '?')
    } else {
        s
    }
}

/// The key that a request path is served under: the query string is dropped
/// and a path that ends in `/` names the `index.html` of that directory.
pub open spec fn normalized(s: Seq<char>) -> Seq<char> {
    let p = path_part(s);
    if p.len() > 0 && p.last() == '/' {
        p + "index.html"@
    } else {
        p
    }
}

/// The key of the entry `name` inside the directory whose key is `prefix`.
pub open spec fn child_key_of(prefix: Seq<char>, name: Seq<char>) -> Seq<char> {
    prefix + seq!['/'] + name
}

/// The key of an archive entry: its path without the archive's own leading `.`.
pub open spec fn archive_key_of(raw: Seq<char>) -> Seq<char> {
    if raw.len() > 0 && raw[0] == '.' {
        raw.drop_first()
    } else {
        raw
    }
}

/// Maps the absolute path of a request (query string included) to the key
/// that is looked up.
pub fn normalize_path(uri: &str) -> (r: String)
    ensures
        r@ == normalized(uri@),
{
    let n = uri.unicode_len();
    let mut i: usize = 0;
    while i < n
        invariant
            n == uri@.len(),
            i <= n,
            forall|j: int| 0 <= j < i ==> uri@[j] != '?',
        ensures
            i <= n,
            i < n ==> uri@[i as int] == '?',
            forall|j: int| 0 <= j < i ==> uri@[j] != '?',
        decreases n - i,
    {
        if uri.get_char(i) == '?' {
            break;
        }
        i = i + 1;
    }
    proof {
        let s = uri@;
        if i < n {
            assert(0 <= i < s.len() && s[i as int] == '?' && forall|j: int| 0 <= j < i ==> s[j] != '?');
            let c = choose|k: int| 0 <= k < s.len() && s[k] == '?' && forall|j: int| 0 <= j < k ==> s[j] != '?';
            if c < i {
                assert(s[c] != '?');
            } else if i < c {
                assert(s[i as int] != '?');
            }
            assert(path_part(s) =~= s.take(i as int));
        } else {
            assert(s.take(i as int) =~= s);
            assert(path_part(s) =~= s);
        }
    }
    let head = uri.substring_char(0, i);
    let mut r = String::from_str(head);
    if i > 0 && head.get_char(i - 1) == '/' {
        r.append("index.html");
    }
    r
}

/// The key of a directory entry, built from the key of its directory and the
/// entry's file name.
pub fn child_key(prefix: &str, name: &str) -> (r: String)
    ensures
        r@ == child_key_of(prefix@, name@),
{
    let mut r = String::from_str(prefix);
    r.append("/");
    r.append(name);
    proof {
        reveal_strlit("/");
    }
    r
}

/// The key of an archive entry from the path that the archive gives it
/// (`./css/site.css` becomes `/css/site.css`).
pub fn archive_key(raw: &str) -> (r: String)
    ensures
        r@ == archive_key_of(raw@),
{
    let n = raw.unicode_len();
    if n > 0 && raw.get_char(0) == '.' {
        String::from_str(raw.substring_char(1, n))
    } else {
        String::from_str(raw)
    }
}

} // verus!
