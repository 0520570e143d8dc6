use vstd::prelude::*;
use vstd::string::*;

verus! {

/// The prefix that marks a self-contained data URL.
pub open spec fn data_prefix() -> Seq<char> {
    seq!['d', 'a', 't', 'a', ':']
}

/// Whether `s` begins with `p`.
pub open spec fn starts_with(s: Seq<char>, p: Seq<char>) -> bool {
    p.len() <= s.len() && s.subrange(0, p.len() as int) == p
}

/// Whether `uri` is a data URL rather than a path.
pub fn is_data_url(uri: &str) -> (r: bool)
    ensures
        r == starts_with(uri@, data_prefix()),
{
    let n = uri.unicode_len();
    if n < 5 {
        return false;
    }
    let r = uri.get_char(0) == 'd' && uri.get_char(1) == 'a' && uri.get_char(2) == 't'
        && uri.get_char(3) == 'a' && uri.get_char(4) == ':';
    proof {
        if r {
            assert(uri@.subrange(0, 5) =~= data_prefix());
        } else if uri@.subrange(0, 5) == data_prefix() {
            assert(uri@.subrange(0, 5)[0] == 'd');
            assert(uri@.subrange(0, 5)[1] == 'a');
            assert(uri@.subrange(0, 5)[2] == 't');
            assert(uri@.subrange(0, 5)[3] == 'a');
            assert(uri@.subrange(0, 5)[4] == ':');
        }
    }
    r
}

/// Position of the last '/' in `s`, or -1 where there is none.
pub open spec fn last_slash(s: Seq<char>) -> int
    decreases s.len(),
{
    if s.len() == 0 {
        -1
    } else if s.last() == '/' {
        s.len() - 1
    } else {
        last_slash(s.drop_last())
    }
}

/// The directory that contains `path`: everything before its last '/', or nothing.
pub open spec fn parent_of(path: Seq<char>) -> Seq<char> {
    if last_slash(path) < 0 {
        Seq::empty()
    } else {
        path.subrange(0, last_slash(path))
    }
}

/// `uri` read relative to the directory `base`.
pub open spec fn joined(base: Seq<char>, uri: Seq<char>) -> Seq<char> {
    if base.len() == 0 {
        uri
    } else {
        base + seq!['/'] + uri
    }
}

/// Where a URI found in a document points: a data URL stands for itself,
/// anything else is a path relative to the document's directory.
pub open spec fn resolved(base: Seq<char>, uri: Seq<char>) -> Seq<char> {
    if starts_with(uri, data_prefix()) {
        uri
    } else {
        joined(base, uri)
    }
}

proof fn lemma_last_slash_bounds(s: Seq<char>)
    ensures
        -1 <= last_slash(s) < s.len(),
    decreases s.len(),
{
    if s.len() > 0 && s.last() != '/' {
        lemma_last_slash_bounds(s.drop_last());
    }
}

/// The directory that contains `path`.
pub fn parent_dir(path: &str) -> (r: String)
    ensures
        r@ == parent_of(path@),
{
    proof {
        lemma_last_slash_bounds(path@);
    }
    let n = path.unicode_len();
    let mut i: usize = n;
    assert(path@.subrange(0, n as int) =~= path@);
    while i > 0
        invariant
            i <= n,
            n == path@.len(),
            last_slash(path@) == last_slash(path@.subrange(0, i as int)),
        decreases i,
    {
        if path.get_char(i - 1) == '/' {
            assert(path@.subrange(0, i as int).last() == '/');
            return path.substring_char(0, i - 1).to_string();
        }
        assert(path@.subrange(0, i as int).drop_last() =~= path@.subrange(0, i - 1));
        i = i - 1;
    }
    assert(path@.subrange(0, 0) =~= Seq::<char>::empty());
    String::new()
}

/// `uri` read relative to the directory `base`.
pub fn join_path(base: &str, uri: &str) -> (r: String)
    ensures
        r@ == joined(base@, uri@),
{
    if base.unicode_len() == 0 {
        uri.to_string()
    } else {
        let mut r = base.to_string();
        r.append("/");
        r.append(uri);
        proof {
            reveal_strlit("/");
        }
        r
    }
}

/// The key under which the target of a document URI is stored.
pub fn resolve_uri(base: &str, uri: &str) -> (r: String)
    ensures
        r@ == resolved(base@, uri@),
{
    if is_data_url(uri) {
        uri.to_string()
    } else {
        join_path(base, uri)
    }
}

} // verus!
