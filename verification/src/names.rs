//! The name conventions the rewriter is built around: the recognized host
//! namespaces, the conventional initializer name, and the marker prefix that
//! identifies an embedded replacement function.

use vstd::prelude::*;

verus! {

/// The primary legacy system-interface namespace.
pub open spec fn preview1_namespace() -> Seq<char> {
    "wasi_snapshot_preview1"@
}

/// The older legacy system-interface namespace.
pub open spec fn unstable_namespace() -> Seq<char> {
    "wasi_unstable"@
}

/// A function import from one of the two recognized namespaces is a candidate
/// for redirection.
pub open spec fn recognized_namespace(ns: Seq<char>) -> bool {
    ns == preview1_namespace() || ns == unstable_namespace()
}

/// The conventional name of the initialization routine.
pub open spec fn init_name() -> Seq<char> {
    "_initialize"@
}

/// The marker prefix that embedded replacement functions carry by default.
pub open spec fn default_marker() -> Seq<char> {
    "__shim_"@
}

/// Whether `ns` is one of the two recognized host namespaces.
pub fn is_recognized_namespace(ns: &String) -> (r: bool)
    ensures
        r == recognized_namespace(ns@),
{
    let p1: String = "wasi_snapshot_preview1".to_owned();
    if p1.eq(ns) {
        return true;
    }
    let pu: String = "wasi_unstable".to_owned();
    pu.eq(ns)
}

/// The initializer name as an owned string.
pub fn init_name_string() -> (r: String)
    ensures
        r@ == init_name(),
{
    "_initialize".to_owned()
}

/// The default marker prefix as an owned string.
pub fn default_marker_string() -> (r: String)
    ensures
        r@ == default_marker(),
{
    "__shim_".to_owned()
}

/// What remains of `n` after removing the prefix `p`, when `p` is a prefix.
pub open spec fn strip_prefix_spec(n: Seq<char>, p: Seq<char>) -> Option<Seq<char>> {
    if p.len() <= n.len() && n.subrange(0, p.len() as int) == p {
        Some(n.subrange(p.len() as int, n.len() as int))
    } else {
        None
    }
}

/// The bare name under the first prefix of `prefixes` that matches `n`, if any.
pub open spec fn strip_first_marker(prefixes: Seq<Seq<char>>, n: Seq<char>) -> Option<Seq<char>>
    decreases prefixes.len(),
{
    if prefixes.len() == 0 {
        None
    } else {
        match strip_prefix_spec(n, prefixes[0]) {
            Some(b) => Some(b),
            None => strip_first_marker(prefixes.drop_first(), n),
        }
    }
}

/// The bare operation name a local function's debug name stands for: the name
/// with the first matching marker prefix removed. A nameless function, or one
/// without any marker prefix, stands for nothing.
pub open spec fn replacement_name(prefixes: Seq<Seq<char>>, name: Option<Seq<char>>) -> Option<
    Seq<char>,
> {
    match name {
        Some(n) => strip_first_marker(prefixes, n),
        None => None,
    }
}

/// Removes the prefix `p` from `n` when it is one.
pub fn strip_prefix(n: &str, p: &str) -> (r: Option<String>)
    ensures
        match r {
            Some(b) => strip_prefix_spec(n@, p@) == Some(b@),
            None => strip_prefix_spec(n@, p@) is None,
        },
{
    let nl = n.unicode_len();
    let pl = p.unicode_len();
    if pl > nl {
        return None;
    }
    let mut i: usize = 0;
    while i < pl
        invariant
            0 <= i <= pl <= nl,
            nl == n@.len(),
            pl == p@.len(),
            forall|j: int| 0 <= j < i ==> n@[j] == p@[j],
        decreases pl - i,
    {
        if n.get_char(i) != p.get_char(i) {
            proof {
                assert(n@.subrange(0, pl as int)[i as int] == n@[i as int]);
            }
            return None;
        }
        i += 1;
    }
    proof {
        assert(n@.subrange(0, pl as int) =~= p@);
    }
    let rest = n.substring_char(pl, nl);
    Some(rest.to_owned())
}

/// All prefixes before index `i` failing to match means the search may start at `i`.
proof fn lemma_strip_first_from(prefixes: Seq<Seq<char>>, n: Seq<char>, i: int)
    requires
        0 <= i <= prefixes.len(),
        forall|j: int| 0 <= j < i ==> strip_prefix_spec(n, #[trigger] prefixes[j]) is None,
    ensures
        strip_first_marker(prefixes, n) == strip_first_marker(prefixes.skip(i), n),
    decreases i,
{
    if i > 0 {
        assert(prefixes.drop_first().skip(i - 1) =~= prefixes.skip(i));
        lemma_strip_first_from(prefixes.drop_first(), n, i - 1);
    } else {
        assert(prefixes.skip(0) =~= prefixes);
    }
}

/// Removes the first matching marker prefix of `prefixes` from `n`.
pub fn strip_marker(prefixes: &Vec<String>, n: &String) -> (r: Option<String>)
    ensures
        match r {
            Some(b) => strip_first_marker(prefixes.deep_view(), n@) == Some(b@),
            None => strip_first_marker(prefixes.deep_view(), n@) is None,
        },
{
    let ghost pfx = prefixes.deep_view();
    let mut i: usize = 0;
    while i < prefixes.len()
        invariant
            0 <= i <= prefixes.len(),
            pfx == prefixes.deep_view(),
            pfx.len() == prefixes.len(),
            forall|j: int| 0 <= j < i ==> strip_prefix_spec(n@, #[trigger] pfx[j]) is None,
        decreases prefixes.len() - i,
    {
        let r = strip_prefix(n.as_str(), prefixes[i].as_str());
        match r {
            Some(b) => {
                proof {
                    lemma_strip_first_from(pfx, n@, i as int);
                    assert(pfx.skip(i as int)[0] == pfx[i as int]);
                }
                return Some(b);
            },
            None => {
                assert(pfx[i as int] == prefixes[i as int].deep_view());
            },
        }
        i += 1;
    }
    proof {
        lemma_strip_first_from(pfx, n@, i as int);
    }
    None
}

} // verus!
