//! Prefixed tool names (`{slug}__{original}`) and the routing of a
//! `tools/call` back to the server that owns the prefix. The router splits on
//! the *first* `__` only, so original names may themselves contain `__`.
use vstd::prelude::*;

use crate::slug::{SlugEntry, no_double_underscore};
use crate::text::{append_str, chars_of, concat, find_chars, first_occurrence, occurs_at, owned, string_from_range};

verus! {

/// The separator between a slug and a tool's own name.
pub open spec fn sep() -> Seq<char> {
    seq!['_', '_']
}

/// `{slug}__{original}`.
pub open spec fn spec_prefixed(slug: Seq<char>, original: Seq<char>) -> Seq<char> {
    slug + sep() + original
}

/// `name.split_once("__")`.
pub open spec fn spec_split(name: Seq<char>) -> Option<(Seq<char>, Seq<char>)> {
    match first_occurrence(name, sep()) {
        Some(i) => Some((name.take(i), name.skip(i + 2))),
        None => None,
    }
}

fn sep_exec() -> (r: Vec<char>)
    ensures
        r@ == sep(),
{
    let mut v: Vec<char> = Vec::new();
    v.push('_');
    v.push('_');
    assert(v@ =~= sep());
    v
}

/// `{slug}__{original}`.
pub fn prefixed_name(slug: &str, original: &str) -> (r: String)
    ensures
        r@ == spec_prefixed(slug@, original@),
{
    let mut r = concat(slug, "__");
    append_str(&mut r, original);
    proof {
        reveal_strlit("__");
        assert("__"@ =~= sep());
    }
    r
}

/// Split a prefixed tool name on its first `__` into slug and original name.
pub fn split_prefixed(name: &str) -> (r: Option<(String, String)>)
    ensures
        match r {
            Some((a, b)) => spec_split(name@) == Some((a@, b@)),
            None => spec_split(name@) is None,
        },
{
    let chars = chars_of(name);
    let pat = sep_exec();
    match find_chars(&chars, &pat) {
        Some(i) => {
            assert(occurs_at(chars@, pat@, i as int));
            assert(pat@.len() == 2);
            assert(i + 2 <= chars.len());
            let a = string_from_range(&chars, 0, i);
            let b = string_from_range(&chars, i + 2, chars.len());
            assert(a@ =~= name@.take(i as int));
            assert(b@ =~= name@.skip(i + 2));
            Some((a, b))
        },
        None => None,
    }
}

/// Law (the router undoes the prefixing): for a slug that holds no `__` and
/// does not end with `_`, splitting `{slug}__{original}` on its first `__`
/// gives back the slug and the original name, even when the original name
/// itself contains `__`.
pub proof fn lemma_split_undoes_prefix(slug: Seq<char>, original: Seq<char>)
    requires
        no_double_underscore(slug),
        slug.len() > 0 ==> slug.last() != '_',
    ensures
        spec_split(spec_prefixed(slug, original)) == Some((slug, original)),
{
    let s = spec_prefixed(slug, original);
    let n = slug.len() as int;
    assert(s.subrange(n, n + 2) =~= sep());
    assert(occurs_at(s, sep(), n));
    assert forall|j: int| 0 <= j < n implies !occurs_at(s, sep(), j) by {
        if occurs_at(s, sep(), j) {
            assert(s.subrange(j, j + 2)[0] == '_' && s.subrange(j, j + 2)[1] == '_');
            assert(s[j] == '_' && s[j + 1] == '_');
            if j + 1 < n {
                assert(slug[j] == '_' && slug[j + 1] == '_');
            } else {
                assert(slug[j] == slug.last());
            }
        }
    }
    crate::text::lemma_first_occurrence(s, sep(), n);
    assert(s.take(n) =~= slug);
    assert(s.skip(n + 2) =~= original);
}

// ---------------------------------------------------------------------------
// Resolving a prefixed name against the slug table
// ---------------------------------------------------------------------------

/// The server id registered last for a slug (a later insert of the same slug
/// replaces an earlier one).
pub open spec fn lookup_slug(table: Seq<(Seq<char>, Seq<char>)>, slug: Seq<char>) -> Option<Seq<char>>
    decreases table.len(),
{
    if table.len() == 0 {
        None
    } else if table.last().1 == slug {
        Some(table.last().0)
    } else {
        lookup_slug(table.drop_last(), slug)
    }
}

/// The server id that owns a slug, if any.
pub fn find_server_for_slug(table: &Vec<SlugEntry>, slug: &String) -> (r: Option<String>)
    ensures
        match r {
            Some(id) => lookup_slug(crate::slug::slug_entries(table@), slug@) == Some(id@),
            None => lookup_slug(crate::slug::slug_entries(table@), slug@) is None,
        },
{
    let ghost t = crate::slug::slug_entries(table@);
    let mut i: usize = table.len();
    assert(t.take(i as int) =~= t);
    while i > 0
        invariant
            t == crate::slug::slug_entries(table@),
            i <= table@.len(),
            lookup_slug(t, slug@) == lookup_slug(t.take(i as int), slug@),
        decreases i,
    {
        let ghost prefix = t.take(i as int);
        assert(prefix.drop_last() =~= t.take(i - 1));
        if table[i - 1].slug == *slug {
            return Some(table[i - 1].server_id.clone());
        }
        i = i - 1;
    }
    None
}

/// Why a `tools/call` could not be routed.
#[derive(Debug)]
pub enum RouteError {
    /// The tool name holds no `__`.
    NoPrefix(String),
    /// No active server owns the prefix.
    NoActiveServer(String),
    /// The owning server is not connected.
    NotConnected(String),
}

impl RouteError {
    /// The message reported to the client.
    pub fn message(&self) -> (r: String)
        ensures
            match self {
                RouteError::NoPrefix(n) => r@ == "tool name '"@ + n@ + "' has no server prefix"@,
                RouteError::NoActiveServer(s) => r@ == "no active server for prefix '"@ + s@ + "'"@,
                RouteError::NotConnected(s) => r@ == "server '"@ + s@ + "' is not connected"@,
            },
    {
        match self {
            RouteError::NoPrefix(n) => {
                let mut m = owned("tool name '");
                append_str(&mut m, n.as_str());
                append_str(&mut m, "' has no server prefix");
                m
            },
            RouteError::NoActiveServer(s) => {
                let mut m = owned("no active server for prefix '");
                append_str(&mut m, s.as_str());
                append_str(&mut m, "'");
                m
            },
            RouteError::NotConnected(s) => {
                let mut m = owned("server '");
                append_str(&mut m, s.as_str());
                append_str(&mut m, "' is not connected");
                m
            },
        }
    }
}

/// Where a `tools/call` goes: the owning server and the name it knows the
/// tool by.
pub struct ToolTarget {
    pub server_id: String,
    pub slug: String,
    pub original: String,
}

/// Route a prefixed tool name: split on the first `__`, then look the slug up.
pub fn resolve_tool(table: &Vec<SlugEntry>, prefixed: &str) -> (r: Result<ToolTarget, RouteError>)
    ensures
        match spec_split(prefixed@) {
            None => r matches Err(RouteError::NoPrefix(n)) && n@ == prefixed@,
            Some((slug, original)) => match lookup_slug(crate::slug::slug_entries(table@), slug) {
                None => r matches Err(RouteError::NoActiveServer(s)) && s@ == slug,
                Some(id) => r matches Ok(t) && t.server_id@ == id && t.slug@ == slug && t.original@
                    == original,
            },
        },
{
    match split_prefixed(prefixed) {
        None => Err(RouteError::NoPrefix(prefixed.to_owned())),
        Some((slug, original)) => match find_server_for_slug(table, &slug) {
            None => Err(RouteError::NoActiveServer(slug)),
            Some(server_id) => Ok(ToolTarget { server_id, slug, original }),
        },
    }
}

/// Law: in a table whose slugs are pairwise distinct, each slug is owned by
/// the server it was assigned to.
pub proof fn lemma_lookup_distinct(table: Seq<(Seq<char>, Seq<char>)>, k: int)
    requires
        0 <= k < table.len(),
        table.map_values(|p: (Seq<char>, Seq<char>)| p.1).no_duplicates(),
    ensures
        lookup_slug(table, table[k].1) == Some(table[k].0),
    decreases table.len(),
{
    let slugs = table.map_values(|p: (Seq<char>, Seq<char>)| p.1);
    if k == table.len() - 1 {
    } else {
        assert(slugs[k] == table[k].1 && slugs[table.len() - 1] == table.last().1);
        assert(table.last().1 != table[k].1);
        assert(table.drop_last().map_values(|p: (Seq<char>, Seq<char>)| p.1) =~= slugs.drop_last());
        lemma_lookup_distinct(table.drop_last(), k);
    }
}

/// Law (routing round trip): in a routing table whose slugs are pairwise
/// distinct, hold no `__` and do not end with `_`, the prefixed name
/// `{slug}__{original}` of any entry splits back into that slug and the
/// original name, and the slug leads back to the entry's server.
pub proof fn lemma_routing_round_trip(table: Seq<(Seq<char>, Seq<char>)>, k: int, original: Seq<char>)
    requires
        0 <= k < table.len(),
        table.map_values(|p: (Seq<char>, Seq<char>)| p.1).no_duplicates(),
        no_double_underscore(table[k].1),
        table[k].1.len() > 0 ==> table[k].1.last() != '_',
    ensures
        spec_split(spec_prefixed(table[k].1, original)) == Some((table[k].1, original)),
        lookup_slug(table, table[k].1) == Some(table[k].0),
{
    lemma_split_undoes_prefix(table[k].1, original);
    lemma_lookup_distinct(table, k);
}

} // verus!
