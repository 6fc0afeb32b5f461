//! Tool-name prefixes: a server's display name becomes a slug, and the active
//! servers get pairwise distinct slugs (collisions get a numeric suffix).
use vstd::prelude::*;

use crate::config::{ServerEntry, ServerEntryV, server_views, strs};
use crate::text::{
    append_str, ascii_lower, ascii_lower_exec, chars_of, dec, find_char, first_index_of,
    is_ascii_alnum, is_ascii_alnum_exec, lemma_dec_digits, lemma_dec_injective, owned,
    push_char, push_decimal, string_from_range,
};

verus! {

// ---------------------------------------------------------------------------
// slugify
// ---------------------------------------------------------------------------

/// The slug built so far from a prefix of a name, and whether a separator is
/// pending (a run of non-alphanumerics was seen since the last letter/digit).
pub open spec fn slug_state(s: Seq<char>) -> (Seq<char>, bool)
    decreases s.len(),
{
    if s.len() == 0 {
        (Seq::empty(), false)
    } else {
        let prev = slug_state(s.drop_last());
        let c = s.last();
        if is_ascii_alnum(c) {
            let base = if prev.1 && prev.0.len() > 0 { prev.0.push('_') } else { prev.0 };
            (base.push(ascii_lower(c)), false)
        } else {
            (prev.0, true)
        }
    }
}

/// The slug of a display name: its ASCII letters and digits, lower-cased, with
/// every run of other characters between two of them collapsed into one `_`.
pub open spec fn spec_slugify(s: Seq<char>) -> Seq<char> {
    slug_state(s).0
}

/// Turn a display name into a tool-name-safe slug. Collapses runs of
/// non-alphanumerics into a single `_`, so a slug never contains `__`.
pub fn slugify(name: &str) -> (r: String)
    ensures
        r@ == spec_slugify(name@),
{
    let chars = chars_of(name);
    let mut out = String::new();
    let mut pending_us = false;
    let mut i: usize = 0;
    while i < chars.len()
        invariant
            chars@ == name@,
            i <= chars@.len(),
            (out@, pending_us) == slug_state(chars@.take(i as int)),
        decreases chars@.len() - i,
    {
        let ch = chars[i];
        assert(chars@.take(i + 1).drop_last() =~= chars@.take(i as int));
        if is_ascii_alnum_exec(ch) {
            if pending_us && !out.as_str().is_empty() {
                push_char(&mut out, '_');
            }
            pending_us = false;
            push_char(&mut out, ascii_lower_exec(ch));
        } else {
            pending_us = true;
        }
        i = i + 1;
    }
    assert(chars@.take(chars@.len() as int) =~= chars@);
    out
}

/// A character that may appear in a slug: `a`-`z`, `0`-`9` or `_`.
pub open spec fn slug_char(c: char) -> bool {
    ('a' <= c && c <= 'z') || ('0' <= c && c <= '9') || c == '_'
}

/// No two adjacent underscores.
pub open spec fn no_double_underscore(s: Seq<char>) -> bool {
    forall|i: int| 0 <= i < s.len() - 1 ==> !(#[trigger] s[i] == '_' && s[i + 1] == '_')
}

/// The shape every slug of a name has.
pub open spec fn well_shaped(s: Seq<char>) -> bool {
    &&& forall|i: int| 0 <= i < s.len() ==> slug_char(#[trigger] s[i])
    &&& no_double_underscore(s)
    &&& (s.len() > 0 ==> s[0] != '_' && s.last() != '_')
}

/// The letters and digits of a sequence, in order.
pub open spec fn alnums(s: Seq<char>) -> Seq<char> {
    s.filter(|c: char| is_ascii_alnum(c))
}

/// A slug without its separators.
pub open spec fn non_separators(s: Seq<char>) -> Seq<char> {
    s.filter(|c: char| c != '_')
}

proof fn lemma_slug_state_shape(s: Seq<char>)
    ensures
        well_shaped(slug_state(s).0),
        non_separators(slug_state(s).0) == alnums(s).map_values(|c: char| ascii_lower(c)),
    decreases s.len(),
{
    if s.len() > 0 {
        let prev = slug_state(s.drop_last());
        lemma_slug_state_shape(s.drop_last());
        let c = s.last();
        reveal(Seq::filter);
        assert(s.drop_last().push(c) =~= s);
        if is_ascii_alnum(c) {
            let base = if prev.1 && prev.0.len() > 0 { prev.0.push('_') } else { prev.0 };
            let out = base.push(ascii_lower(c));
            assert(slug_char(ascii_lower(c)));
            assert forall|i: int| 0 <= i < out.len() implies slug_char(#[trigger] out[i]) by {
                if i < prev.0.len() {
                    assert(out[i] == prev.0[i]);
                }
            }
            assert forall|i: int| 0 <= i < out.len() - 1 implies !(#[trigger] out[i] == '_' && out[i + 1] == '_') by {
                if i + 1 < prev.0.len() {
                    assert(out[i] == prev.0[i] && out[i + 1] == prev.0[i + 1]);
                }
            }
            if prev.0.len() > 0 {
                assert(out[0] == prev.0[0]);
            }
            assert(non_separators(base) == non_separators(prev.0)) by {
                if prev.1 && prev.0.len() > 0 {
                    assert(prev.0.push('_').drop_last() =~= prev.0);
                }
            }
            assert(base.push(ascii_lower(c)).drop_last() =~= base);
            assert(alnums(s) == alnums(s.drop_last()).push(c));
            assert(alnums(s).map_values(|c: char| ascii_lower(c)) =~= alnums(s.drop_last()).map_values(
                |c: char| ascii_lower(c),
            ).push(ascii_lower(c)));
        } else {
            assert(alnums(s) == alnums(s.drop_last()));
        }
    }
}

/// Law: every slug consists of `a`-`z`, `0`-`9` and `_`, never holds `__`,
/// neither starts nor ends with `_`, and without its underscores it is exactly
/// the name's ASCII letters and digits, lower-cased, in order.
pub proof fn lemma_slugify_shape(name: Seq<char>)
    ensures
        well_shaped(spec_slugify(name)),
        non_separators(spec_slugify(name)) == alnums(name).map_values(|c: char| ascii_lower(c)),
{
    lemma_slug_state_shape(name);
}

/// `char::to_ascii_uppercase`.
pub open spec fn ascii_upper(c: char) -> char {
    if 'a' <= c && c <= 'z' {
        ((c as u32) - 32) as char
    } else {
        c
    }
}

/// `str::to_ascii_uppercase`.
pub open spec fn upper_v(s: Seq<char>) -> Seq<char> {
    Seq::new(s.len(), |i: int| ascii_upper(s[i]))
}

proof fn lemma_slug_state_upper(s: Seq<char>)
    ensures
        slug_state(upper_v(s)) == slug_state(s),
    decreases s.len(),
{
    if s.len() > 0 {
        lemma_slug_state_upper(s.drop_last());
        assert(upper_v(s).drop_last() =~= upper_v(s.drop_last()));
        let c = s.last();
        assert(upper_v(s).last() == ascii_upper(c));
        assert(is_ascii_alnum(ascii_upper(c)) == is_ascii_alnum(c));
        assert(ascii_lower(ascii_upper(c)) == ascii_lower(c));
    }
}

/// How `slug_state` reads a prefix of a slug: the prefix itself, with a
/// trailing `_` held back as a pending separator.
proof fn lemma_slug_state_of_slug(w: Seq<char>, i: int)
    requires
        well_shaped(w),
        0 <= i <= w.len(),
    ensures
        slug_state(w.take(i)) == (if i == 0 {
            (Seq::<char>::empty(), false)
        } else if w[i - 1] == '_' {
            (w.take(i - 1), true)
        } else {
            (w.take(i), false)
        }),
    decreases i,
{
    if i == 0 {
        assert(w.take(0) =~= Seq::<char>::empty());
    } else {
        lemma_slug_state_of_slug(w, i - 1);
        let p = w.take(i - 1);
        assert(w.take(i).drop_last() =~= p);
        let c = w[i - 1];
        assert(w.take(i).last() == c);
        assert(slug_char(c));
        if c == '_' {
            assert(i - 1 > 0) by {
                if i - 1 == 0 {
                    assert(w[0] == '_');
                }
            }
            assert(w[i - 2] != '_') by {
                assert(!(w[i - 2] == '_' && w[i - 1] == '_'));
            }
            assert(!is_ascii_alnum(c));
        } else {
            assert(is_ascii_alnum(c));
            assert(ascii_lower(c) == c);
            if i - 1 > 0 && w[i - 2] == '_' {
                assert(w.take(i - 2).push('_') =~= p);
                assert(i - 2 > 0) by {
                    if i - 2 == 0 {
                        assert(w[0] == '_');
                    }
                }
            }
            assert(p.push(c) =~= w.take(i));
        }
    }
}

/// Law: a slug is its own slug (slugify is idempotent), and the case of a
/// name's ASCII letters does not matter.
pub proof fn lemma_slugify_idempotent_and_caseless(name: Seq<char>)
    ensures
        spec_slugify(spec_slugify(name)) == spec_slugify(name),
        spec_slugify(upper_v(name)) == spec_slugify(name),
{
    let w = spec_slugify(name);
    lemma_slug_state_shape(name);
    lemma_slug_state_of_slug(w, w.len() as int);
    assert(w.take(w.len() as int) =~= w);
    lemma_slug_state_upper(name);
}

// ---------------------------------------------------------------------------
// Distinct slugs for the active servers
// ---------------------------------------------------------------------------

/// The part of a server id before its first `-` (the whole id if it has none).
pub open spec fn short_id(id: Seq<char>) -> Seq<char> {
    match first_index_of(id, '-') {
        Some(i) => id.take(i),
        None => id,
    }
}

/// The slug a server asks for before collisions are resolved: its name's slug,
/// or `server_{short id}` when the name has no letters or digits.
pub open spec fn base_slug(s: ServerEntryV) -> Seq<char> {
    if spec_slugify(s.name).len() > 0 {
        spec_slugify(s.name)
    } else {
        "server_"@ + short_id(s.id)
    }
}

/// `{base}_{n}`.
pub open spec fn suffixed(base: Seq<char>, n: nat) -> Seq<char> {
    base.push('_') + dec(n)
}

/// `n` is the smallest suffix from 2 on that is still free.
pub open spec fn is_first_free(base: Seq<char>, used: Seq<Seq<char>>, n: nat) -> bool {
    &&& n >= 2
    &&& !used.contains(suffixed(base, n))
    &&& forall|m: nat| 2 <= m < n ==> used.contains(#[trigger] suffixed(base, m))
}

pub open spec fn first_free(base: Seq<char>, used: Seq<Seq<char>>) -> nat {
    choose|n: nat| is_first_free(base, used, n)
}

/// The slug actually assigned: the base if free, else the base with the first
/// free numeric suffix.
pub open spec fn pick_slug(base: Seq<char>, used: Seq<Seq<char>>) -> Seq<char> {
    if !used.contains(base) {
        base
    } else {
        suffixed(base, first_free(base, used))
    }
}

/// The (server id, slug) pairs of the active servers, in config order.
pub open spec fn slug_table(servers: Seq<ServerEntryV>, active: Set<Seq<char>>) -> Seq<(Seq<char>, Seq<char>)>
    decreases servers.len(),
{
    if servers.len() == 0 {
        Seq::empty()
    } else {
        let prev = slug_table(servers.drop_last(), active);
        let s = servers.last();
        if active.contains(s.id) {
            prev.push((s.id, pick_slug(base_slug(s), slugs_of(prev))))
        } else {
            prev
        }
    }
}

/// The slugs of a table.
pub open spec fn slugs_of(t: Seq<(Seq<char>, Seq<char>)>) -> Seq<Seq<char>> {
    t.map_values(|p: (Seq<char>, Seq<char>)| p.1)
}

/// The number of entries of `used` that are `{base}_{k}` for some `k >= n`.
pub open spec fn taken_from(used: Seq<Seq<char>>, base: Seq<char>, n: nat) -> nat
    decreases used.len(),
{
    if used.len() == 0 {
        0
    } else {
        taken_from(used.drop_last(), base, n) + if exists|k: nat| k >= n && used.last() == suffixed(base, k) {
            1nat
        } else {
            0nat
        }
    }
}

proof fn lemma_suffixed_injective(base: Seq<char>, a: nat, b: nat)
    requires
        suffixed(base, a) == suffixed(base, b),
    ensures
        a == b,
{
    let pa = suffixed(base, a);
    let pb = suffixed(base, b);
    assert(pa.subrange(base.len() as int + 1, pa.len() as int) =~= dec(a));
    assert(pb.subrange(base.len() as int + 1, pb.len() as int) =~= dec(b));
    lemma_dec_injective(a, b);
}

proof fn lemma_taken_from(used: Seq<Seq<char>>, base: Seq<char>, n: nat)
    ensures
        taken_from(used, base, n + 1) <= taken_from(used, base, n),
        used.contains(suffixed(base, n)) ==> taken_from(used, base, n + 1) < taken_from(used, base, n),
        taken_from(used, base, n) <= used.len(),
    decreases used.len(),
{
    if used.len() > 0 {
        lemma_taken_from(used.drop_last(), base, n);
        let u = used.last();
        if exists|k: nat| k >= n + 1 && u == suffixed(base, k) {
            let k = choose|k: nat| k >= n + 1 && u == suffixed(base, k);
            assert(k >= n && u == suffixed(base, k));
        }
        if u == suffixed(base, n) {
            assert(exists|k: nat| k >= n && u == suffixed(base, k));
            if exists|k: nat| k >= n + 1 && u == suffixed(base, k) {
                let k = choose|k: nat| k >= n + 1 && u == suffixed(base, k);
                lemma_suffixed_injective(base, k, n);
            }
        }
        if used.contains(suffixed(base, n)) && u != suffixed(base, n) {
            let j = choose|j: int| 0 <= j < used.len() && used[j] == suffixed(base, n);
            assert(used.drop_last()[j] == suffixed(base, n));
        }
    }
}

proof fn lemma_first_free_exists(base: Seq<char>, used: Seq<Seq<char>>, n: nat)
    requires
        n >= 2,
        forall|m: nat| 2 <= m < n ==> used.contains(#[trigger] suffixed(base, m)),
    ensures
        exists|k: nat| is_first_free(base, used, k),
    decreases taken_from(used, base, n),
{
    if !used.contains(suffixed(base, n)) {
        assert(is_first_free(base, used, n));
    } else {
        lemma_taken_from(used, base, n);
        assert forall|m: nat| 2 <= m < n + 1 implies used.contains(#[trigger] suffixed(base, m)) by {}
        lemma_first_free_exists(base, used, n + 1);
    }
}

proof fn lemma_first_free_unique(base: Seq<char>, used: Seq<Seq<char>>, n: nat)
    requires
        is_first_free(base, used, n),
    ensures
        first_free(base, used) == n,
{
    let c = first_free(base, used);
    assert(is_first_free(base, used, c));
    if c < n {
        assert(used.contains(suffixed(base, c)));
    }
    if n < c {
        assert(used.contains(suffixed(base, n)));
    }
}

/// The slug a base gets in the presence of `used`; never one of `used`.
proof fn lemma_pick_slug_fresh(base: Seq<char>, used: Seq<Seq<char>>)
    ensures
        !used.contains(pick_slug(base, used)),
{
    if used.contains(base) {
        lemma_first_free_exists(base, used, 2);
        let k = choose|k: nat| is_first_free(base, used, k);
        lemma_first_free_unique(base, used, k);
    }
}

fn contains_string(v: &Vec<String>, s: &String) -> (r: bool)
    ensures
        r == strs(v@).contains(s@),
{
    let mut i: usize = 0;
    while i < v.len()
        invariant
            i <= v@.len(),
            forall|k: int| 0 <= k < i ==> v@[k]@ != s@,
        decreases v@.len() - i,
    {
        if v[i] == *s {
            assert(strs(v@)[i as int] == s@);
            return true;
        }
        i = i + 1;
    }
    assert forall|k: int| 0 <= k < strs(v@).len() implies strs(v@)[k] != s@ by {
        assert(strs(v@)[k] == v@[k]@);
    }
    false
}

fn suffixed_exec(base: &String, n: u128) -> (r: String)
    ensures
        r@ == suffixed(base@, n as nat),
{
    let mut r = base.clone();
    push_char(&mut r, '_');
    push_decimal(&mut r, n);
    r
}

/// The slug `base` gets when the slugs in `used` are taken.
fn pick_slug_exec(base: &String, used: &Vec<String>) -> (r: String)
    ensures
        r@ == pick_slug(base@, strs(used@)),
{
    let ghost u = strs(used@);
    if !contains_string(used, base) {
        return base.clone();
    }
    let ulen = used.len();
    assert(ulen == u.len());
    let mut n: u128 = 2;
    let mut candidate = suffixed_exec(base, n);
    proof {
        lemma_taken_from(u, base@, 2);
    }
    while contains_string(used, &candidate)
        invariant
            u == strs(used@),
            n >= 2,
            candidate@ == suffixed(base@, n as nat),
            forall|m: nat| 2 <= m < n ==> u.contains(#[trigger] suffixed(base@, m)),
            n - 2 + taken_from(u, base@, n as nat) <= u.len(),
            u.len() == used@.len(),
            u.len() <= usize::MAX,
        decreases taken_from(u, base@, n as nat),
    {
        proof {
            lemma_taken_from(u, base@, n as nat);
        }
        n = n + 1;
        candidate = suffixed_exec(base, n);
        proof {
            lemma_taken_from(u, base@, n as nat);
        }
    }
    proof {
        lemma_first_free_unique(base@, u, n as nat);
    }
    candidate
}

/// The id prefix before the first `-`.
fn short_id_exec(id: &String) -> (r: String)
    ensures
        r@ == short_id(id@),
{
    let chars = chars_of(id.as_str());
    match find_char(&chars, '-') {
        Some(i) => string_from_range(&chars, 0, i),
        None => {
            let r = id.clone();
            r
        },
    }
}

fn base_slug_exec(s: &ServerEntry) -> (r: String)
    ensures
        r@ == base_slug(s@),
{
    let slug = slugify(s.name.as_str());
    if !slug.as_str().is_empty() {
        slug
    } else {
        let mut base = owned("server_");
        let short = short_id_exec(&s.id);
        append_str(&mut base, short.as_str());
        base
    }
}

/// Whether `id` is one of `ids`.
pub fn contains_id(ids: &Vec<String>, id: &String) -> (r: bool)
    ensures
        r == strs(ids@).contains(id@),
{
    contains_string(ids, id)
}

/// A server-id → slug table entry.
pub struct SlugEntry {
    pub server_id: String,
    pub slug: String,
}

pub open spec fn slug_entries(t: Seq<SlugEntry>) -> Seq<(Seq<char>, Seq<char>)> {
    t.map_values(|e: SlugEntry| (e.server_id@, e.slug@))
}

/// Build the server-id → slug table deterministically (config order),
/// resolving collisions with a numeric suffix. Only active servers are
/// included.
pub fn build_slugs(servers: &Vec<ServerEntry>, active: &Vec<String>) -> (r: Vec<SlugEntry>)
    ensures
        slug_entries(r@) == slug_table(server_views(servers@), strs(active@).to_set()),
{
    let ghost act = strs(active@).to_set();
    let mut out: Vec<SlugEntry> = Vec::new();
    let mut used: Vec<String> = Vec::new();
    let mut i: usize = 0;
    while i < servers.len()
        invariant
            act == strs(active@).to_set(),
            i <= servers@.len(),
            slug_entries(out@) == slug_table(server_views(servers@).take(i as int), act),
            strs(used@) == slugs_of(slug_entries(out@)),
        decreases servers@.len() - i,
    {
        let s = &servers[i];
        let ghost sv = server_views(servers@);
        assert(sv.take(i + 1).drop_last() =~= sv.take(i as int));
        assert(sv.take(i + 1).last() == s@);
        if contains_id(active, &s.id) {
            let base = base_slug_exec(s);
            let candidate = pick_slug_exec(&base, &used);
            let ghost prev_entries = slug_entries(out@);
            let ghost old_used = used@;
            let ghost cv = candidate@;
            used.push(candidate.clone());
            out.push(SlugEntry { server_id: s.id.clone(), slug: candidate });
            assert(slug_entries(out@) =~= prev_entries.push((s@.id, cv)));
            assert(strs(used@) =~= strs(old_used).push(cv));
            assert(slugs_of(prev_entries.push((s@.id, cv))) =~= slugs_of(prev_entries).push(cv));
        }
        i = i + 1;
    }
    assert(server_views(servers@).take(servers@.len() as int) =~= server_views(servers@));
    out
}

/// Law: the slugs of the table are pairwise distinct.
pub proof fn lemma_slugs_distinct(servers: Seq<ServerEntryV>, active: Set<Seq<char>>)
    ensures
        slugs_of(slug_table(servers, active)).no_duplicates(),
    decreases servers.len(),
{
    if servers.len() > 0 {
        lemma_slugs_distinct(servers.drop_last(), active);
        let prev = slug_table(servers.drop_last(), active);
        let s = servers.last();
        if active.contains(s.id) {
            let p = pick_slug(base_slug(s), slugs_of(prev));
            lemma_pick_slug_fresh(base_slug(s), slugs_of(prev));
            assert(slugs_of(prev.push((s.id, p))) =~= slugs_of(prev).push(p));
        }
    }
}

/// Law: the table has exactly one entry per active server, in config order:
/// its ids are those of the active servers.
pub proof fn lemma_slug_table_ids(servers: Seq<ServerEntryV>, active: Set<Seq<char>>)
    ensures
        slug_table(servers, active).map_values(|p: (Seq<char>, Seq<char>)| p.0) == servers.filter(
            |s: ServerEntryV| active.contains(s.id),
        ).map_values(|s: ServerEntryV| s.id),
    decreases servers.len(),
{
    reveal(Seq::filter);
    if servers.len() > 0 {
        lemma_slug_table_ids(servers.drop_last(), active);
        let prev = slug_table(servers.drop_last(), active);
        let s = servers.last();
        assert(servers.drop_last().push(s) =~= servers);
        if active.contains(s.id) {
            let p = pick_slug(base_slug(s), slugs_of(prev));
            assert(prev.push((s.id, p)).map_values(|p: (Seq<char>, Seq<char>)| p.0) =~= prev.map_values(
                |p: (Seq<char>, Seq<char>)| p.0,
            ).push(s.id));
            assert(servers.filter(|s: ServerEntryV| active.contains(s.id)).map_values(|s: ServerEntryV| s.id)
                =~= servers.drop_last().filter(|s: ServerEntryV| active.contains(s.id)).map_values(
                |s: ServerEntryV| s.id,
            ).push(s.id));
        }
    }
}

/// Law: a base slug that is not yet taken is assigned as it is; and when the
/// base holds no `__`, is not empty and does not end with `_`, neither does
/// the slug assigned from it, suffixed or not (so prefixing with it can be
/// undone, see `routing`).
pub proof fn lemma_slug_shape_of_named(base: Seq<char>, used: Seq<Seq<char>>)
    requires
        no_double_underscore(base),
        base.len() > 0,
        base.last() != '_',
    ensures
        no_double_underscore(pick_slug(base, used)),
        pick_slug(base, used).len() > 0,
        pick_slug(base, used).last() != '_',
        !used.contains(base) ==> pick_slug(base, used) == base,
{
    if used.contains(base) {
        let n = first_free(base, used);
        let p = suffixed(base, n);
        lemma_dec_digits(n);
        crate::text::lemma_dec_len(n);
        assert forall|i: int| 0 <= i < p.len() - 1 implies !(#[trigger] p[i] == '_' && p[i + 1] == '_') by {
            if i + 1 < base.len() {
                assert(p[i] == base[i] && p[i + 1] == base[i + 1]);
            } else if i + 1 == base.len() {
                assert(p[i] == base[i]);
                assert(base[i] == base.last());
            } else {
                let bp = base.push('_');
                assert(p == bp + dec(n));
                assert(p[i + 1] == dec(n)[i + 1 - bp.len()]);
            }
        }
        assert(p.last() == dec(n)[dec(n).len() - 1]);
    }
}

/// A short id that can follow `server_` in a slug: not empty, and with no
/// `_` at either end and no `__` inside.
pub open spec fn usable_short_id(short: Seq<char>) -> bool {
    &&& short.len() > 0
    &&& short[0] != '_'
    &&& short.last() != '_'
    &&& no_double_underscore(short)
}

/// A server whose slug can be routed back: its name has letters or digits,
/// or its short id is usable.
pub open spec fn routable_server(s: ServerEntryV) -> bool {
    spec_slugify(s.name).len() > 0 || usable_short_id(short_id(s.id))
}

/// Law: the slug a routable server is assigned, named or not and whatever
/// slugs are taken already, holds no `__` and neither is empty nor ends with
/// `_` (so prefixing with it can be undone).
pub proof fn lemma_assigned_slug_shape(s: ServerEntryV, used: Seq<Seq<char>>)
    requires
        routable_server(s),
    ensures
        no_double_underscore(pick_slug(base_slug(s), used)),
        pick_slug(base_slug(s), used).len() > 0,
        pick_slug(base_slug(s), used).last() != '_',
{
    if spec_slugify(s.name).len() > 0 {
        lemma_slugify_shape(s.name);
        lemma_slug_shape_of_named(spec_slugify(s.name), used);
    } else {
        reveal_strlit("server_");
        let short = short_id(s.id);
        let b = "server_"@ + short;
        assert(b.last() == short.last());
        assert forall|i: int| 0 <= i < b.len() - 1 implies !(#[trigger] b[i] == '_' && b[i + 1] == '_') by {
            if i + 1 < 7 {
                assert(b[i] == "server_"@[i] && b[i + 1] == "server_"@[i + 1]);
            } else if i + 1 == 7 {
                assert(b[i + 1] == short[0]);
            } else {
                assert(b[i] == short[i - 7] && b[i + 1] == short[i - 6]);
            }
        }
        lemma_slug_shape_of_named(b, used);
    }
}

/// Law: in the slug table of the active servers, where every active server
/// is routable, every slug holds no `__`, is not empty and does not end with
/// `_`.
pub proof fn lemma_slug_table_routable(servers: Seq<ServerEntryV>, active: Set<Seq<char>>, k: int)
    requires
        forall|i: int| 0 <= i < servers.len() && active.contains(servers[i].id) ==> routable_server(#[trigger] servers[i]),
        0 <= k < slug_table(servers, active).len(),
    ensures
        no_double_underscore(slug_table(servers, active)[k].1),
        slug_table(servers, active)[k].1.len() > 0,
        slug_table(servers, active)[k].1.last() != '_',
    decreases servers.len(),
{
    let prev = slug_table(servers.drop_last(), active);
    let last = servers.last();
    if k < prev.len() {
        assert forall|i: int| 0 <= i < servers.drop_last().len() && active.contains(servers.drop_last()[i].id) implies routable_server(
            #[trigger] servers.drop_last()[i],
        ) by {
            assert(servers.drop_last()[i] == servers[i]);
        }
        lemma_slug_table_routable(servers.drop_last(), active, k);
        if active.contains(last.id) {
            assert(slug_table(servers, active)[k] == prev[k]);
        }
    } else {
        assert(servers[servers.len() - 1] == last);
        lemma_assigned_slug_shape(last, slugs_of(prev));
    }
}

} // verus!
