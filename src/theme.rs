//! The theme environment's logic: when to rebuild it, what to register in
//! it, and the directory listings that templates ask for.
use vstd::prelude::*;

use crate::cache::{CacheEntry, ShardedLruCache, SHARDS};
use crate::paths::extension_of;
use crate::text::chars_of;

verus! {

// ---------------------------------------------------------------------
// Fingerprints

pub open spec fn rotl5(h: u64) -> u64 {
    (h << 5u64) | (h >> 59u64)
}

pub open spec fn rotl3(h: u64) -> u64 {
    (h << 3u64) | (h >> 61u64)
}

pub const FX_SEED: u64 = 0x517cc1b727220a95;

/// One word mixed into a running hash: rotate, exclusive-or, multiply.
pub open spec fn fx_mix(h: u64, w: u64) -> u64 {
    (rotl5(h) ^ w).wrapping_mul(FX_SEED)
}

pub open spec fn max_of(s: Seq<u64>) -> u64
    decreases s.len(),
{
    if s.len() == 0 {
        0
    } else if s.last() > max_of(s.drop_last()) {
        s.last()
    } else {
        max_of(s.drop_last())
    }
}

/// The fingerprint of a theme directory from the modification times (in
/// seconds) of its regular files: the latest time and the file count,
/// mixed into one word.
pub open spec fn theme_fingerprint_spec(mtimes: Seq<u64>) -> u64 {
    fx_mix(fx_mix(0, max_of(mtimes)), mtimes.len() as u64)
}

/// Computes `theme_fingerprint_spec`.
pub fn theme_fingerprint(mtimes: &Vec<u64>) -> (r: u64)
    ensures
        r == theme_fingerprint_spec(mtimes@),
{
    let mut m: u64 = 0;
    let mut i: usize = 0;
    while i < mtimes.len()
        invariant
            i <= mtimes.len(),
            m == max_of(mtimes@.take(i as int)),
        decreases mtimes.len() - i,
    {
        assert(mtimes@.take(i + 1).drop_last() == mtimes@.take(i as int));
        if mtimes[i] > m {
            m = mtimes[i];
        }
        i = i + 1;
    }
    assert(mtimes@.take(mtimes@.len() as int) == mtimes@);
    let h1 = (((0u64 << 5) | (0u64 >> 59)) ^ m).wrapping_mul(FX_SEED);
    (((h1 << 5) | (h1 >> 59)) ^ (mtimes.len() as u64)).wrapping_mul(FX_SEED)
}

/// The fingerprint of a directory listing from each Markdown file's
/// modification time (in seconds) and length, in the order read:
/// rotate-exclusive-or-add.
pub open spec fn dir_fingerprint_spec(files: Seq<(u64, u64)>) -> u64
    decreases files.len(),
{
    if files.len() == 0 {
        0
    } else {
        (rotl3(dir_fingerprint_spec(files.drop_last())) ^ files.last().0).wrapping_add(files.last().1)
    }
}

/// Computes `dir_fingerprint_spec`.
pub fn dir_fingerprint(files: &Vec<(u64, u64)>) -> (r: u64)
    ensures
        r == dir_fingerprint_spec(files@),
{
    let mut h: u64 = 0;
    let mut i: usize = 0;
    while i < files.len()
        invariant
            i <= files.len(),
            h == dir_fingerprint_spec(files@.take(i as int)),
        decreases files.len() - i,
    {
        assert(files@.take(i + 1).drop_last() == files@.take(i as int));
        let (mtime, len) = files[i];
        h = (((h << 3) | (h >> 61)) ^ mtime).wrapping_add(len);
        i = i + 1;
    }
    assert(files@.take(files@.len() as int) == files@);
    h
}

// ---------------------------------------------------------------------
// Theme state

/// The theme environment in use and the fingerprint it was built for.
pub struct ThemeState<E> {
    fingerprint: u64,
    env: E,
}

impl<E> ThemeState<E> {
    pub closed spec fn fingerprint(&self) -> u64 {
        self.fingerprint
    }

    pub closed spec fn env(&self) -> E {
        self.env
    }

    pub fn new(fingerprint: u64, env: E) -> (r: Self)
        ensures
            r.fingerprint() == fingerprint,
            r.env() == env,
    {
        ThemeState { fingerprint, env }
    }

    /// The environment, when it was built for `fingerprint`.
    pub fn current(&self, fingerprint: u64) -> (r: Option<&E>)
        ensures
            r is Some <==> self.fingerprint() == fingerprint,
            r matches Some(e) ==> *e == self.env(),
    {
        if self.fingerprint == fingerprint {
            Some(&self.env)
        } else {
            None
        }
    }

    /// Puts a rebuilt environment in place. With caching on, the page cache
    /// is emptied: its pages were rendered with the old templates.
    pub fn replace(&mut self, fingerprint: u64, env: E, page_cache: &mut ShardedLruCache, caching_enabled: bool)
        requires
            old(page_cache).well_formed(),
        ensures
            final(self).fingerprint() == fingerprint,
            final(self).env() == env,
            final(page_cache).well_formed(),
            caching_enabled ==> final(page_cache).shards_view() == Seq::new(
                SHARDS as nat,
                |i: int| Seq::<(Seq<char>, CacheEntry)>::empty(),
            ),
            caching_enabled ==> forall|k: Seq<char>| #[trigger] final(page_cache).lookup(k) is None,
            !caching_enabled ==> *final(page_cache) == *old(page_cache),
    {
        self.fingerprint = fingerprint;
        self.env = env;
        if caching_enabled {
            page_cache.clear();
            assert forall|k: Seq<char>| #[trigger] page_cache.lookup(k) is None by {
                crate::cache::lemma_shard_of_bounds(k);
            }
        }
    }
}

// ---------------------------------------------------------------------
// What a theme registers

pub open spec fn index_alias_source() -> Seq<char> {
    "index.html"@
}

/// The templates a theme directory provides: each regular file under its
/// own name, `index.html` once more as `index`; a directory that cannot be
/// read provides only an `index` that prints the page content.
pub open spec fn theme_templates_spec(files: Seq<(Seq<char>, Seq<char>)>, readable: bool) -> Seq<(Seq<char>, Seq<char>)>
    decreases files.len(),
{
    if !readable {
        seq![("index"@, "{{ content|safe }}"@)]
    } else if files.len() == 0 {
        Seq::empty()
    } else {
        let (name, body) = files.last();
        theme_templates_spec(files.drop_last(), true) + if name == index_alias_source() {
            seq![(name, body), ("index"@, body)]
        } else {
            seq![(name, body)]
        }
    }
}

pub open spec fn pairs_view(v: Seq<(String, String)>) -> Seq<(Seq<char>, Seq<char>)> {
    Seq::new(v.len(), |i: int| (v[i].0@, v[i].1@))
}

/// The templates to register for a theme directory (see
/// `theme_templates_spec`), given its regular files as (name, text).
pub fn theme_templates(files: Vec<(String, String)>, readable: bool) -> (r: Vec<(String, String)>)
    ensures
        pairs_view(r@) == theme_templates_spec(pairs_view(files@), readable),
{
    let mut out: Vec<(String, String)> = Vec::new();
    if !readable {
        out.push(("index".to_string(), "{{ content|safe }}".to_string()));
        assert(pairs_view(out@) =~= seq![("index"@, "{{ content|safe }}"@)]);
        return out;
    }
    let alias = chars_of("index.html");
    let mut i: usize = 0;
    while i < files.len()
        invariant
            i <= files.len(),
            alias@ == index_alias_source(),
            pairs_view(out@) == theme_templates_spec(pairs_view(files@).take(i as int), true),
        decreases files.len() - i,
    {
        let ghost fv = pairs_view(files@);
        assert(fv.take(i + 1).drop_last() == fv.take(i as int));
        assert(fv.take(i + 1).last() == (files@[i as int].0@, files@[i as int].1@));
        let name = files[i].0.clone();
        let body = files[i].1.clone();
        let nc = chars_of(name.as_str());
        let mut same = nc.len() == alias.len();
        let mut k: usize = 0;
        while same && k < nc.len()
            invariant
                k <= nc.len(),
                same ==> nc.len() == alias.len(),
                same ==> forall|j: int| 0 <= j < k ==> nc@[j] == alias@[j],
                !same ==> nc@ != alias@,
            decreases nc.len() - k,
        {
            if nc[k] != alias[k] {
                same = false;
            }
            k = k + 1;
        }
        if same {
            assert(nc@ =~= alias@);
        }
        let ghost before = pairs_view(out@);
        if same {
            let body2 = body.clone();
            out.push((name, body));
            out.push(("index".to_string(), body2));
            assert(pairs_view(out@) =~= before + seq![
                (files@[i as int].0@, files@[i as int].1@),
                ("index"@, files@[i as int].1@),
            ]);
        } else {
            out.push((name, body));
            assert(pairs_view(out@) =~= before + seq![(files@[i as int].0@, files@[i as int].1@)]);
        }
        i = i + 1;
    }
    assert(pairs_view(files@).take(files@.len() as int) == pairs_view(files@));
    out
}

// ---------------------------------------------------------------------
// Directory listings

/// A directory entry takes part in a listing when its extension is `md`.
pub fn is_listing_entry(name: &str) -> (r: bool)
    ensures
        r == (extension_of(name@) == Some("md"@)),
{
    let p = chars_of(name);
    match crate::paths::extension_exec(&p) {
        Some(e) => {
            proof {
                reveal_strlit("md");
                if e@.len() == 2 && e@[0] == 'm' && e@[1] == 'd' {
                    assert(e@ =~= "md"@);
                }
            }
            e.len() == 2 && e[0] == 'm' && e[1] == 'd'
        },
        None => false,
    }
}

/// The URL of a listed document: the directory itself for its `index`,
/// else the directory and the file's stem.
pub open spec fn listing_url_spec(dir: Seq<char>, stem: Seq<char>) -> Seq<char> {
    if stem == "index"@ {
        "/"@ + dir + "/"@
    } else {
        "/"@ + dir + "/"@ + stem
    }
}

pub fn listing_url(dir: &str, stem: &str) -> (r: String)
    ensures
        r@ == listing_url_spec(dir@, stem@),
{
    let sc = chars_of(stem);
    proof {
        reveal_strlit("index");
    }
    let is_index = sc.len() == 5 && sc[0] == 'i' && sc[1] == 'n' && sc[2] == 'd' && sc[3] == 'e' && sc[4] == 'x';
    proof {
        if is_index {
            assert(sc@ =~= "index"@);
        }
    }
    let mut s = String::new();
    s.append("/");
    s.append(dir);
    s.append("/");
    if !is_index {
        s.append(stem);
    }
    s
}

/// `a` sorts after `b` as strings do: by code point, a proper prefix first.
pub open spec fn lex_greater(a: Seq<char>, b: Seq<char>) -> bool
    decreases a.len(),
{
    if a.len() == 0 {
        false
    } else if b.len() == 0 {
        true
    } else if a[0] != b[0] {
        a[0] > b[0]
    } else {
        lex_greater(a.drop_first(), b.drop_first())
    }
}

proof fn lemma_lex_total(a: Seq<char>, b: Seq<char>)
    ensures
        a == b || lex_greater(a, b) || lex_greater(b, a),
        !(lex_greater(a, b) && lex_greater(b, a)),
        !lex_greater(a, a),
    decreases a.len(),
{
    if a.len() > 0 && b.len() > 0 {
        lemma_lex_total(a.drop_first(), b.drop_first());
        if a[0] == b[0] && a.drop_first() == b.drop_first() {
            assert forall|i: int| 0 <= i < a.len() implies a[i] == b[i] by {
                if i > 0 {
                    assert(a[i] == a.drop_first()[i - 1]);
                    assert(b[i] == b.drop_first()[i - 1]);
                }
            }
            assert(a =~= b);
        }
    } else if a.len() == 0 && b.len() == 0 {
        assert(a =~= b);
    }
    if a.len() > 0 {
        lemma_lex_total(a.drop_first(), a.drop_first());
    }
}

fn lex_greater_exec(a: &Vec<char>, b: &Vec<char>) -> (r: bool)
    ensures
        r == lex_greater(a@, b@),
{
    let mut k: usize = 0;
    assert(a@.skip(0) == a@ && b@.skip(0) == b@);
    while k < a.len() && k < b.len() && a[k] == b[k]
        invariant
            k <= a.len(),
            k <= b.len(),
            lex_greater(a@, b@) == lex_greater(a@.skip(k as int), b@.skip(k as int)),
        decreases a.len() - k,
    {
        assert(a@.skip(k as int).drop_first() == a@.skip(k + 1));
        assert(b@.skip(k as int).drop_first() == b@.skip(k + 1));
        k = k + 1;
    }
    if k == a.len() {
        false
    } else if k == b.len() {
        true
    } else {
        a[k] > b[k]
    }
}

/// Entry `i` comes before entry `j` in a listing: a later date first, and
/// equal dates in the order read.
pub open spec fn listed_before(dates: Seq<Seq<char>>, i: int, j: int) -> bool {
    lex_greater(dates[i], dates[j]) || (dates[i] == dates[j] && i < j)
}

pub open spec fn strings_view(v: Seq<String>) -> Seq<Seq<char>> {
    Seq::new(v.len(), |i: int| v[i]@)
}

/// The order of a listing: every entry once, newest date first (dates
/// compared as strings, which orders ISO 8601 dates by time), ties in the
/// order read.
pub open spec fn is_listing_order(dates: Seq<Seq<char>>, order: Seq<usize>) -> bool {
    &&& order.len() == dates.len()
    &&& forall|k: int| 0 <= k < order.len() ==> #[trigger] order[k] < dates.len()
    &&& forall|a: int, b: int| 0 <= a < b < order.len() ==> order[a] != order[b]
    &&& forall|k: int|
        0 <= k < order.len() - 1 ==> listed_before(dates, #[trigger] order[k] as int, order[k + 1] as int)
}

proof fn lemma_insert_keeps_order(dv: Seq<Seq<char>>, old_order: Seq<usize>, order: Seq<usize>, n: int, p: int)
    requires
        0 <= p <= old_order.len() == n,
        order == old_order.insert(p, n as usize),
        n < usize::MAX,
        forall|k: int| 0 <= k < n ==> #[trigger] old_order[k] < n,
        forall|a: int, b: int| 0 <= a < b < n ==> old_order[a] != old_order[b],
        forall|k: int| 0 <= k < n - 1 ==> listed_before(dv, #[trigger] old_order[k] as int, old_order[k + 1] as int),
        p > 0 ==> listed_before(dv, old_order[p - 1] as int, n),
        p < n ==> listed_before(dv, n, old_order[p] as int),
    ensures
        forall|k: int| 0 <= k < n + 1 ==> #[trigger] order[k] < n + 1,
        forall|a: int, b: int| 0 <= a < b < n + 1 ==> order[a] != order[b],
        forall|k: int| 0 <= k < n ==> listed_before(dv, #[trigger] order[k] as int, order[k + 1] as int),
{
    assert forall|k: int| 0 <= k < n implies listed_before(dv, #[trigger] order[k] as int, order[k + 1] as int) by {
        if k + 1 < p {
            assert(order[k] == old_order[k] && order[k + 1] == old_order[k + 1]);
        } else if k + 1 == p {
            assert(order[k] == old_order[k] && order[k + 1] == n);
        } else if k == p {
            assert(order[k] == n && order[k + 1] == old_order[k]);
        } else {
            assert(order[k] == old_order[k - 1] && order[k + 1] == old_order[k]);
        }
    }
    assert forall|a: int, b: int| 0 <= a < b < n + 1 implies order[a] != order[b] by {
        let ia = if a < p { a } else if a == p { -1 } else { a - 1 };
        let ib = if b < p { b } else if b == p { -1 } else { b - 1 };
        if ia >= 0 {
            assert(order[a] == old_order[ia]);
        }
        if ib >= 0 {
            assert(order[b] == old_order[ib]);
        }
    }
    assert forall|k: int| 0 <= k < n + 1 implies #[trigger] order[k] < n + 1 by {
        if k < p {
            assert(order[k] == old_order[k]);
        } else if k > p {
            assert(order[k] == old_order[k - 1]);
        }
    }
}

/// Orders listing entries by their dates (see `is_listing_order`).
pub fn order_by_date_desc(dates: &Vec<String>) -> (r: Vec<usize>)
    ensures
        is_listing_order(strings_view(dates@), r@),
{
    let ghost dv = strings_view(dates@);
    let mut keys: Vec<Vec<char>> = Vec::new();
    let mut i: usize = 0;
    while i < dates.len()
        invariant
            i <= dates.len(),
            keys@.len() == i,
            forall|k: int| 0 <= k < i ==> #[trigger] keys@[k]@ == dates@[k]@,
        decreases dates.len() - i,
    {
        keys.push(chars_of(dates[i].as_str()));
        i = i + 1;
    }
    let mut order: Vec<usize> = Vec::new();
    let mut n: usize = 0;
    while n < dates.len()
        invariant
            n <= dates.len(),
            dv == strings_view(dates@),
            keys@.len() == dates@.len(),
            forall|k: int| 0 <= k < keys@.len() ==> #[trigger] keys@[k]@ == dv[k],
            order@.len() == n,
            forall|k: int| 0 <= k < n ==> #[trigger] order@[k] < n,
            forall|a: int, b: int| 0 <= a < b < n ==> order@[a] != order@[b],
            forall|k: int| 0 <= k < n - 1 ==> listed_before(dv, #[trigger] order@[k] as int, order@[k + 1] as int),
        decreases dates.len() - n,
    {
        let mut p: usize = 0;
        while p < order.len() && !lex_greater_exec(&keys[n], &keys[order[p]])
            invariant
                p <= order.len(),
                order@.len() == n,
                n < keys@.len(),
                forall|k: int| 0 <= k < n ==> #[trigger] order@[k] < n,
                forall|k: int| 0 <= k < p ==> !lex_greater(dv[n as int], dv[#[trigger] order@[k] as int]),
                forall|k: int| 0 <= k < keys@.len() ==> #[trigger] keys@[k]@ == dv[k],
            decreases order.len() - p,
        {
            p = p + 1;
        }
        let ghost old_order = order@;
        proof {
            if p > 0 {
                let q = old_order[p - 1] as int;
                lemma_lex_total(dv[n as int], dv[q]);
                assert(listed_before(dv, q, n as int));
            }
            if p < old_order.len() {
                assert(lex_greater(dv[n as int], dv[old_order[p as int] as int]));
                assert(listed_before(dv, n as int, old_order[p as int] as int));
            }
        }
        order.insert(p, n);
        assert(order@ == old_order.insert(p as int, n));
        proof {
            lemma_insert_keeps_order(dv, old_order, order@, n as int, p as int);
        }
        n = n + 1;
    }
    order
}

} // verus!
