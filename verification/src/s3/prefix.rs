//! Destination-prefix inference: local paths are normalized into
//! segments, a preview prefix is derived offline, and a cached shallow
//! bucket listing is searched for a better existing match.

use vstd::prelude::*;
use vstd::string::StringExecFns;
use crate::text::{
    chars_contain, chars_eq, chars_join, chars_last_index_of, chars_lower, chars_replace,
    chars_split, chars_subrange, chars_to_string, chars_eq_str, join_with, last_index_of,
    lower_seq, replace_char, split_on, str_to_chars, trim_chars, trim_leading,
    trim_left_if, trim_right_if, trim_spaces,
};
use crate::text::trim_trailing;
use crate::utils::spec_file_name;
use crate::utils::{file_name_of, relative_to, spec_relative_to};
use crate::text::seq_starts_with;

verus! {

/// One bucket's cached prefix listing: the prefixes seen on the bucket,
/// and the moment (in seconds) the listing was taken.
pub struct PrefixCache {
    pub prefixes: Vec<String>,
    pub cache_time: u64,
}

/// The key a prefix is looked up under: the prefix without its closing
/// separators.
pub open spec fn lookup_key(p: Seq<char>) -> Seq<char> {
    trim_right_if(p, |c: char| c == '/')
}

/// The key a listed prefix is stored under: the prefix without leading
/// or closing separators.
pub open spec fn stored_key(p: Seq<char>) -> Seq<char> {
    trim_left_if(trim_right_if(p, |c: char| c == '/'), |c: char| c == '/')
}

/// Whether a cache entry must be refreshed before it is read: there is
/// none, or its listing is older than the time-to-live allows.
pub open spec fn spec_needs_refresh(
    entry: Option<PrefixCache>,
    now: u64,
    ttl_secs: u64,
) -> bool {
    match entry {
        Option::None => true,
        Option::Some(e) => now >= e.cache_time && now - e.cache_time > ttl_secs,
    }
}

impl PrefixCache {
    /// An empty cache entry stamped with the given moment.
    pub fn new(now: u64) -> (c: Self)
        ensures
            c.prefixes@.len() == 0,
            c.cache_time == now,
    {
        PrefixCache { prefixes: Vec::new(), cache_time: now }
    }

    /// Whether the entry's listing is older than the time-to-live
    /// allows, seen from the given moment.
    pub fn is_expired(&self, now: u64, ttl_secs: u64) -> (r: bool)
        ensures
            r == (now >= self.cache_time && now - self.cache_time > ttl_secs),
    {
        now >= self.cache_time && now - self.cache_time > ttl_secs
    }

    /// Whether the cache holds the prefix, compared under its lookup
    /// key.
    #[verifier::loop_isolation(false)]
    pub fn contains_prefix(&self, prefix: &str) -> (r: bool)
        ensures
            r == self.prefixes.deep_view().contains(lookup_key(prefix@)),
    {
        let chars = str_to_chars(prefix);
        let key = trim_trailing(&chars, '/');
        let mut i: usize = 0;
        while i < self.prefixes.len()
            invariant
                i <= self.prefixes@.len(),
                key@ == lookup_key(prefix@),
                forall|j: int|
                    0 <= j < i ==> #[trigger] self.prefixes.deep_view()[j] != key@,
            decreases self.prefixes@.len() - i,
        {
            let entry = str_to_chars(self.prefixes[i].as_str());
            proof {
                assert(self.prefixes.deep_view()[i as int] == self.prefixes@[i as int]@);
            }
            if chars_eq(&entry, &key) {
                return true;
            }
            i = i + 1;
        }
        false
    }
}

/// Decides whether a lookup may read the entry as it stands or must
/// first take one fresh listing.
pub fn needs_refresh(entry: Option<&PrefixCache>, now: u64, ttl_secs: u64) -> (r: bool)
    ensures
        r == spec_needs_refresh(
            match entry {
                Option::Some(e) => Option::Some(*e),
                Option::None => Option::None,
            },
            now,
            ttl_secs,
        ),
{
    match entry {
        Option::None => true,
        Option::Some(e) => e.is_expired(now, ttl_secs),
    }
}

/// The stored keys of the listing's directory-like prefixes, in order.
pub open spec fn spec_cp_keys(cps: Seq<Seq<char>>) -> Seq<Seq<char>>
    decreases cps.len(),
{
    if cps.len() == 0 {
        Seq::<Seq<char>>::empty()
    } else {
        spec_cp_keys(cps.drop_last()).push(stored_key(cps.last()))
    }
}

/// The stored keys of the parent folders of the listing's object keys:
/// for each key holding a separator, everything before its last one.
pub open spec fn spec_obj_parents(keys: Seq<Seq<char>>) -> Seq<Seq<char>>
    decreases keys.len(),
{
    if keys.len() == 0 {
        Seq::<Seq<char>>::empty()
    } else {
        let rest = spec_obj_parents(keys.drop_last());
        let k = keys.last();
        let i = last_index_of(k, '/');
        if i >= 0 {
            rest.push(stored_key(k.take(i)))
        } else {
            rest
        }
    }
}

/// Builds a fresh cache entry out of one shallow bucket listing: the
/// common prefixes and the parent folders of the listed objects, each
/// stored without surrounding separators, stamped with the given moment.
#[verifier::loop_isolation(false)]
pub fn refresh_from_listing(
    common_prefixes: &Vec<String>,
    object_keys: &Vec<String>,
    now: u64,
) -> (c: PrefixCache)
    ensures
        c.cache_time == now,
        c.prefixes.deep_view() == spec_cp_keys(common_prefixes.deep_view())
            + spec_obj_parents(object_keys.deep_view()),
{
    let mut out: Vec<String> = Vec::new();
    let mut i: usize = 0;
    proof {
        assert(common_prefixes.deep_view().take(0) =~= Seq::<Seq<char>>::empty());
        assert(out.deep_view() =~= spec_cp_keys(common_prefixes.deep_view().take(0)));
    }
    while i < common_prefixes.len()
        invariant
            i <= common_prefixes@.len(),
            out.deep_view() == spec_cp_keys(common_prefixes.deep_view().take(i as int)),
        decreases common_prefixes@.len() - i,
    {
        let ghost prev = out.deep_view();
        let chars = str_to_chars(common_prefixes[i].as_str());
        let t = trim_trailing(&chars, '/');
        let t2 = trim_leading(&t, '/');
        out.push(chars_to_string(&t2));
        proof {
            assert(common_prefixes.deep_view().take(i + 1).drop_last()
                =~= common_prefixes.deep_view().take(i as int));
            assert(common_prefixes.deep_view().take(i + 1).last()
                == common_prefixes.deep_view()[i as int]);
            assert(common_prefixes.deep_view()[i as int] == common_prefixes@[i as int]@);
            assert(out.deep_view() =~~= prev.push(t2@));
        }
        i = i + 1;
    }
    proof {
        assert(common_prefixes.deep_view().take(common_prefixes@.len() as int)
            =~= common_prefixes.deep_view());
    }
    let ghost cp_done = out.deep_view();
    let mut j: usize = 0;
    proof {
        assert(object_keys.deep_view().take(0) =~= Seq::<Seq<char>>::empty());
        assert(cp_done + spec_obj_parents(object_keys.deep_view().take(0)) =~= cp_done);
    }
    while j < object_keys.len()
        invariant
            j <= object_keys@.len(),
            out.deep_view() == cp_done + spec_obj_parents(
                object_keys.deep_view().take(j as int),
            ),
        decreases object_keys@.len() - j,
    {
        let ghost prev = out.deep_view();
        let key = str_to_chars(object_keys[j].as_str());
        proof {
            assert(object_keys.deep_view().take(j + 1).drop_last()
                =~= object_keys.deep_view().take(j as int));
            assert(object_keys.deep_view().take(j + 1).last()
                == object_keys.deep_view()[j as int]);
            assert(object_keys.deep_view()[j as int] == object_keys@[j as int]@);
        }
        match chars_last_index_of(&key, '/') {
            Option::Some(idx) => {
                let parent = chars_subrange(&key, 0, idx);
                let t = trim_trailing(&parent, '/');
                let t2 = trim_leading(&t, '/');
                out.push(chars_to_string(&t2));
                proof {
                    assert(key@.take(idx as int) =~= key@.subrange(0, idx as int));
                    assert(out.deep_view() =~~= prev.push(t2@));
                    assert(out.deep_view() =~= cp_done + spec_obj_parents(
                        object_keys.deep_view().take(j + 1),
                    ));
                }
            },
            Option::None => {
                proof {
                    assert(out.deep_view() =~= cp_done + spec_obj_parents(
                        object_keys.deep_view().take(j + 1),
                    ));
                }
            },
        }
        j = j + 1;
    }
    proof {
        assert(object_keys.deep_view().take(object_keys@.len() as int)
            =~= object_keys.deep_view());
    }
    PrefixCache { prefixes: out, cache_time: now }
}

/// Whether a trimmed path segment reads as one of the generic home,
/// user or system folder names that would make a meaningless prefix.
pub open spec fn blocked_segment(t: Seq<char>) -> bool {
    let l = lower_seq(t);
    ||| l == "users"@
    ||| l == "home"@
    ||| l == "desktop"@
    ||| l == "documents"@
    ||| l == "downloads"@
    ||| l == "appdata"@
    ||| l == "local"@
    ||| l == "temp"@
    ||| l == "admin"@
}

/// Whether a trimmed path segment survives normalization: it is not
/// empty, carries no drive marker, and is not a generic folder name.
pub open spec fn keep_segment(t: Seq<char>) -> bool {
    t.len() > 0 && !t.contains(':') && !blocked_segment(t)
}

/// The surviving segments of a segment list, each trimmed.
pub open spec fn normalized_parts_of(parts: Seq<Seq<char>>) -> Seq<Seq<char>>
    decreases parts.len(),
{
    if parts.len() == 0 {
        Seq::<Seq<char>>::empty()
    } else {
        let rest = normalized_parts_of(parts.drop_last());
        let t = trim_spaces(parts.last());
        if keep_segment(t) {
            rest.push(t)
        } else {
            rest
        }
    }
}

/// How a local path is normalized for prefix inference: backslashes
/// become separators, the path is split on them, and each segment is
/// trimmed; empty segments, drive markers and generic folder names are
/// dropped.
pub open spec fn spec_normalize_path_parts(path: Seq<char>) -> Seq<Seq<char>> {
    normalized_parts_of(split_on(replace_char(path, '\\', '/'), '/'))
}

fn blocked_segment_exec(t: &Vec<char>) -> (r: bool)
    ensures
        r == blocked_segment(t@),
{
    let l = chars_lower(t);
    chars_eq_str(&l, "users") || chars_eq_str(&l, "home") || chars_eq_str(&l, "desktop")
        || chars_eq_str(&l, "documents") || chars_eq_str(&l, "downloads") || chars_eq_str(
        &l,
        "appdata",
    ) || chars_eq_str(&l, "local") || chars_eq_str(&l, "temp") || chars_eq_str(&l, "admin")
}

/// Breaks a local path into the segments its inferred prefix may use.
#[verifier::loop_isolation(false)]
pub fn normalize_path_parts(path: &str) -> (r: Vec<String>)
    ensures
        r.deep_view() == spec_normalize_path_parts(path@),
{
    let chars = str_to_chars(path);
    let normalized = chars_replace(&chars, '\\', '/');
    let parts = chars_split(&normalized, '/');
    let mut out: Vec<String> = Vec::new();
    let mut i: usize = 0;
    proof {
        assert(parts.deep_view().take(0) =~= Seq::<Seq<char>>::empty());
    }
    while i < parts.len()
        invariant
            i <= parts@.len(),
            out.deep_view() == normalized_parts_of(parts.deep_view().take(i as int)),
        decreases parts@.len() - i,
    {
        let ghost prev = out.deep_view();
        let t = trim_chars(&parts[i]);
        proof {
            assert(parts.deep_view().take(i + 1).drop_last() =~= parts.deep_view().take(
                i as int,
            ));
            assert(parts.deep_view().take(i + 1).last() == parts.deep_view()[i as int]);
            assert(parts.deep_view()[i as int] == parts@[i as int]@);
        }
        if t.len() > 0 && !chars_contain(&t, ':') && !blocked_segment_exec(&t) {
            out.push(chars_to_string(&t));
            proof {
                assert(out.deep_view() =~~= prev.push(t@));
            }
        }
        i = i + 1;
    }
    proof {
        assert(parts.deep_view().take(parts@.len() as int) =~= parts.deep_view());
    }
    out
}

/// The offline preview prefix of a local path: its last one to three
/// normalized segments joined by separators, or the path's bare file
/// name when normalization leaves nothing.
pub open spec fn spec_preview_prefix(path: Seq<char>) -> Seq<char> {
    let parts = spec_normalize_path_parts(path);
    if parts.len() == 0 {
        spec_file_name(path)
    } else if parts.len() >= 3 {
        join_with(parts.skip(parts.len() - 3), seq!['/'])
    } else {
        join_with(parts, seq!['/'])
    }
}

/// Derives the offline preview prefix of a local path.
pub fn get_preview_prefix(path: &str) -> (r: String)
    ensures
        r@ == spec_preview_prefix(path@),
{
    let parts = normalize_path_parts(path);
    let n = parts.len();
    if n == 0 {
        let chars = str_to_chars(path);
        let name = file_name_of(&chars);
        return chars_to_string(&name);
    }
    let start: usize = if n >= 3 {
        n - 3
    } else {
        0
    };
    let mut tail: Vec<Vec<char>> = Vec::new();
    let mut i: usize = start;
    proof {
        assert(tail.deep_view() =~= parts.deep_view().subrange(
            start as int,
            start as int,
        ));
    }
    while i < n
        invariant
            n == parts@.len(),
            start <= i <= n,
            tail.deep_view() == parts.deep_view().subrange(start as int, i as int),
        decreases n - i,
    {
        let ghost prev = tail.deep_view();
        tail.push(str_to_chars(parts[i].as_str()));
        i = i + 1;
        proof {
            assert(tail.deep_view() =~~= prev.push(parts.deep_view()[i - 1]));
            assert(tail.deep_view() =~= parts.deep_view().subrange(start as int, i as int));
        }
    }
    let mut sep: Vec<char> = Vec::new();
    sep.push('/');
    let joined = chars_join(&tail, &sep);
    proof {
        assert(sep@ =~= seq!['/']);
        if n >= 3 {
            assert(parts.deep_view().subrange(n - 3, n as int) =~= parts.deep_view().skip(
                n - 3,
            ));
        } else {
            assert(parts.deep_view().subrange(0, n as int) =~= parts.deep_view());
        }
    }
    chars_to_string(&joined)
}

/// The raw candidate segments of a path: the separator-split pieces that
/// are not empty and carry no drive marker. Unlike normalization, this
/// keeps generic folder names, so an existing bucket prefix can still be
/// matched under them.
pub open spec fn raw_parts_of(parts: Seq<Seq<char>>) -> Seq<Seq<char>>
    decreases parts.len(),
{
    if parts.len() == 0 {
        Seq::<Seq<char>>::empty()
    } else {
        let rest = raw_parts_of(parts.drop_last());
        let p = parts.last();
        if p.len() > 0 && !p.contains(':') {
            rest.push(p)
        } else {
            rest
        }
    }
}

pub open spec fn spec_candidate_parts(path: Seq<char>) -> Seq<Seq<char>> {
    raw_parts_of(split_on(replace_char(path, '\\', '/'), '/'))
}

/// Whether a single-segment candidate may be taken over the preview: it
/// may when the preview is itself a single segment, or when the
/// candidate is one of the preview's own segments; an unrelated
/// single-word folder on the bucket is rejected.
pub open spec fn single_segment_ok(candidate: Seq<char>, preview: Seq<char>) -> bool {
    !preview.contains('/') || split_on(preview, '/').contains(candidate)
}

/// The most specific suffix of the candidate segments that the cache
/// knows, subject to the single-segment rule; the preview when none
/// matches.
pub open spec fn spec_best_from(
    parts: Seq<Seq<char>>,
    i: int,
    entries: Seq<Seq<char>>,
    preview: Seq<char>,
) -> Seq<char>
    decreases parts.len() - i
        when 0 <= i <= parts.len()
{
    if i < 0 || i >= parts.len() {
        preview
    } else {
        let cand = join_with(parts.skip(i), seq!['/']);
        if entries.contains(lookup_key(cand)) && (parts.len() - i > 1 || single_segment_ok(
            cand,
            preview,
        )) {
            cand
        } else {
            spec_best_from(parts, i + 1, entries, preview)
        }
    }
}

/// What the resolver returns for a path against a cache state.
pub open spec fn spec_best_prefix(path: Seq<char>, entries: Seq<Seq<char>>) -> Seq<char> {
    spec_best_from(spec_candidate_parts(path), 0, entries, spec_preview_prefix(path))
}

#[verifier::loop_isolation(false)]
fn candidate_parts(path: &str) -> (r: Vec<Vec<char>>)
    ensures
        r.deep_view() == spec_candidate_parts(path@),
{
    let chars = str_to_chars(path);
    let normalized = chars_replace(&chars, '\\', '/');
    let parts = chars_split(&normalized, '/');
    let mut out: Vec<Vec<char>> = Vec::new();
    let mut i: usize = 0;
    proof {
        assert(parts.deep_view().take(0) =~= Seq::<Seq<char>>::empty());
    }
    while i < parts.len()
        invariant
            i <= parts@.len(),
            out.deep_view() == raw_parts_of(parts.deep_view().take(i as int)),
        decreases parts@.len() - i,
    {
        let ghost prev = out.deep_view();
        proof {
            assert(parts.deep_view().take(i + 1).drop_last() =~= parts.deep_view().take(
                i as int,
            ));
            assert(parts.deep_view().take(i + 1).last() == parts.deep_view()[i as int]);
            assert(parts.deep_view()[i as int] == parts@[i as int]@);
        }
        let part = &parts[i];
        if part.len() > 0 && !chars_contain(part, ':') {
            let copied = chars_subrange(part, 0, part.len());
            proof {
                assert(copied@ =~= parts@[i as int]@);
            }
            out.push(copied);
            proof {
                assert(out.deep_view() =~~= prev.push(parts@[i as int]@));
            }
        }
        i = i + 1;
    }
    proof {
        assert(parts.deep_view().take(parts@.len() as int) =~= parts.deep_view());
    }
    out
}

#[verifier::loop_isolation(false)]
fn preview_has_segment(preview: &Vec<char>, candidate: &Vec<char>) -> (r: bool)
    ensures
        r == split_on(preview@, '/').contains(candidate@),
{
    let pieces = chars_split(preview, '/');
    let mut i: usize = 0;
    while i < pieces.len()
        invariant
            i <= pieces@.len(),
            forall|j: int|
                0 <= j < i ==> #[trigger] pieces.deep_view()[j] != candidate@,
        decreases pieces@.len() - i,
    {
        proof {
            assert(pieces.deep_view()[i as int] == pieces@[i as int]@);
        }
        if chars_eq(&pieces[i], candidate) {
            return true;
        }
        i = i + 1;
    }
    false
}

/// Looks for the best destination prefix for a local path: the most
/// specific suffix of its segments that already exists on the bucket,
/// as the cache reports it, and otherwise the offline preview prefix.
#[verifier::loop_isolation(false)]
pub fn find_best_s3_prefix(local_path: &str, cache: &PrefixCache) -> (r: String)
    ensures
        r@ == spec_best_prefix(local_path@, cache.prefixes.deep_view()),
{
    let preview = get_preview_prefix(local_path);
    let preview_chars = str_to_chars(preview.as_str());
    let parts = candidate_parts(local_path);
    let n = parts.len();
    let mut sep: Vec<char> = Vec::new();
    sep.push('/');
    proof {
        assert(sep@ =~= seq!['/']);
    }
    let mut i: usize = 0;
    while i < n
        invariant
            n == parts@.len(),
            i <= n,
            spec_best_prefix(local_path@, cache.prefixes.deep_view()) == spec_best_from(
                parts.deep_view(),
                i as int,
                cache.prefixes.deep_view(),
                preview_chars@,
            ),
        decreases n - i,
    {
        let mut tail: Vec<Vec<char>> = Vec::new();
        let mut j: usize = i;
        proof {
            assert(tail.deep_view() =~= parts.deep_view().subrange(i as int, i as int));
        }
        while j < n
            invariant
                n == parts@.len(),
                i <= j <= n,
                tail.deep_view() == parts.deep_view().subrange(i as int, j as int),
            decreases n - j,
        {
            let ghost prev = tail.deep_view();
            let part = &parts[j];
            let copied = chars_subrange(part, 0, part.len());
            proof {
                assert(copied@ =~= parts@[j as int]@);
            }
            tail.push(copied);
            j = j + 1;
            proof {
                assert(tail.deep_view() =~~= prev.push(parts.deep_view()[j - 1]));
                assert(tail.deep_view() =~= parts.deep_view().subrange(i as int, j as int));
            }
        }
        proof {
            assert(parts.deep_view().subrange(i as int, n as int) =~= parts.deep_view()
                .skip(i as int));
        }
        let candidate = chars_join(&tail, &sep);
        let candidate_str = chars_to_string(&candidate);
        if cache.contains_prefix(candidate_str.as_str()) {
            let single = n - i == 1;
            if !single {
                return candidate_str;
            }
            if !chars_contain(&preview_chars, '/') {
                return candidate_str;
            }
            if preview_has_segment(&preview_chars, &candidate) {
                return candidate_str;
            }
        }
        i = i + 1;
    }
    preview
}

/// The destination path shown for a picked local path: relative to the
/// configured base path when it lies beneath it (backslashes
/// normalized, the bare name when nothing remains), and otherwise the
/// offline preview prefix.
pub open spec fn spec_calculate_s3_path(p: Seq<char>, base: Seq<char>) -> Seq<char> {
    if base.len() > 0 && (p == base || seq_starts_with(p, base + seq!['/'])) {
        let rel = replace_char(spec_relative_to(p, base), '\\', '/');
        if rel.len() == 0 {
            spec_file_name(p)
        } else {
            rel
        }
    } else {
        spec_preview_prefix(p)
    }
}

/// Computes the destination path for a picked local path against the
/// configured base path.
pub fn calculate_s3_path(p: &str, base_path: &str) -> (r: String)
    ensures
        r@ == spec_calculate_s3_path(p@, base_path@),
{
    let p_chars = str_to_chars(p);
    let base_chars = str_to_chars(base_path);
    if base_chars.len() > 0 {
        let under = if chars_eq(&p_chars, &base_chars) {
            true
        } else {
            let mut base_slash = chars_subrange(&base_chars, 0, base_chars.len());
            base_slash.push('/');
            proof {
                assert(base_slash@ =~= base_chars@ + seq!['/']);
            }
            crate::text::chars_start_with(&p_chars, &base_slash)
        };
        if under {
            let rel = relative_to(&p_chars, &base_chars);
            let clean = chars_replace(&rel, '\\', '/');
            if clean.len() == 0 {
                let name = file_name_of(&p_chars);
                return chars_to_string(&name);
            }
            return chars_to_string(&clean);
        }
    }
    get_preview_prefix(p)
}

/// Law: reading the cache immediately after a refresh, or at any moment
/// within the time-to-live of the refresh, plans no further listing.
pub proof fn lemma_lookup_after_refresh_is_fresh(c: PrefixCache, now: u64, ttl_secs: u64)
    requires
        c.cache_time <= now,
        now - c.cache_time <= ttl_secs,
    ensures
        !spec_needs_refresh(Option::Some(c), now, ttl_secs),
{
}

/// Law: a cache entry that has outlived the time-to-live makes the next
/// lookup plan a refresh — and a lookup step plans at most the one.
pub proof fn lemma_lookup_after_expiry_refreshes(c: PrefixCache, now: u64, ttl_secs: u64)
    requires
        now >= c.cache_time,
        now - c.cache_time > ttl_secs,
    ensures
        spec_needs_refresh(Option::Some(c), now, ttl_secs),
{
}

/// What a keyed lookup finds in a list of per-bucket entries: the first
/// entry stored under the key.
pub open spec fn spec_store_get(
    entries: Seq<(String, PrefixCache)>,
    key: Seq<char>,
) -> Option<PrefixCache>
    decreases entries.len(),
{
    if entries.len() == 0 {
        Option::None
    } else if entries[0].0@ == key {
        Option::Some(entries[0].1)
    } else {
        spec_store_get(entries.drop_first(), key)
    }
}

/// The process-wide cache: one prefix listing per bucket. An entry is
/// only ever overwritten by a refresh, never evicted.
pub struct PrefixCacheStore {
    pub entries: Vec<(String, PrefixCache)>,
}

proof fn lemma_store_get_update(
    s: Seq<(String, PrefixCache)>,
    i: int,
    e: (String, PrefixCache),
    k: Seq<char>,
)
    requires
        0 <= i < s.len(),
        e.0@ == s[i].0@,
        forall|j: int| 0 <= j < i ==> (#[trigger] s[j]).0@ != e.0@,
    ensures
        spec_store_get(s.update(i, e), k) == (if k == e.0@ {
            Option::Some(e.1)
        } else {
            spec_store_get(s, k)
        }),
    decreases i,
{
    if i == 0 {
        if k != e.0@ {
            assert(s.update(0, e).drop_first() =~= s.drop_first());
        }
    } else {
        assert(s.update(i, e).drop_first() =~= s.drop_first().update(i - 1, e));
        assert(forall|j: int|
            0 <= j < i - 1 ==> (#[trigger] s.drop_first()[j]).0@ == s[j + 1].0@);
        lemma_store_get_update(s.drop_first(), i - 1, e, k);
    }
}

proof fn lemma_store_get_push(
    s: Seq<(String, PrefixCache)>,
    e: (String, PrefixCache),
    k: Seq<char>,
)
    requires
        forall|j: int| 0 <= j < s.len() ==> (#[trigger] s[j]).0@ != e.0@,
    ensures
        spec_store_get(s.push(e), k) == (if k == e.0@ {
            Option::Some(e.1)
        } else {
            spec_store_get(s, k)
        }),
    decreases s.len(),
{
    if s.len() == 0 {
        assert(s.push(e)[0] == e);
        assert(s.push(e).drop_first() =~= Seq::<(String, PrefixCache)>::empty());
        assert(spec_store_get(Seq::<(String, PrefixCache)>::empty(), k) is None);
    } else {
        assert(s.push(e)[0] == s[0]);
        assert(s.push(e).drop_first() =~= s.drop_first().push(e));
        assert(forall|j: int|
            0 <= j < s.len() - 1 ==> (#[trigger] s.drop_first()[j]).0@ == s[j + 1].0@);
        lemma_store_get_push(s.drop_first(), e, k);
    }
}

impl PrefixCacheStore {
    /// A store with no entries.
    pub fn new() -> (s: Self)
        ensures
            s.entries@.len() == 0,
    {
        PrefixCacheStore { entries: Vec::new() }
    }

    /// Finds the entry stored for a bucket, if any.
    #[verifier::loop_isolation(false)]
    pub fn lookup(&self, bucket: &str) -> (r: Option<&PrefixCache>)
        ensures
            match r {
                Option::Some(c) => spec_store_get(self.entries@, bucket@)
                    == Option::Some(*c),
                Option::None => spec_store_get(self.entries@, bucket@) is None,
            },
    {
        let key = str_to_chars(bucket);
        let mut i: usize = 0;
        proof {
            assert(self.entries@.skip(0) =~= self.entries@);
        }
        while i < self.entries.len()
            invariant
                i <= self.entries@.len(),
                spec_store_get(self.entries@, bucket@) == spec_store_get(
                    self.entries@.skip(i as int),
                    bucket@,
                ),
            decreases self.entries@.len() - i,
        {
            proof {
                assert(self.entries@.skip(i as int)[0] == self.entries@[i as int]);
                assert(self.entries@.skip(i as int).drop_first() =~= self.entries@.skip(
                    i + 1,
                ));
            }
            let name = str_to_chars(self.entries[i].0.as_str());
            if chars_eq(&name, &key) {
                return Option::Some(&self.entries[i].1);
            }
            i = i + 1;
        }
        Option::None
    }

    /// Stores a bucket's entry, replacing the one held for it, if any;
    /// entries for other buckets are untouched.
    #[verifier::loop_isolation(false)]
    pub fn put(&mut self, bucket: &str, cache: PrefixCache)
        ensures
            spec_store_get(final(self).entries@, bucket@) == Option::Some(cache),
            forall|k: Seq<char>|
                k != bucket@ ==> #[trigger] spec_store_get(final(self).entries@, k)
                    == spec_store_get(old(self).entries@, k),
    {
        let key = str_to_chars(bucket);
        let mut i: usize = 0;
        while i < self.entries.len()
            invariant
                self.entries@ == old(self).entries@,
                i <= self.entries@.len(),
                key@ == bucket@,
                forall|j: int|
                    0 <= j < i ==> (#[trigger] self.entries@[j]).0@ != bucket@,
            decreases self.entries@.len() - i,
        {
            let name = str_to_chars(self.entries[i].0.as_str());
            if chars_eq(&name, &key) {
                let entry = (String::from_str(bucket), cache);
                let ghost e = entry;
                let ghost s = self.entries@;
                let ghost idx = i as int;
                self.entries.set(i, entry);
                proof {
                    assert forall|k: Seq<char>| true implies #[trigger] spec_store_get(
                        self.entries@,
                        k,
                    ) == (if k == bucket@ {
                        Option::Some(cache)
                    } else {
                        spec_store_get(s, k)
                    }) by {
                        lemma_store_get_update(s, idx, e, k);
                    }
                }
                return ;
            }
            i = i + 1;
        }
        let entry = (String::from_str(bucket), cache);
        let ghost e = entry;
        let ghost s = self.entries@;
        self.entries.push(entry);
        proof {
            assert forall|k: Seq<char>| true implies #[trigger] spec_store_get(
                self.entries@,
                k,
            ) == (if k == bucket@ {
                Option::Some(cache)
            } else {
                spec_store_get(s, k)
            }) by {
                lemma_store_get_push(s, e, k);
            }
        }
    }
}

} // verus!
