//! The per-file include/exclude decision, credential validation, content
//! type selection and filtering statistics.

use vstd::prelude::*;
use vstd::string::StringExecFns;
use crate::config::FilterConfig;
use crate::text::{
    last_index_of, chars_last_index_of,
    chars_contain, chars_contain_sub, chars_eq, chars_split, chars_subrange,
    chars_to_string, chars_lower, chars_eq_str, lower_seq, lemma_split_on_nonempty,
    seq_contains_sub, seq_starts_with, split_on, str_to_chars, trim_chars, trim_right_if,
    trim_spaces, trim_trailing,
};

verus! {

/// What `glob::Pattern::new` decides of a pattern string: whether it
/// compiles. A function of the pattern alone.
pub uninterp spec fn glob_pattern_valid(pattern: Seq<char>) -> bool;

/// What `glob::Pattern::matches` computes for a compiled pattern and a
/// text: a function of the two strings alone.
pub uninterp spec fn glob_match(pattern: Seq<char>, text: Seq<char>) -> bool;

/// Relies on `glob::Pattern::new`: compiling a pattern string either
/// succeeds or fails, depending on the pattern alone.
#[verifier::external_body]
fn glob_pattern_ok(pattern: &str) -> (r: bool)
    ensures
        r == glob_pattern_valid(pattern@),
{
    glob::Pattern::new(pattern).is_ok()
}

/// Relies on `glob::Pattern::new` and `glob::Pattern::matches`: for a
/// pattern that compiles, whether it matches a text is a function of the
/// pattern and the text alone.
#[verifier::external_body]
fn glob_match_exec(pattern: &str, text: &str) -> (r: bool)
    requires
        glob_pattern_valid(pattern@),
    ensures
        r == glob_match(pattern@, text@),
{
    match glob::Pattern::new(pattern) {
        Ok(p) => p.matches(text),
        Err(_) => false,
    }
}

/// How one pattern is held against a file: a compiling pattern is glob
/// matched against the relative path and against the bare file name; a
/// pattern without wildcards also matches as a plain substring of
/// either, so a bare directory name excludes everything beneath it.
pub open spec fn spec_matches_pattern(
    path: Seq<char>,
    name: Seq<char>,
    pattern: Seq<char>,
) -> bool {
    ||| (glob_pattern_valid(pattern) && (glob_match(pattern, path) || glob_match(
        pattern,
        name,
    )))
    ||| (!pattern.contains('*') && !pattern.contains('?') && (seq_contains_sub(
        path,
        pattern,
    ) || seq_contains_sub(name, pattern)))
}

/// Holds one filter pattern against a relative path and a file name.
pub fn matches_pattern(path_str: &str, file_name: &str, pattern: &str) -> (r: bool)
    ensures
        r == spec_matches_pattern(path_str@, file_name@, pattern@),
{
    if glob_pattern_ok(pattern) {
        if glob_match_exec(pattern, path_str) {
            return true;
        }
        if glob_match_exec(pattern, file_name) {
            return true;
        }
    }
    let p = str_to_chars(pattern);
    if !chars_contain(&p, '*') && !chars_contain(&p, '?') {
        let path = str_to_chars(path_str);
        let name = str_to_chars(file_name);
        if chars_contain_sub(&path, &p) {
            return true;
        }
        if chars_contain_sub(&name, &p) {
            return true;
        }
    }
    false
}

/// The path of a file relative to a base directory: the base and one
/// separator are removed when they lead the path; a path equal to the
/// base becomes empty; any other path is kept whole.
pub open spec fn spec_relative_to(path: Seq<char>, base: Seq<char>) -> Seq<char> {
    if base.len() > 0 && seq_starts_with(path, base + seq!['/']) {
        path.skip(base.len() as int + 1)
    } else if path == base {
        Seq::<char>::empty()
    } else {
        path
    }
}

/// Computes the path of a file relative to a base directory.
pub fn relative_to(path: &Vec<char>, base: &Vec<char>) -> (r: Vec<char>)
    ensures
        r@ == spec_relative_to(path@, base@),
{
    let base_len: usize = base.len();
    if base_len > 0 && base_len < path.len() {
        let mut is_prefix = true;
        let mut i: usize = 0;
        while i < base_len
            invariant
                base_len == base@.len() < path@.len(),
                i <= base_len,
                is_prefix == (forall|j: int| 0 <= j < i ==> path@[j] == base@[j]),
            decreases base_len - i,
        {
            if path[i] != base[i] {
                is_prefix = false;
                i = base_len;
            } else {
                i = i + 1;
            }
        }
        if is_prefix && path[base_len] == '/' {
            proof {
                let pre = base@ + seq!['/'];
                assert(forall|j: int|
                    0 <= j < pre.len() ==> path@[j] == #[trigger] pre[j]);
                assert(path@.subrange(0, pre.len() as int) =~= pre);
                assert(path@.subrange(base@.len() + 1int, path@.len() as int) =~= path@.skip(
                    base@.len() + 1int,
                ));
            }
            return chars_subrange(path, base_len + 1, path.len());
        }
        proof {
            let pre = base@ + seq!['/'];
            if seq_starts_with(path@, pre) {
                assert(forall|j: int|
                    0 <= j < pre.len() ==> path@[j] == path@.subrange(0, pre.len() as int)[j]);
            }
            assert(path@ != base@);
        }
        return chars_subrange(path, 0, path.len());
    }
    proof {
        if base@.len() > 0 && seq_starts_with(path@, base@ + seq!['/']) {
            assert((base@ + seq!['/']).len() <= path@.len());
        }
    }
    if chars_eq(path, base) {
        Vec::new()
    } else {
        chars_subrange(path, 0, path.len())
    }
}

/// The bare name of a file: the last slash-separated piece of its path,
/// after closing separators are dropped.
pub open spec fn spec_file_name(path: Seq<char>) -> Seq<char> {
    let t = trim_right_if(path, |c: char| c == '/');
    split_on(t, '/').last()
}

/// Extracts the bare file name from a path.
pub fn file_name_of(path: &Vec<char>) -> (r: Vec<char>)
    ensures
        r@ == spec_file_name(path@),
{
    let t = trim_trailing(path, '/');
    let mut parts = chars_split(&t, '/');
    proof {
        lemma_split_on_nonempty(t@, '/');
        assert(parts.deep_view().last() == parts@[parts@.len() - 1].deep_view());
        assert(parts@[parts@.len() - 1].deep_view() =~= parts@[parts@.len() - 1]@);
    }
    let last = parts.pop().unwrap();
    last
}

/// The directory a file lies in: its path up to the last separator,
/// a lone separator for a file at the root, or nothing when the path
/// holds no separator.
pub open spec fn spec_parent_dir(path: Seq<char>) -> Seq<char> {
    let i = last_index_of(path, '/');
    if i < 0 {
        Seq::<char>::empty()
    } else if i == 0 {
        seq!['/']
    } else {
        path.take(i)
    }
}

/// Extracts the directory part of a file path.
pub fn parent_dir_of(path: &Vec<char>) -> (r: Vec<char>)
    ensures
        r@ == spec_parent_dir(path@),
{
    match chars_last_index_of(path, '/') {
        Option::None => Vec::new(),
        Option::Some(i) => {
            if i == 0 {
                let mut r: Vec<char> = Vec::new();
                r.push('/');
                proof {
                    assert(r@ =~= seq!['/']);
                }
                r
            } else {
                chars_subrange(path, 0, i)
            }
        },
    }
}

/// Whether some pattern of the list matches the file.
pub open spec fn spec_any_pattern_matches(
    path: Seq<char>,
    name: Seq<char>,
    patterns: Seq<Seq<char>>,
) -> bool {
    exists|i: int|
        0 <= i < patterns.len() && spec_matches_pattern(path, name, #[trigger] patterns[i])
}

fn any_pattern_matches(path_str: &str, file_name: &str, patterns: &Vec<String>) -> (r:
    bool)
    ensures
        r == spec_any_pattern_matches(path_str@, file_name@, patterns.deep_view()),
{
    let mut i: usize = 0;
    while i < patterns.len()
        invariant
            i <= patterns@.len(),
            forall|j: int|
                0 <= j < i ==> !spec_matches_pattern(
                    path_str@,
                    file_name@,
                    #[trigger] patterns.deep_view()[j],
                ),
        decreases patterns@.len() - i,
    {
        if matches_pattern(path_str, file_name, patterns[i].as_str()) {
            proof {
                assert(patterns.deep_view()[i as int] == patterns@[i as int]@);
            }
            return true;
        }
        proof {
            assert(patterns.deep_view()[i as int] == patterns@[i as int]@);
        }
        i = i + 1;
    }
    false
}

/// The include/exclude decision for one file: with filtering off every
/// file is kept; an oversize file is dropped; a file matching an
/// exclusion pattern is dropped, whatever the inclusion patterns say; a
/// non-empty inclusion list keeps only files matching one of its
/// patterns; an empty inclusion list keeps everything else.
pub open spec fn spec_should_include(
    path: Seq<char>,
    base: Seq<char>,
    size: u64,
    c: FilterConfig,
) -> bool {
    if !c.enable_filtering {
        true
    } else if size > c.max_file_size {
        false
    } else {
        let rel = spec_relative_to(path, base);
        let name = spec_file_name(path);
        if spec_any_pattern_matches(rel, name, c.exclude_patterns.deep_view()) {
            false
        } else if c.include_patterns@.len() > 0 {
            spec_any_pattern_matches(rel, name, c.include_patterns.deep_view())
        } else {
            true
        }
    }
}

/// Decides whether one file takes part in the sync. The decision is a
/// function of the file's path, its base directory, its size in bytes
/// and the filter configuration, and of nothing else.
pub fn should_include_file(
    file_path: &str,
    base_path: &str,
    file_size: u64,
    filter_config: &FilterConfig,
) -> (r: bool)
    ensures
        r == spec_should_include(file_path@, base_path@, file_size, *filter_config),
{
    if !filter_config.enable_filtering {
        return true;
    }
    if file_size > filter_config.max_file_size {
        return false;
    }
    let path = str_to_chars(file_path);
    let base = str_to_chars(base_path);
    let rel = relative_to(&path, &base);
    let name = file_name_of(&path);
    let rel_str = chars_to_string(&rel);
    let name_str = chars_to_string(&name);
    if any_pattern_matches(rel_str.as_str(), name_str.as_str(), &filter_config
        .exclude_patterns) {
        return false;
    }
    if filter_config.include_patterns.len() > 0 {
        return any_pattern_matches(rel_str.as_str(), name_str.as_str(), &filter_config
            .include_patterns);
    }
    true
}

/// Law: the include/exclude decision is a pure function of the file's
/// path, its base directory, its size and the configuration's contents:
/// two configurations holding the same settings decide every file alike,
/// and the same call twice decides it alike.
pub proof fn lemma_should_include_deterministic(
    path: Seq<char>,
    base: Seq<char>,
    size: u64,
    c1: FilterConfig,
    c2: FilterConfig,
)
    requires
        c1.enable_filtering == c2.enable_filtering,
        c1.max_file_size == c2.max_file_size,
        c1.exclude_patterns.deep_view() == c2.exclude_patterns.deep_view(),
        c1.include_patterns.deep_view() == c2.include_patterns.deep_view(),
    ensures
        spec_should_include(path, base, size, c1) == spec_should_include(
            path,
            base,
            size,
            c2,
        ),
{
    assert(c1.include_patterns@.len() == c1.include_patterns.deep_view().len());
    assert(c2.include_patterns@.len() == c2.include_patterns.deep_view().len());
}

/// Law: a file matching an exclusion pattern is dropped, whatever the
/// inclusion patterns say of it.
pub proof fn lemma_exclude_wins(path: Seq<char>, base: Seq<char>, size: u64, c: FilterConfig)
    requires
        c.enable_filtering,
        spec_any_pattern_matches(
            spec_relative_to(path, base),
            spec_file_name(path),
            c.exclude_patterns.deep_view(),
        ),
    ensures
        !spec_should_include(path, base, size, c),
{
}

/// Law: the size gate is exact. A file larger than the configured cap is
/// always dropped; within the cap — at exactly the cap included — the
/// size plays no further part, and the pattern rules alone decide.
pub proof fn lemma_size_gate_exact(
    path: Seq<char>,
    base: Seq<char>,
    c: FilterConfig,
    over: u64,
)
    requires
        c.enable_filtering,
        over > c.max_file_size,
    ensures
        !spec_should_include(path, base, over, c),
        forall|s1: u64, s2: u64|
            s1 <= c.max_file_size && s2 <= c.max_file_size ==> spec_should_include(
                path,
                base,
                s1,
                c,
            ) == spec_should_include(path, base, s2, c),
{
}

/// Whether a string holds nothing but blank space.
pub open spec fn spec_is_blank(s: Seq<char>) -> bool {
    trim_spaces(s).len() == 0
}

/// Whether a character may appear in a bucket name.
pub open spec fn is_bucket_char(c: char) -> bool {
    ('a' <= c <= 'z') || ('0' <= c <= '9') || c == '-'
}

/// The structural rules for a bucket name: three to sixty-three
/// characters, all lower-case letters, digits or dashes, and no dash at
/// either end.
pub open spec fn spec_bucket_name_ok(b: Seq<char>) -> bool {
    &&& 3 <= b.len() <= 63
    &&& forall|i: int| 0 <= i < b.len() ==> is_bucket_char(#[trigger] b[i])
    &&& b[0] != '-'
    &&& b.last() != '-'
}

/// The verdict on a set of credentials: the first complaint in order, or
/// nothing when all of them pass.
pub open spec fn spec_validate_credentials(
    acc_key: Seq<char>,
    sec_key: Seq<char>,
    bucket: Seq<char>,
) -> Option<Seq<char>> {
    if spec_is_blank(acc_key) {
        Option::Some("Access Key không được để trống"@)
    } else if spec_is_blank(sec_key) {
        Option::Some("Secret Key không được để trống"@)
    } else if spec_is_blank(bucket) {
        Option::Some("Bucket name không được để trống"@)
    } else if !spec_bucket_name_ok(bucket) {
        Option::Some("Bucket name không hợp lệ (3-63 ký tự, chỉ chữ thường, số, dấu gạch ngang)"@)
    } else {
        Option::None
    }
}

/// The view of an optional owned string.
pub open spec fn opt_string_view(s: Option<String>) -> Option<Seq<char>> {
    match s {
        Option::Some(m) => Option::Some(m@),
        Option::None => Option::None,
    }
}

fn is_blank(s: &str) -> (r: bool)
    ensures
        r == spec_is_blank(s@),
{
    let chars = str_to_chars(s);
    let trimmed = trim_chars(&chars);
    trimmed.len() == 0
}

fn bucket_name_ok(bucket: &str) -> (r: bool)
    ensures
        r == spec_bucket_name_ok(bucket@),
{
    let b = str_to_chars(bucket);
    let n = b.len();
    if n < 3 || n > 63 {
        return false;
    }
    let mut i: usize = 0;
    while i < n
        invariant
            b@ == bucket@,
            n == b@.len(),
            i <= n,
            forall|j: int| 0 <= j < i ==> is_bucket_char(#[trigger] b@[j]),
        decreases n - i,
    {
        let c = b[i];
        let ok = ('a' <= c && c <= 'z') || ('0' <= c && c <= '9') || c == '-';
        if !ok {
            proof {
                assert(!is_bucket_char(bucket@[i as int]));
            }
            return false;
        }
        i = i + 1;
    }
    if b[0] == '-' || b[n - 1] == '-' {
        return false;
    }
    true
}

/// Checks the access key, the secret key and the bucket name before a
/// run, returning the first complaint or nothing when they pass.
pub fn validate_credentials(acc_key: &str, sec_key: &str, bucket: &str) -> (r: Option<
    String,
>)
    ensures
        opt_string_view(r) == spec_validate_credentials(acc_key@, sec_key@, bucket@),
{
    if is_blank(acc_key) {
        return Some(String::from_str("Access Key không được để trống"));
    }
    if is_blank(sec_key) {
        return Some(String::from_str("Secret Key không được để trống"));
    }
    if is_blank(bucket) {
        return Some(String::from_str("Bucket name không được để trống"));
    }
    if !bucket_name_ok(bucket) {
        return Some(
            String::from_str(
                "Bucket name không hợp lệ (3-63 ký tự, chỉ chữ thường, số, dấu gạch ngang)",
            ),
        );
    }
    None
}

/// Folds one directory's tally into a running total, field by field.
pub fn aggregate_stats(total: &FilteringStats, part: &FilteringStats) -> (r: FilteringStats)
    requires
        total.total_files + part.total_files <= u64::MAX,
        total.included_files + part.included_files <= u64::MAX,
        total.excluded_files + part.excluded_files <= u64::MAX,
        total.total_size + part.total_size <= u64::MAX,
        total.excluded_size + part.excluded_size <= u64::MAX,
    ensures
        r.total_files == total.total_files + part.total_files,
        r.included_files == total.included_files + part.included_files,
        r.excluded_files == total.excluded_files + part.excluded_files,
        r.total_size == total.total_size + part.total_size,
        r.excluded_size == total.excluded_size + part.excluded_size,
{
    FilteringStats {
        total_files: total.total_files + part.total_files,
        included_files: total.included_files + part.included_files,
        excluded_files: total.excluded_files + part.excluded_files,
        total_size: total.total_size + part.total_size,
        excluded_size: total.excluded_size + part.excluded_size,
    }
}

/// What `mime_guess` derives from a path: the first known content type
/// for its extension, if any. A function of the path alone.
pub uninterp spec fn guessed_mime(path: Seq<char>) -> Option<Seq<char>>;

/// Relies on `mime_guess::from_path` (with `MimeGuess::first_raw`): the
/// guess is derived from the path's extension alone.
#[verifier::external_body]
fn guess_mime_from_path(path: &str) -> (r: Option<String>)
    ensures
        opt_string_view(r) == guessed_mime(path@),
{
    mime_guess::from_path(path).first_raw().map(|m| m.to_string())
}

/// The extension of a file path: what follows the last dot of its bare
/// name, or nothing when there is no dot or the name's only dot leads it.
pub open spec fn spec_extension(path: Seq<char>) -> Seq<char> {
    let name = spec_file_name(path);
    let i = last_index_of(name, '.');
    if i <= 0 {
        Seq::<char>::empty()
    } else {
        name.skip(i + 1)
    }
}

/// The content type for a file: a fixed table for the common web-asset
/// extensions (compared case-insensitively), then whatever the guesser
/// knows, then the opaque binary type.
pub open spec fn spec_mime_type(path: Seq<char>) -> Seq<char> {
    let e = lower_seq(spec_extension(path));
    if e == "woff2"@ {
        "font/woff2"@
    } else if e == "woff"@ {
        "font/woff"@
    } else if e == "ttf"@ {
        "font/ttf"@
    } else if e == "otf"@ {
        "font/otf"@
    } else if e == "eot"@ {
        "application/vnd.ms-fontobject"@
    } else if e == "css"@ {
        "text/css"@
    } else if e == "js"@ {
        "application/javascript"@
    } else if e == "html"@ || e == "htm"@ {
        "text/html"@
    } else {
        match guessed_mime(path) {
            Option::Some(m) => m,
            Option::None => "application/octet-stream"@,
        }
    }
}

/// Picks the content type a file is uploaded under, from its extension.
pub fn get_mime_type(path: &str) -> (r: String)
    ensures
        r@ == spec_mime_type(path@),
{
    let chars = str_to_chars(path);
    let name = file_name_of(&chars);
    let ext: Vec<char> = match chars_last_index_of(&name, '.') {
        Option::None => Vec::new(),
        Option::Some(i) => {
            if i == 0 {
                Vec::new()
            } else {
                let name_len = name.len();
                proof {
                    assert(name@.subrange(i + 1, name@.len() as int) =~= name@.skip(i + 1));
                }
                chars_subrange(&name, i + 1, name_len)
            }
        },
    };
    let e = chars_lower(&ext);
    if chars_eq_str(&e, "woff2") {
        String::from_str("font/woff2")
    } else if chars_eq_str(&e, "woff") {
        String::from_str("font/woff")
    } else if chars_eq_str(&e, "ttf") {
        String::from_str("font/ttf")
    } else if chars_eq_str(&e, "otf") {
        String::from_str("font/otf")
    } else if chars_eq_str(&e, "eot") {
        String::from_str("application/vnd.ms-fontobject")
    } else if chars_eq_str(&e, "css") {
        String::from_str("text/css")
    } else if chars_eq_str(&e, "js") {
        String::from_str("application/javascript")
    } else if chars_eq_str(&e, "html") || chars_eq_str(&e, "htm") {
        String::from_str("text/html")
    } else {
        match guess_mime_from_path(path) {
            Option::Some(m) => m,
            Option::None => String::from_str("application/octet-stream"),
        }
    }
}

/// Tells whether a pattern string compiles as a glob.
pub fn is_valid_glob_pattern(pattern: &str) -> (r: bool)
    ensures
        r == glob_pattern_valid(pattern@),
{
    glob_pattern_ok(pattern)
}

/// The items of a comma-separated list, trimmed, with empties dropped.
pub open spec fn kept_items(parts: Seq<Seq<char>>) -> Seq<Seq<char>>
    decreases parts.len(),
{
    if parts.len() == 0 {
        Seq::<Seq<char>>::empty()
    } else {
        let rest = kept_items(parts.drop_last());
        let t = trim_spaces(parts.last());
        if t.len() > 0 {
            rest.push(t)
        } else {
            rest
        }
    }
}

/// The pattern items named by a comma-separated setting string.
pub open spec fn csv_items(s: Seq<char>) -> Seq<Seq<char>> {
    kept_items(split_on(s, ','))
}

/// Splits a comma-separated pattern list into its trimmed, non-empty
/// items.
#[verifier::loop_isolation(false)]
pub fn split_pattern_list(patterns_str: &str) -> (r: Vec<String>)
    ensures
        r.deep_view() == csv_items(patterns_str@),
{
    let chars = str_to_chars(patterns_str);
    let parts = chars_split(&chars, ',');
    let mut out: Vec<String> = Vec::new();
    let mut i: usize = 0;
    proof {
        assert(parts.deep_view().take(0) =~= Seq::<Seq<char>>::empty());
    }
    while i < parts.len()
        invariant
            i <= parts@.len(),
            out.deep_view() == kept_items(parts.deep_view().take(i as int)),
        decreases parts@.len() - i,
    {
        let ghost prev = out.deep_view();
        let t = trim_chars(&parts[i]);
        proof {
            assert(parts.deep_view().take(i + 1).drop_last() =~= parts.deep_view().take(
                i as int,
            ));
            assert(parts.deep_view().take(i + 1).last() == parts.deep_view()[i as int]);
            assert(parts.deep_view()[i as int] == parts@[i as int]@);
        }
        if t.len() > 0 {
            out.push(chars_to_string(&t));
            proof {
                assert(out.deep_view() =~~= prev.push(t@));
            }
        }
        i = i + 1;
    }
    proof {
        assert(parts.deep_view().take(parts@.len() as int) =~= parts.deep_view());
    }
    out
}

/// The items of the list that do not compile as globs, in order.
pub open spec fn invalid_of(items: Seq<Seq<char>>) -> Seq<Seq<char>>
    decreases items.len(),
{
    if items.len() == 0 {
        Seq::<Seq<char>>::empty()
    } else {
        let rest = invalid_of(items.drop_last());
        if !glob_pattern_valid(items.last()) {
            rest.push(items.last())
        } else {
            rest
        }
    }
}

/// Checks a comma-separated pattern list and returns the items that do
/// not compile as globs; an empty result means the list can be used.
#[verifier::loop_isolation(false)]
pub fn validate_glob_patterns(patterns_str: &str) -> (r: Vec<String>)
    ensures
        r.deep_view() == invalid_of(csv_items(patterns_str@)),
{
    let items = split_pattern_list(patterns_str);
    let mut out: Vec<String> = Vec::new();
    let mut i: usize = 0;
    proof {
        assert(items.deep_view().take(0) =~= Seq::<Seq<char>>::empty());
    }
    while i < items.len()
        invariant
            i <= items@.len(),
            out.deep_view() == invalid_of(items.deep_view().take(i as int)),
        decreases items@.len() - i,
    {
        let ghost prev = out.deep_view();
        proof {
            assert(items.deep_view().take(i + 1).drop_last() =~= items.deep_view().take(
                i as int,
            ));
            assert(items.deep_view().take(i + 1).last() == items.deep_view()[i as int]);
            assert(items.deep_view()[i as int] == items@[i as int]@);
        }
        if !is_valid_glob_pattern(items[i].as_str()) {
            let kept = items[i].clone();
            out.push(kept);
            proof {
                assert(out.deep_view() =~~= prev.push(items@[i as int]@));
            }
        }
        i = i + 1;
    }
    proof {
        assert(items.deep_view().take(items@.len() as int) =~= items.deep_view());
    }
    out
}

/// One enumerated local file: its path and its size in bytes.
pub struct FileEntry {
    pub path: String,
    pub size: u64,
}

/// Counts and byte totals describing what the filter keeps of a set of
/// files.
#[derive(Debug, Clone)]
pub struct FilteringStats {
    pub total_files: u64,
    pub included_files: u64,
    pub excluded_files: u64,
    pub total_size: u64,
    pub excluded_size: u64,
}

/// The sum of the sizes of the files.
pub open spec fn spec_total_size(files: Seq<FileEntry>) -> int
    decreases files.len(),
{
    if files.len() == 0 {
        0
    } else {
        spec_total_size(files.drop_last()) + files.last().size
    }
}

/// How many of the files the filter keeps.
pub open spec fn spec_included_count(
    files: Seq<FileEntry>,
    base: Seq<char>,
    c: FilterConfig,
) -> int
    decreases files.len(),
{
    if files.len() == 0 {
        0
    } else {
        spec_included_count(files.drop_last(), base, c) + if spec_should_include(
            files.last().path@,
            base,
            files.last().size,
            c,
        ) {
            1int
        } else {
            0int
        }
    }
}

/// The sum of the sizes of the files the filter drops.
pub open spec fn spec_excluded_size(
    files: Seq<FileEntry>,
    base: Seq<char>,
    c: FilterConfig,
) -> int
    decreases files.len(),
{
    if files.len() == 0 {
        0
    } else {
        spec_excluded_size(files.drop_last(), base, c) + if !spec_should_include(
            files.last().path@,
            base,
            files.last().size,
            c,
        ) {
            files.last().size as int
        } else {
            0int
        }
    }
}

proof fn lemma_stats_bounds(files: Seq<FileEntry>, base: Seq<char>, c: FilterConfig)
    ensures
        0 <= spec_total_size(files),
        0 <= spec_excluded_size(files, base, c) <= spec_total_size(files),
        0 <= spec_included_count(files, base, c) <= files.len(),
    decreases files.len(),
{
    if files.len() > 0 {
        lemma_stats_bounds(files.drop_last(), base, c);
    }
}

proof fn lemma_total_size_prefix(files: Seq<FileEntry>, i: int)
    requires
        0 <= i <= files.len(),
    ensures
        spec_total_size(files.take(i)) <= spec_total_size(files),
    decreases files.len() - i,
{
    if i < files.len() {
        lemma_total_size_prefix(files, i + 1);
        assert(files.take(i + 1).drop_last() =~= files.take(i));
        assert(files.take(i + 1).last() == files[i]);
    } else {
        assert(files.take(i) =~= files);
    }
}

/// Tallies how the filter would treat a set of enumerated files: how
/// many and how much it keeps and drops. The included and excluded
/// counts always add up to the total.
#[verifier::loop_isolation(false)]
pub fn get_filtering_stats(
    files: &Vec<FileEntry>,
    dir_path: &str,
    filter_config: &FilterConfig,
) -> (r: FilteringStats)
    requires
        spec_total_size(files@) <= u64::MAX,
        files@.len() <= u64::MAX,
    ensures
        r.total_files == files@.len(),
        r.included_files == spec_included_count(files@, dir_path@, *filter_config),
        r.excluded_files == files@.len() - spec_included_count(
            files@,
            dir_path@,
            *filter_config,
        ),
        r.total_size == spec_total_size(files@),
        r.excluded_size == spec_excluded_size(files@, dir_path@, *filter_config),
{
    let mut included: u64 = 0;
    let mut total_size: u64 = 0;
    let mut excluded_size: u64 = 0;
    let mut i: usize = 0;
    proof {
        assert(files@.take(0) =~= Seq::<FileEntry>::empty());
    }
    while i < files.len()
        invariant
            i <= files@.len(),
            included == spec_included_count(files@.take(i as int), dir_path@, *filter_config),
            total_size == spec_total_size(files@.take(i as int)),
            excluded_size == spec_excluded_size(files@.take(i as int), dir_path@, *filter_config),
        decreases files@.len() - i,
    {
        proof {
            assert(files@.take(i + 1).drop_last() =~= files@.take(i as int));
            assert(files@.take(i + 1).last() == files@[i as int]);
            lemma_total_size_prefix(files@, i + 1);
            lemma_stats_bounds(files@.take(i + 1), dir_path@, *filter_config);
            lemma_stats_bounds(files@.take(i as int), dir_path@, *filter_config);
        }
        let entry = &files[i];
        let size = entry.size;
        if should_include_file(entry.path.as_str(), dir_path, size, filter_config) {
            included = included + 1;
        } else {
            excluded_size = excluded_size + size;
        }
        total_size = total_size + size;
        i = i + 1;
    }
    proof {
        assert(files@.take(files@.len() as int) =~= files@);
        lemma_stats_bounds(files@, dir_path@, *filter_config);
    }
    let total_files = files.len() as u64;
    FilteringStats {
        total_files,
        included_files: included,
        excluded_files: total_files - included,
        total_size,
        excluded_size,
    }
}

} // verus!

