//! Upload planning and bookkeeping: mappings are expanded into file
//! tasks with clean destination keys, and a bounded-concurrency
//! scheduler accounts for every task until the run's outcome is known.

use vstd::prelude::*;
use vstd::string::StringExecFns;
use chrono::Datelike;
use crate::config::FilterConfig;
use crate::text::{
    chars_replace, chars_to_string, dec_rep, push_all, replace_char, str_to_chars, trim_leading,
    u64_to_string, i64_to_string, int_dec_rep,
    trim_left_if, trim_right_if, trim_trailing,
};
use crate::utils::{
    file_name_of, parent_dir_of, relative_to, should_include_file, spec_file_name, spec_parent_dir,
    spec_relative_to, spec_should_include, FileEntry,
};

verus! {

/// One file to upload: where it lies locally and the object key it is
/// stored under.
pub struct FileTask {
    pub local_path: String,
    pub destination_key: String,
}

/// A caller-declared association between a local path and a destination
/// prefix (possibly empty), together with what was found on disk there.
pub struct Mapping {
    pub local_path: String,
    pub s3_prefix: String,
    pub tree: LocalTree,
}

/// What a mapping's local path turned out to be.
pub enum LocalTree {
    /// A single regular file of the given size.
    SingleFile { size: u64 },
    /// A directory, with the regular files enumerated beneath it.
    Directory { files: Vec<FileEntry> },
}

/// The usable core of a raw prefix: backslashes become separators, and
/// surrounding separators are dropped.
pub open spec fn spec_key_base(s: Seq<char>) -> Seq<char> {
    trim_left_if(
        trim_right_if(replace_char(s, '\\', '/'), |c: char| c == '/'),
        |c: char| c == '/',
    )
}

/// The prefix a mapping's tasks are keyed under: the mapping's own
/// prefix when it has usable content, else the mapped path's bare name.
pub open spec fn spec_effective_prefix(local_path: Seq<char>, prefix: Seq<char>) -> Seq<
    char,
> {
    if spec_key_base(prefix).len() == 0 {
        spec_key_base(spec_file_name(local_path))
    } else {
        spec_key_base(prefix)
    }
}

/// A file's path beneath its mapping root, cleaned for use in a key:
/// backslashes become separators on both sides before the root is
/// stripped, and leading separators are dropped.
pub open spec fn spec_clean_rel(root: Seq<char>, fpath: Seq<char>) -> Seq<char> {
    trim_left_if(
        spec_relative_to(replace_char(fpath, '\\', '/'), replace_char(root, '\\', '/')),
        |c: char| c == '/',
    )
}

/// Two cleaned key pieces joined by one separator; an empty piece
/// contributes nothing.
pub open spec fn spec_join_key(p: Seq<char>, r: Seq<char>) -> Seq<char> {
    if r.len() == 0 {
        p
    } else if p.len() == 0 {
        r
    } else {
        p + seq!['/'] + r
    }
}

/// The destination key of one file walked beneath a directory mapping.
pub open spec fn spec_dir_file_key(
    root: Seq<char>,
    prefix: Seq<char>,
    fpath: Seq<char>,
) -> Seq<char> {
    spec_join_key(spec_effective_prefix(root, prefix), spec_clean_rel(root, fpath))
}

proof fn lemma_trim_left_head(s: Seq<char>, p: spec_fn(char) -> bool)
    ensures
        trim_left_if(s, p).len() > 0 ==> !p(trim_left_if(s, p)[0]),
    decreases s.len(),
{
    if s.len() > 0 && p(s[0]) {
        lemma_trim_left_head(s.drop_first(), p);
    }
}

proof fn lemma_trim_left_contains(s: Seq<char>, p: spec_fn(char) -> bool, c: char)
    requires
        trim_left_if(s, p).contains(c),
    ensures
        s.contains(c),
    decreases s.len(),
{
    if s.len() > 0 && p(s[0]) {
        lemma_trim_left_contains(s.drop_first(), p, c);
        let i = choose|i: int| 0 <= i < s.drop_first().len() && s.drop_first()[i] == c;
        assert(s[i + 1] == c);
    }
}

proof fn lemma_trim_right_contains(s: Seq<char>, p: spec_fn(char) -> bool, c: char)
    requires
        trim_right_if(s, p).contains(c),
    ensures
        s.contains(c),
    decreases s.len(),
{
    if s.len() > 0 && p(s.last()) {
        lemma_trim_right_contains(s.drop_last(), p, c);
        let i = choose|i: int| 0 <= i < s.drop_last().len() && s.drop_last()[i] == c;
        assert(s[i] == c);
    }
}

proof fn lemma_replace_clears(s: Seq<char>, from: char, to: char)
    requires
        from != to,
    ensures
        !replace_char(s, from, to).contains(from),
{
    assert forall|i: int|
        0 <= i < replace_char(s, from, to).len() implies #[trigger] replace_char(
        s,
        from,
        to,
    )[i] != from by {}
}

/// A cleaned key piece: free of backslashes and of a leading separator.
pub open spec fn clean_piece(s: Seq<char>) -> bool {
    !s.contains('\\') && (s.len() > 0 ==> s[0] != '/')
}

proof fn lemma_key_base_clean(s: Seq<char>)
    ensures
        clean_piece(spec_key_base(s)),
{
    let slash = |c: char| c == '/';
    let replaced = replace_char(s, '\\', '/');
    lemma_replace_clears(s, '\\', '/');
    if trim_right_if(replaced, slash).contains('\\') {
        lemma_trim_right_contains(replaced, slash, '\\');
    }
    if spec_key_base(s).contains('\\') {
        lemma_trim_left_contains(trim_right_if(replaced, slash), slash, '\\');
    }
    lemma_trim_left_head(trim_right_if(replaced, slash), slash);
}

proof fn lemma_clean_rel_clean(root: Seq<char>, fpath: Seq<char>)
    ensures
        clean_piece(spec_clean_rel(root, fpath)),
{
    let slash = |c: char| c == '/';
    let rp = replace_char(fpath, '\\', '/');
    let rr = replace_char(root, '\\', '/');
    let rel = spec_relative_to(rp, rr);
    lemma_replace_clears(fpath, '\\', '/');
    assert(!rel.contains('\\')) by {
        if rel.contains('\\') {
            let i = choose|i: int| 0 <= i < rel.len() && rel[i] == '\\';
            if rr.len() > 0 && crate::text::seq_starts_with(rp, rr + seq!['/']) {
                assert(rp[i + rr.len() + 1] == '\\');
            } else if rp == rr {
            } else {
                assert(rp[i] == '\\');
            }
        }
    }
    if spec_clean_rel(root, fpath).contains('\\') {
        lemma_trim_left_contains(rel, slash, '\\');
    }
    lemma_trim_left_head(rel, slash);
}

proof fn lemma_join_key_clean(p: Seq<char>, r: Seq<char>)
    requires
        clean_piece(p),
        clean_piece(r),
    ensures
        clean_piece(spec_join_key(p, r)),
{
    if r.len() > 0 && p.len() > 0 {
        let joined = p + seq!['/'] + r;
        assert forall|i: int| 0 <= i < joined.len() implies #[trigger] joined[i] != '\\' by {
            if i < p.len() {
                assert(joined[i] == p[i]);
                assert(!p.contains('\\'));
            } else if i == p.len() {
                assert(joined[i] == '/');
            } else {
                assert(joined[i] == r[i - p.len() - 1]);
                assert(!r.contains('\\'));
            }
        }
        assert(joined[0] == p[0]);
    }
}

/// Law: a destination key derived beneath a directory mapping uses only
/// forward slashes — a backslash never survives — and never starts with
/// a separator, whatever raw path, prefix and file it is derived from.
pub proof fn lemma_dir_file_key_clean(root: Seq<char>, prefix: Seq<char>, fpath: Seq<char>)
    ensures
        !spec_dir_file_key(root, prefix, fpath).contains('\\'),
        spec_dir_file_key(root, prefix, fpath).len() > 0 ==> spec_dir_file_key(
            root,
            prefix,
            fpath,
        )[0] != '/',
{
    lemma_key_base_clean(prefix);
    lemma_key_base_clean(spec_file_name(root));
    lemma_clean_rel_clean(root, fpath);
    lemma_join_key_clean(
        spec_effective_prefix(root, prefix),
        spec_clean_rel(root, fpath),
    );
}

/// Law: the key of a lone mapped file is equally clean.
pub proof fn lemma_file_key_clean(local_path: Seq<char>, prefix: Seq<char>)
    ensures
        !spec_effective_prefix(local_path, prefix).contains('\\'),
        spec_effective_prefix(local_path, prefix).len() > 0 ==> spec_effective_prefix(
            local_path,
            prefix,
        )[0] != '/',
{
    lemma_key_base_clean(prefix);
    lemma_key_base_clean(spec_file_name(local_path));
}

/// Computes the usable core of a raw prefix.
fn key_base(s: &Vec<char>) -> (r: Vec<char>)
    ensures
        r@ == spec_key_base(s@),
{
    let replaced = chars_replace(s, '\\', '/');
    let t = trim_trailing(&replaced, '/');
    trim_leading(&t, '/')
}

/// Computes the prefix a mapping's tasks are keyed under.
fn effective_prefix(local_path: &Vec<char>, prefix: &Vec<char>) -> (r: Vec<char>)
    ensures
        r@ == spec_effective_prefix(local_path@, prefix@),
{
    let p = key_base(prefix);
    if p.len() == 0 {
        let name = file_name_of(local_path);
        key_base(&name)
    } else {
        p
    }
}

/// Computes the destination key of one file walked beneath a directory
/// mapping.
fn dir_file_key(root: &Vec<char>, prefix: &Vec<char>, fpath: &Vec<char>) -> (r: Vec<char>)
    ensures
        r@ == spec_dir_file_key(root@, prefix@, fpath@),
{
    let ep = effective_prefix(root, prefix);
    let rp = chars_replace(fpath, '\\', '/');
    let rr = chars_replace(root, '\\', '/');
    let rel = relative_to(&rp, &rr);
    let r = trim_leading(&rel, '/');
    if r.len() == 0 {
        ep
    } else if ep.len() == 0 {
        r
    } else {
        let mut out = ep;
        out.push('/');
        let ghost mid = out@;
        push_all(&mut out, &r);
        proof {
            assert(mid =~= spec_effective_prefix(root@, prefix@) + seq!['/']);
            assert(out@ =~= spec_effective_prefix(root@, prefix@) + seq!['/'] + r@);
        }
        out
    }
}

/// The local path and destination key of a task, as ghost values.
pub open spec fn task_views(tasks: Seq<FileTask>) -> Seq<(Seq<char>, Seq<char>)> {
    Seq::new(tasks.len(), |i: int| (tasks[i].local_path@, tasks[i].destination_key@))
}

/// The tasks a directory mapping contributes: one per surviving file,
/// keyed beneath the mapping's effective prefix.
pub open spec fn spec_dir_tasks(
    files: Seq<FileEntry>,
    root: Seq<char>,
    prefix: Seq<char>,
    c: FilterConfig,
) -> Seq<(Seq<char>, Seq<char>)>
    decreases files.len(),
{
    if files.len() == 0 {
        Seq::<(Seq<char>, Seq<char>)>::empty()
    } else {
        let rest = spec_dir_tasks(files.drop_last(), root, prefix, c);
        let f = files.last();
        if spec_should_include(f.path@, root, f.size, c) {
            rest.push((f.path@, spec_dir_file_key(root, prefix, f.path@)))
        } else {
            rest
        }
    }
}

/// How many of a directory mapping's files the filter drops.
pub open spec fn spec_dir_filtered(
    files: Seq<FileEntry>,
    root: Seq<char>,
    c: FilterConfig,
) -> int
    decreases files.len(),
{
    if files.len() == 0 {
        0
    } else {
        spec_dir_filtered(files.drop_last(), root, c) + if !spec_should_include(
            files.last().path@,
            root,
            files.last().size,
            c,
        ) {
            1int
        } else {
            0int
        }
    }
}

/// The tasks one mapping contributes: a kept lone file maps straight to
/// its effective prefix; a directory maps each surviving file beneath
/// it.
pub open spec fn spec_mapping_tasks(m: Mapping, c: FilterConfig) -> Seq<
    (Seq<char>, Seq<char>),
> {
    match m.tree {
        LocalTree::SingleFile { size } => {
            if spec_should_include(m.local_path@, spec_parent_dir(m.local_path@), size, c) {
                seq![(m.local_path@, spec_effective_prefix(m.local_path@, m.s3_prefix@))]
            } else {
                Seq::<(Seq<char>, Seq<char>)>::empty()
            }
        },
        LocalTree::Directory { files } => spec_dir_tasks(
            files@,
            m.local_path@,
            m.s3_prefix@,
            c,
        ),
    }
}

/// How many files one mapping has dropped by the filter.
pub open spec fn spec_mapping_filtered(m: Mapping, c: FilterConfig) -> int {
    match m.tree {
        LocalTree::SingleFile { size } => {
            if spec_should_include(m.local_path@, spec_parent_dir(m.local_path@), size, c) {
                0int
            } else {
                1int
            }
        },
        LocalTree::Directory { files } => spec_dir_filtered(files@, m.local_path@, c),
    }
}

/// The session-log lines one mapping contributes: a kept lone file is
/// recorded, a dropped one is not; a directory mapping is always
/// recorded.
pub open spec fn spec_mapping_logs(m: Mapping, c: FilterConfig) -> Seq<Seq<char>> {
    match m.tree {
        LocalTree::SingleFile { size } => {
            if spec_should_include(m.local_path@, spec_parent_dir(m.local_path@), size, c) {
                seq!["File: "@ + m.local_path@ + " -> S3: "@ + m.s3_prefix@]
            } else {
                Seq::<Seq<char>>::empty()
            }
        },
        LocalTree::Directory { .. } => seq![
            "Folder: "@ + m.local_path@ + " -> S3 Folder: "@ + m.s3_prefix@,
        ],
    }
}

/// The tasks of all mappings, in order.
pub open spec fn spec_all_tasks(ms: Seq<Mapping>, c: FilterConfig) -> Seq<
    (Seq<char>, Seq<char>),
>
    decreases ms.len(),
{
    if ms.len() == 0 {
        Seq::<(Seq<char>, Seq<char>)>::empty()
    } else {
        spec_all_tasks(ms.drop_last(), c) + spec_mapping_tasks(ms.last(), c)
    }
}

/// The filtered-out count over all mappings.
pub open spec fn spec_all_filtered(ms: Seq<Mapping>, c: FilterConfig) -> int
    decreases ms.len(),
{
    if ms.len() == 0 {
        0
    } else {
        spec_all_filtered(ms.drop_last(), c) + spec_mapping_filtered(ms.last(), c)
    }
}

/// The session-log lines over all mappings, in order.
pub open spec fn spec_all_logs(ms: Seq<Mapping>, c: FilterConfig) -> Seq<Seq<char>>
    decreases ms.len(),
{
    if ms.len() == 0 {
        Seq::<Seq<char>>::empty()
    } else {
        spec_all_logs(ms.drop_last(), c) + spec_mapping_logs(ms.last(), c)
    }
}

proof fn lemma_dir_tasks_keys_clean(
    files: Seq<FileEntry>,
    root: Seq<char>,
    prefix: Seq<char>,
    c: FilterConfig,
)
    ensures
        forall|i: int|
            0 <= i < spec_dir_tasks(files, root, prefix, c).len() ==> clean_piece(
                (#[trigger] spec_dir_tasks(files, root, prefix, c)[i]).1,
            ),
    decreases files.len(),
{
    if files.len() > 0 {
        lemma_dir_tasks_keys_clean(files.drop_last(), root, prefix, c);
        lemma_dir_file_key_clean(root, prefix, files.last().path@);
        let rest = spec_dir_tasks(files.drop_last(), root, prefix, c);
        assert forall|i: int|
            0 <= i < spec_dir_tasks(files, root, prefix, c).len() implies clean_piece(
            (#[trigger] spec_dir_tasks(files, root, prefix, c)[i]).1,
        ) by {
            if i < rest.len() {
                assert(spec_dir_tasks(files, root, prefix, c)[i] == rest[i]);
            }
        }
    }
}

proof fn lemma_mapping_keys_clean(m: Mapping, c: FilterConfig)
    ensures
        forall|i: int|
            0 <= i < spec_mapping_tasks(m, c).len() ==> clean_piece(
                (#[trigger] spec_mapping_tasks(m, c)[i]).1,
            ),
{
    match m.tree {
        LocalTree::SingleFile { .. } => {
            lemma_file_key_clean(m.local_path@, m.s3_prefix@);
        },
        LocalTree::Directory { files } => {
            lemma_dir_tasks_keys_clean(files@, m.local_path@, m.s3_prefix@, c);
        },
    }
}

/// Law: every destination key the collector derives — over any mappings
/// and any configuration — uses only forward slashes and never starts
/// with one.
pub proof fn lemma_collected_keys_clean(ms: Seq<Mapping>, c: FilterConfig)
    ensures
        forall|i: int|
            0 <= i < spec_all_tasks(ms, c).len() ==> clean_piece(
                (#[trigger] spec_all_tasks(ms, c)[i]).1,
            ),
    decreases ms.len(),
{
    if ms.len() > 0 {
        lemma_collected_keys_clean(ms.drop_last(), c);
        lemma_mapping_keys_clean(ms.last(), c);
        assert forall|i: int|
            0 <= i < spec_all_tasks(ms, c).len() implies clean_piece(
            (#[trigger] spec_all_tasks(ms, c)[i]).1,
        ) by {
            let front = spec_all_tasks(ms.drop_last(), c);
            let back = spec_mapping_tasks(ms.last(), c);
            if i < front.len() {
                assert(spec_all_tasks(ms, c)[i] == front[i]);
            } else {
                assert(spec_all_tasks(ms, c)[i] == back[i - front.len()]);
            }
        }
    }
}

/// How many local files the mappings enumerate in all: one per lone-file
/// mapping, and one per walked file of a directory mapping.
pub open spec fn spec_total_files(ms: Seq<Mapping>) -> int
    decreases ms.len(),
{
    if ms.len() == 0 {
        0
    } else {
        spec_total_files(ms.drop_last()) + (match ms.last().tree {
            LocalTree::SingleFile { .. } => 1int,
            LocalTree::Directory { files } => files@.len() as int,
        })
    }
}

proof fn lemma_dir_tasks_account(
    files: Seq<FileEntry>,
    root: Seq<char>,
    prefix: Seq<char>,
    c: FilterConfig,
)
    ensures
        spec_dir_tasks(files, root, prefix, c).len() + spec_dir_filtered(files, root, c)
            == files.len(),
    decreases files.len(),
{
    if files.len() > 0 {
        lemma_dir_tasks_account(files.drop_last(), root, prefix, c);
    }
}

/// Law: the collector accounts for every enumerated file — the tasks it
/// produces and the files the filter drops always add up to the files
/// the mappings enumerate.
pub proof fn lemma_task_count_accounts(ms: Seq<Mapping>, c: FilterConfig)
    ensures
        spec_all_tasks(ms, c).len() + spec_all_filtered(ms, c) == spec_total_files(ms),
    decreases ms.len(),
{
    if ms.len() > 0 {
        lemma_task_count_accounts(ms.drop_last(), c);
        match ms.last().tree {
            LocalTree::SingleFile { .. } => {},
            LocalTree::Directory { files } => {
                lemma_dir_tasks_account(
                    files@,
                    ms.last().local_path@,
                    ms.last().s3_prefix@,
                    c,
                );
            },
        }
    }
}

/// What the collector hands the scheduler: the tasks, how many files the
/// filter dropped, and the mapping lines for the session log.
pub struct CollectionPlan {
    pub tasks: Vec<FileTask>,
    pub filtered_out: u64,
    pub log_lines: Vec<String>,
}

proof fn lemma_dir_filtered_bounds(files: Seq<FileEntry>, root: Seq<char>, c: FilterConfig)
    ensures
        0 <= spec_dir_filtered(files, root, c) <= files.len(),
    decreases files.len(),
{
    if files.len() > 0 {
        lemma_dir_filtered_bounds(files.drop_last(), root, c);
    }
}

proof fn lemma_mapping_filtered_nonneg(m: Mapping, c: FilterConfig)
    ensures
        spec_mapping_filtered(m, c) >= 0,
{
    match m.tree {
        LocalTree::SingleFile { .. } => {},
        LocalTree::Directory { files } => {
            lemma_dir_filtered_bounds(files@, m.local_path@, c);
        },
    }
}

proof fn lemma_all_filtered_nonneg(ms: Seq<Mapping>, c: FilterConfig)
    ensures
        spec_all_filtered(ms, c) >= 0,
    decreases ms.len(),
{
    if ms.len() > 0 {
        lemma_all_filtered_nonneg(ms.drop_last(), c);
        lemma_mapping_filtered_nonneg(ms.last(), c);
    }
}

proof fn lemma_all_filtered_prefix(ms: Seq<Mapping>, c: FilterConfig, i: int)
    requires
        0 <= i <= ms.len(),
    ensures
        0 <= spec_all_filtered(ms.take(i), c) <= spec_all_filtered(ms, c),
    decreases ms.len() - i,
{
    lemma_all_filtered_nonneg(ms.take(i), c);
    if i < ms.len() {
        lemma_all_filtered_prefix(ms, c, i + 1);
        assert(ms.take(i + 1).drop_last() =~= ms.take(i));
        assert(ms.take(i + 1).last() == ms[i]);
        lemma_mapping_filtered_nonneg(ms[i], c);
    } else {
        assert(ms.take(i) =~= ms);
    }
}

/// Expands the caller's mappings into the file tasks of the run: the
/// filter decides which files take part, every task's destination key
/// is derived beneath the mapping's effective prefix, and the dropped
/// files are counted.
#[verifier::loop_isolation(false)]
pub fn collect_tasks(mappings: &Vec<Mapping>, config: &FilterConfig) -> (r: CollectionPlan)
    requires
        spec_all_filtered(mappings@, *config) <= u64::MAX,
    ensures
        task_views(r.tasks@) == spec_all_tasks(mappings@, *config),
        r.filtered_out == spec_all_filtered(mappings@, *config),
        r.log_lines.deep_view() == spec_all_logs(mappings@, *config),
{
    let mut tasks: Vec<FileTask> = Vec::new();
    let mut filtered: u64 = 0;
    let mut logs: Vec<String> = Vec::new();
    let mut i: usize = 0;
    proof {
        assert(mappings@.take(0) =~= Seq::<Mapping>::empty());
        assert(task_views(tasks@) =~= spec_all_tasks(mappings@.take(0), *config));
        assert(logs.deep_view() =~= spec_all_logs(mappings@.take(0), *config));
    }
    while i < mappings.len()
        invariant
            i <= mappings@.len(),
            task_views(tasks@) == spec_all_tasks(mappings@.take(i as int), *config),
            filtered == spec_all_filtered(mappings@.take(i as int), *config),
            logs.deep_view() == spec_all_logs(mappings@.take(i as int), *config),
        decreases mappings@.len() - i,
    {
        proof {
            assert(mappings@.take(i + 1).drop_last() =~= mappings@.take(i as int));
            assert(mappings@.take(i + 1).last() == mappings@[i as int]);
            lemma_all_filtered_prefix(mappings@, *config, i + 1);
            lemma_all_filtered_prefix(mappings@, *config, i as int);
            lemma_mapping_filtered_nonneg(mappings@[i as int], *config);
        }
        let m = &mappings[i];
        let path_chars = str_to_chars(m.local_path.as_str());
        let prefix_chars = str_to_chars(m.s3_prefix.as_str());
        match &m.tree {
            LocalTree::SingleFile { size } => {
                let parent = parent_dir_of(&path_chars);
                let parent_str = chars_to_string(&parent);
                if should_include_file(
                    m.local_path.as_str(),
                    parent_str.as_str(),
                    *size,
                    config,
                ) {
                    let ghost tv = task_views(tasks@);
                    let key = effective_prefix(&path_chars, &prefix_chars);
                    let task = FileTask {
                        local_path: m.local_path.clone(),
                        destination_key: chars_to_string(&key),
                    };
                    tasks.push(task);
                    let ghost lv = logs.deep_view();
                    let line = file_mapping_log_line(&m.local_path, &m.s3_prefix);
                    logs.push(line);
                    proof {
                        assert(task_views(tasks@) =~~= tv.push(
                            (mappings@[i as int].local_path@, spec_effective_prefix(
                                mappings@[i as int].local_path@,
                                mappings@[i as int].s3_prefix@,
                            )),
                        ));
                        assert(logs.deep_view() =~~= lv.push(
                            "File: "@ + mappings@[i as int].local_path@ + " -> S3: "@
                                + mappings@[i as int].s3_prefix@,
                        ));
                    }
                } else {
                    filtered = filtered + 1;
                }
            },
            LocalTree::Directory { files } => {
                let ghost tv0 = task_views(tasks@);
                let ghost f0 = filtered as int;
                let mut j: usize = 0;
                proof {
                    assert(files@.take(0) =~= Seq::<FileEntry>::empty());
                    assert(tv0 + spec_dir_tasks(
                        files@.take(0),
                        m.local_path@,
                        m.s3_prefix@,
                        *config,
                    ) =~= tv0);
                }
                while j < files.len()
                    invariant
                        j <= files@.len(),
                        task_views(tasks@) == tv0 + spec_dir_tasks(
                            files@.take(j as int),
                            m.local_path@,
                            m.s3_prefix@,
                            *config,
                        ),
                        filtered as int == f0 + spec_dir_filtered(
                            files@.take(j as int),
                            m.local_path@,
                            *config,
                        ),
                        f0 + spec_dir_filtered(files@, m.local_path@, *config)
                            <= u64::MAX,
                    decreases files@.len() - j,
                {
                    proof {
                        assert(files@.take(j + 1).drop_last() =~= files@.take(j as int));
                        assert(files@.take(j + 1).last() == files@[j as int]);
                        lemma_dir_filtered_prefix(files@, m.local_path@, *config, j + 1);
                        lemma_dir_filtered_bounds(
                            files@.take(j as int),
                            m.local_path@,
                            *config,
                        );
                        lemma_dir_filtered_bounds(
                            files@.take(j + 1),
                            m.local_path@,
                            *config,
                        );
                    }
                    let f = &files[j];
                    if should_include_file(
                        f.path.as_str(),
                        m.local_path.as_str(),
                        f.size,
                        config,
                    ) {
                        let ghost tv = task_views(tasks@);
                        let fpath_chars = str_to_chars(f.path.as_str());
                        let key = dir_file_key(&path_chars, &prefix_chars, &fpath_chars);
                        let task = FileTask {
                            local_path: f.path.clone(),
                            destination_key: chars_to_string(&key),
                        };
                        tasks.push(task);
                        proof {
                            assert(task_views(tasks@) =~~= tv.push(
                                (files@[j as int].path@, spec_dir_file_key(
                                    mappings@[i as int].local_path@,
                                    mappings@[i as int].s3_prefix@,
                                    files@[j as int].path@,
                                )),
                            ));
                        }
                    } else {
                        filtered = filtered + 1;
                    }
                    j = j + 1;
                }
                proof {
                    assert(files@.take(files@.len() as int) =~= files@);
                }
                let ghost lv = logs.deep_view();
                let line = folder_mapping_log_line(&m.local_path, &m.s3_prefix);
                logs.push(line);
                proof {
                    assert(logs.deep_view() =~~= lv.push(
                        "Folder: "@ + mappings@[i as int].local_path@ + " -> S3 Folder: "@
                            + mappings@[i as int].s3_prefix@,
                    ));
                }
            },
        }
        i = i + 1;
        proof {
            assert(task_views(tasks@) =~= spec_all_tasks(mappings@.take(i as int), *config));
            assert(logs.deep_view() =~= spec_all_logs(mappings@.take(i as int), *config));
        }
    }
    proof {
        assert(mappings@.take(mappings@.len() as int) =~= mappings@);
    }
    CollectionPlan { tasks, filtered_out: filtered, log_lines: logs }
}

proof fn lemma_dir_filtered_prefix(
    files: Seq<FileEntry>,
    root: Seq<char>,
    c: FilterConfig,
    i: int,
)
    requires
        0 <= i <= files.len(),
    ensures
        spec_dir_filtered(files.take(i), root, c) <= spec_dir_filtered(files, root, c),
    decreases files.len() - i,
{
    if i < files.len() {
        lemma_dir_filtered_prefix(files, root, c, i + 1);
        assert(files.take(i + 1).drop_last() =~= files.take(i));
        assert(files.take(i + 1).last() == files[i]);
    } else {
        assert(files.take(i) =~= files);
    }
}

/// The session-log line recording a kept lone-file mapping.
fn file_mapping_log_line(local_path: &String, s3_prefix: &String) -> (r: String)
    ensures
        r@ == "File: "@ + local_path@ + " -> S3: "@ + s3_prefix@,
{
    let mut out = str_to_chars("File: ");
    let p = str_to_chars(local_path.as_str());
    push_all(&mut out, &p);
    let mid = str_to_chars(" -> S3: ");
    push_all(&mut out, &mid);
    let s = str_to_chars(s3_prefix.as_str());
    push_all(&mut out, &s);
    chars_to_string(&out)
}

/// The session-log line recording a directory mapping.
fn folder_mapping_log_line(local_path: &String, s3_prefix: &String) -> (r: String)
    ensures
        r@ == "Folder: "@ + local_path@ + " -> S3 Folder: "@ + s3_prefix@,
{
    let mut out = str_to_chars("Folder: ");
    let p = str_to_chars(local_path.as_str());
    push_all(&mut out, &p);
    let mid = str_to_chars(" -> S3 Folder: ");
    push_all(&mut out, &mid);
    let s = str_to_chars(s3_prefix.as_str());
    push_all(&mut out, &s);
    chars_to_string(&out)
}

/// The bookkeeping of one upload run: every task is pending, in flight,
/// succeeded or failed, and at most `limit` are in flight at once. The
/// run-to-completion policy is used: a failure is recorded and the rest
/// of the run goes on.
pub struct UploadScheduler {
    pub limit: u64,
    pub total: u64,
    pub pending: u64,
    pub in_flight: u64,
    pub succeeded: u64,
    pub failures: Vec<String>,
}

impl UploadScheduler {
    /// Every state the scheduler can reach: the limit is positive, the
    /// uploads in flight never exceed it, and the four groups of tasks
    /// always account for the whole run.
    pub open spec fn wf(&self) -> bool {
        &&& self.limit >= 1
        &&& self.in_flight <= self.limit
        &&& self.pending + self.in_flight + self.succeeded + self.failures@.len()
            == self.total
    }

    /// A run of `total` tasks under the given concurrency limit.
    pub fn new(total: u64, limit: u64) -> (s: Self)
        requires
            limit >= 1,
        ensures
            s.wf(),
            s.total == total,
            s.pending == total,
            s.in_flight == 0,
            s.succeeded == 0,
            s.failures@.len() == 0,
            s.limit == limit,
    {
        UploadScheduler {
            limit,
            total,
            pending: total,
            in_flight: 0,
            succeeded: 0,
            failures: Vec::new(),
        }
    }

    /// Whether another upload may start: work is pending and a
    /// concurrency slot is free.
    pub fn can_start(&self) -> (r: bool)
        ensures
            r == (self.pending > 0 && self.in_flight < self.limit),
    {
        self.pending > 0 && self.in_flight < self.limit
    }

    /// Takes one pending task into flight; only possible while a slot
    /// is free, so the limit is never exceeded.
    pub fn start(&mut self)
        requires
            old(self).wf(),
            old(self).pending > 0,
            old(self).in_flight < old(self).limit,
        ensures
            final(self).wf(),
            final(self).pending == old(self).pending - 1,
            final(self).in_flight == old(self).in_flight + 1,
            final(self).succeeded == old(self).succeeded,
            final(self).failures == old(self).failures,
            final(self).total == old(self).total,
            final(self).limit == old(self).limit,
    {
        self.pending = self.pending - 1;
        self.in_flight = self.in_flight + 1;
    }

    /// Retires one in-flight task as uploaded, releasing its slot.
    pub fn finish_success(&mut self)
        requires
            old(self).wf(),
            old(self).in_flight > 0,
        ensures
            final(self).wf(),
            final(self).pending == old(self).pending,
            final(self).in_flight == old(self).in_flight - 1,
            final(self).succeeded == old(self).succeeded + 1,
            final(self).failures == old(self).failures,
            final(self).total == old(self).total,
            final(self).limit == old(self).limit,
    {
        self.in_flight = self.in_flight - 1;
        self.succeeded = self.succeeded + 1;
    }

    /// Retires one in-flight task as failed, recording its message and
    /// releasing its slot; the rest of the run goes on.
    pub fn finish_failure(&mut self, message: String)
        requires
            old(self).wf(),
            old(self).in_flight > 0,
        ensures
            final(self).wf(),
            final(self).pending == old(self).pending,
            final(self).in_flight == old(self).in_flight - 1,
            final(self).succeeded == old(self).succeeded,
            final(self).failures@ == old(self).failures@.push(message),
            final(self).total == old(self).total,
            final(self).limit == old(self).limit,
    {
        self.in_flight = self.in_flight - 1;
        self.failures.push(message);
    }

    /// Whether every task has reached a terminal state.
    pub fn is_done(&self) -> (r: bool)
        ensures
            r == (self.pending == 0 && self.in_flight == 0),
    {
        self.pending == 0 && self.in_flight == 0
    }

    /// The number of uploads retired as successful so far.
    pub fn completed(&self) -> (r: u64)
        ensures
            r == self.succeeded,
    {
        self.succeeded
    }

    /// The outcome of a finished run: every task is accounted for as a
    /// success or a recorded failure.
    pub fn outcome(self) -> (o: SyncOutcome)
        requires
            self.wf(),
            self.pending == 0,
            self.in_flight == 0,
        ensures
            o.total == self.total,
            o.succeeded == self.succeeded,
            o.failed@ == self.failures@,
            o.succeeded + o.failed@.len() == o.total,
    {
        SyncOutcome { total: self.total, succeeded: self.succeeded, failed: self.failures }
    }
}

/// Law: in every well-formed scheduler state — the constructor
/// establishes well-formedness and every transition preserves it — the
/// uploads started and not yet finished never exceed the concurrency
/// limit.
pub proof fn lemma_in_flight_bounded(s: UploadScheduler)
    requires
        s.wf(),
    ensures
        s.in_flight <= s.limit,
{
}

/// The final tally of a run, consumed by the status sink and the
/// session log.
pub struct SyncOutcome {
    pub total: u64,
    pub succeeded: u64,
    pub failed: Vec<String>,
}

/// The terminal status line of a run: plain completion on full success,
/// else the counts with the number of failures, flagged as an error.
pub open spec fn spec_final_status(o: SyncOutcome) -> (Seq<char>, bool) {
    if o.failed@.len() == 0 {
        ("Đồng bộ hoàn tất!"@, false)
    } else {
        (
            "Hoàn tất "@ + dec_rep(o.succeeded as int) + "/"@ + dec_rep(o.total as int)
                + ", "@ + dec_rep(o.failed@.len() as int) + " lỗi"@,
            true,
        )
    }
}

/// Renders the terminal status line of a run, and whether it reports an
/// error; the sink is never left without a terminal message.
pub fn final_status_message(o: &SyncOutcome) -> (r: (String, bool))
    ensures
        (r.0@, r.1) == spec_final_status(*o),
{
    if o.failed.len() == 0 {
        (String::from_str("Đồng bộ hoàn tất!"), false)
    } else {
        let mut out = str_to_chars("Hoàn tất ");
        let s = u64_to_string(o.succeeded);
        let sc = str_to_chars(s.as_str());
        push_all(&mut out, &sc);
        let slash = str_to_chars("/");
        push_all(&mut out, &slash);
        let t = u64_to_string(o.total);
        let tc = str_to_chars(t.as_str());
        push_all(&mut out, &tc);
        let comma = str_to_chars(", ");
        push_all(&mut out, &comma);
        let k = u64_to_string(o.failed.len() as u64);
        let kc = str_to_chars(k.as_str());
        push_all(&mut out, &kc);
        let tail = str_to_chars(" lỗi");
        push_all(&mut out, &tail);
        (chars_to_string(&out), true)
    }
}

/// The status line pushed through the sink after one success.
pub open spec fn spec_progress_message(
    name: Seq<char>,
    completed: u64,
    total: u64,
) -> Seq<char> {
    "Đang upload: "@ + name + " ("@ + dec_rep(completed as int) + "/"@ + dec_rep(
        total as int,
    ) + ")"@
}

/// Renders the progress line for one finished upload.
pub fn progress_message(display_name: &str, completed: u64, total: u64) -> (r: String)
    ensures
        r@ == spec_progress_message(display_name@, completed, total),
{
    let mut out = str_to_chars("Đang upload: ");
    let nc = str_to_chars(display_name);
    push_all(&mut out, &nc);
    let open_paren = str_to_chars(" (");
    push_all(&mut out, &open_paren);
    let c = u64_to_string(completed);
    let cc = str_to_chars(c.as_str());
    push_all(&mut out, &cc);
    let slash = str_to_chars("/");
    push_all(&mut out, &slash);
    let t = u64_to_string(total);
    let tc = str_to_chars(t.as_str());
    push_all(&mut out, &tc);
    let close_paren = str_to_chars(")");
    push_all(&mut out, &close_paren);
    chars_to_string(&out)
}

/// The failure message recorded when an upload call fails.
pub fn upload_error_message(key: &str, detail: &str) -> (r: String)
    ensures
        r@ == "Lỗi upload "@ + key@ + ": "@ + detail@,
{
    let mut out = str_to_chars("Lỗi upload ");
    let kc = str_to_chars(key);
    push_all(&mut out, &kc);
    let mid = str_to_chars(": ");
    push_all(&mut out, &mid);
    let dc = str_to_chars(detail);
    push_all(&mut out, &dc);
    chars_to_string(&out)
}

/// The failure message recorded when a local file cannot be opened.
pub fn open_error_message(path: &str, detail: &str) -> (r: String)
    ensures
        r@ == "Lỗi mở file "@ + path@ + ": "@ + detail@,
{
    let mut out = str_to_chars("Lỗi mở file ");
    let pc = str_to_chars(path);
    push_all(&mut out, &pc);
    let mid = str_to_chars(": ");
    push_all(&mut out, &mid);
    let dc = str_to_chars(detail);
    push_all(&mut out, &dc);
    chars_to_string(&out)
}

/// A day or month number padded to two digits.
pub open spec fn pad2_rep(n: int) -> Seq<char> {
    if n < 10 {
        seq!['0'] + dec_rep(n)
    } else {
        dec_rep(n)
    }
}

fn pad2(n: u64) -> (r: Vec<char>)
    ensures
        r@ == pad2_rep(n as int),
{
    let mut out: Vec<char> = Vec::new();
    if n < 10 {
        out.push('0');
        proof {
            assert(out@ =~= seq!['0']);
        }
    }
    let s = u64_to_string(n);
    let digits = str_to_chars(s.as_str());
    push_all(&mut out, &digits);
    out
}

/// The name of the session log for a calendar day.
pub open spec fn spec_log_file_name(day: u64, month: u64, year: i64) -> Seq<char> {
    "sync_log_"@ + pad2_rep(day as int) + "_"@ + pad2_rep(month as int) + "_"@
        + int_dec_rep(year as int) + ".log"@
}

/// Renders the name of the session log for a calendar day.
pub fn log_file_name(day: u64, month: u64, year: i64) -> (r: String)
    ensures
        r@ == spec_log_file_name(day, month, year),
{
    let mut out = str_to_chars("sync_log_");
    let d = pad2(day);
    push_all(&mut out, &d);
    let sep1 = str_to_chars("_");
    push_all(&mut out, &sep1);
    let m = pad2(month);
    push_all(&mut out, &m);
    let sep2 = str_to_chars("_");
    push_all(&mut out, &sep2);
    let y = i64_to_string(year);
    let yc = str_to_chars(y.as_str());
    push_all(&mut out, &yc);
    let tail = str_to_chars(".log");
    push_all(&mut out, &tail);
    chars_to_string(&out)
}

/// The full path of the session log beneath the configured directory.
pub open spec fn spec_log_file_path(
    dir: Seq<char>,
    day: u64,
    month: u64,
    year: i64,
) -> Seq<char> {
    dir + "/"@ + spec_log_file_name(day, month, year)
}

/// Renders the full path of the session log for a calendar day.
pub fn log_file_path(log_dir: &str, day: u64, month: u64, year: i64) -> (r: String)
    ensures
        r@ == spec_log_file_path(log_dir@, day, month, year),
{
    let mut out = str_to_chars(log_dir);
    let sep = str_to_chars("/");
    push_all(&mut out, &sep);
    let name = log_file_name(day, month, year);
    let nc = str_to_chars(name.as_str());
    push_all(&mut out, &nc);
    chars_to_string(&out)
}

/// Relies on `chrono::Local::now` and the `chrono::Datelike` accessors
/// `day`, `month` and `year`: the local calendar date, whose day lies in
/// one to thirty-one and whose month in one to twelve, as the crate
/// documents; nothing more is assumed of the clock.
#[verifier::external_body]
fn local_date() -> (r: (u64, u64, i64))
    ensures
        1 <= r.0 <= 31,
        1 <= r.1 <= 12,
{
    let now = chrono::Local::now();
    (now.day() as u64, now.month() as u64, now.year() as i64)
}

/// Relies on `chrono::Local::now` and `DateTime::format` with a fixed
/// year-to-second format: a wall-clock timestamp rendered as text;
/// nothing is assumed of its value.
#[verifier::external_body]
fn local_timestamp() -> (r: String)
{
    chrono::Local::now().format("%Y-%m-%d %H:%M:%S").to_string()
}

/// The path of today's session log beneath the configured directory:
/// whatever the clock read, the path is the dated log-file path for a
/// plausible calendar day.
pub fn current_log_file_path(log_dir: &str) -> (r: String)
    ensures
        exists|d: u64, m: u64, y: i64|
            1 <= d <= 31 && 1 <= m <= 12 && r@ == spec_log_file_path(log_dir@, d, m, y),
{
    let (day, month, year) = local_date();
    let r = log_file_path(log_dir, day, month, year);
    proof {
        assert(1 <= day <= 31 && 1 <= month <= 12 && r@ == spec_log_file_path(
            log_dir@,
            day,
            month,
            year,
        ));
    }
    r
}

/// The separator ruling between sessions in the log.
pub fn log_separator_line() -> (r: String)
    ensures
        r@ == "--------------------------------------------------"@,
{
    String::from_str("--------------------------------------------------")
}

/// The header line opening a session in the log.
pub fn session_header_line(bucket: &str) -> (r: String)
    ensures
        r@ == "Sync Session Started - Bucket: "@ + bucket@,
{
    let mut out = str_to_chars("Sync Session Started - Bucket: ");
    let bc = str_to_chars(bucket);
    push_all(&mut out, &bc);
    chars_to_string(&out)
}

/// The status word of a finished run as the log records it.
pub open spec fn spec_outcome_status(o: SyncOutcome) -> Seq<char> {
    if o.failed@.len() == 0 {
        "success"@
    } else {
        "failed ("@ + dec_rep(o.failed@.len() as int) + " errors)"@
    }
}

/// Renders the status word of a finished run.
pub fn outcome_status_text(o: &SyncOutcome) -> (r: String)
    ensures
        r@ == spec_outcome_status(*o),
{
    if o.failed.len() == 0 {
        String::from_str("success")
    } else {
        let mut out = str_to_chars("failed (");
        let k = u64_to_string(o.failed.len() as u64);
        let kc = str_to_chars(k.as_str());
        push_all(&mut out, &kc);
        let tail = str_to_chars(" errors)");
        push_all(&mut out, &tail);
        chars_to_string(&out)
    }
}

/// The summary line closing a session in the log.
pub open spec fn spec_summary_line(
    succeeded: u64,
    total: u64,
    timestamp: Seq<char>,
    bucket: Seq<char>,
    status: Seq<char>,
) -> Seq<char> {
    "Uploaded: "@ + dec_rep(succeeded as int) + "/"@ + dec_rep(total as int)
        + " files | Time: "@ + timestamp + " | Bucket: "@ + bucket + " | Status: "@
        + status
}

/// Renders the summary line of a finished run, stamped with the current
/// wall-clock time: whatever the clock read, the line is the summary of
/// exactly this outcome against this bucket.
pub fn summary_log_line(o: &SyncOutcome, bucket: &str) -> (r: String)
    ensures
        exists|ts: Seq<char>|
            r@ == spec_summary_line(o.succeeded, o.total, ts, bucket@, spec_outcome_status(
                *o,
            )),
{
    let ts = local_timestamp();
    let status = outcome_status_text(o);
    let mut out = str_to_chars("Uploaded: ");
    let s = u64_to_string(o.succeeded);
    let sc = str_to_chars(s.as_str());
    push_all(&mut out, &sc);
    let slash = str_to_chars("/");
    push_all(&mut out, &slash);
    let t = u64_to_string(o.total);
    let tc = str_to_chars(t.as_str());
    push_all(&mut out, &tc);
    let mid1 = str_to_chars(" files | Time: ");
    push_all(&mut out, &mid1);
    let tsc = str_to_chars(ts.as_str());
    push_all(&mut out, &tsc);
    let mid2 = str_to_chars(" | Bucket: ");
    push_all(&mut out, &mid2);
    let bc = str_to_chars(bucket);
    push_all(&mut out, &bc);
    let mid3 = str_to_chars(" | Status: ");
    push_all(&mut out, &mid3);
    let stc = str_to_chars(status.as_str());
    push_all(&mut out, &stc);
    let r = chars_to_string(&out);
    proof {
        assert(r@ == spec_summary_line(o.succeeded, o.total, ts@, bucket@,
        spec_outcome_status(*o)));
    }
    r
}

/// The header opening the failure list in the log.
pub fn errors_header_line() -> (r: String)
    ensures
        r@ == "Errors:"@,
{
    String::from_str("Errors:")
}

/// One recorded failure as the log lists it.
pub fn error_detail_line(err: &str) -> (r: String)
    ensures
        r@ == "  - "@ + err@,
{
    let mut out = str_to_chars("  - ");
    let ec = str_to_chars(err);
    push_all(&mut out, &ec);
    chars_to_string(&out)
}

} // verus!
