//! Character-level text utilities shared by the filtering, prefix and
//! logging modules. Strings are manipulated as vectors of characters so
//! that every step is verified against the `Seq<char>` view.

use vstd::prelude::*;
use vstd::string::StrSliceExecFns;

verus! {

/// Relies on `alloc::string::String::push`: appends one character to the
/// end of the string.
pub assume_specification[ String::push ](s: &mut String, c: char)
    ensures
        final(s)@ == old(s)@.push(c),
;

/// Copies the characters of a string slice into a vector.
pub fn str_to_chars(s: &str) -> (r: Vec<char>)
    ensures
        r@ == s@,
{
    let n: usize = s.unicode_len();
    let mut r: Vec<char> = Vec::new();
    let mut i: usize = 0;
    while i < n
        invariant
            n == s@.len(),
            i <= n,
            r@ == s@.take(i as int),
        decreases n - i,
    {
        r.push(s.get_char(i));
        i = i + 1;
        proof {
            assert(r@ =~= s@.take(i as int));
        }
    }
    proof {
        assert(r@ =~= s@);
    }
    r
}

/// Builds a string out of a vector of characters.
pub fn chars_to_string(v: &Vec<char>) -> (r: String)
    ensures
        r@ == v@,
{
    let mut r = String::new();
    let mut i: usize = 0;
    while i < v.len()
        invariant
            i <= v@.len(),
            r@ == v@.take(i as int),
        decreases v@.len() - i,
    {
        r.push(v[i]);
        i = i + 1;
        proof {
            assert(r@ =~= v@.take(i as int));
        }
    }
    proof {
        assert(r@ =~= v@);
    }
    r
}

/// Whether `pre` is a prefix of `s`.
pub open spec fn seq_starts_with(s: Seq<char>, pre: Seq<char>) -> bool {
    pre.len() <= s.len() && s.subrange(0, pre.len() as int) == pre
}

/// Whether `suf` is a suffix of `s`.
pub open spec fn seq_ends_with(s: Seq<char>, suf: Seq<char>) -> bool {
    suf.len() <= s.len() && s.subrange(s.len() - suf.len(), s.len() as int) == suf
}

/// Whether `sub` occurs contiguously somewhere in `s`.
pub open spec fn seq_contains_sub(s: Seq<char>, sub: Seq<char>) -> bool {
    exists|i: int|
        0 <= i <= s.len() - sub.len() && #[trigger] s.subrange(i, i + sub.len() as int) == sub
}

/// Compares two character vectors for equality of their contents.
pub fn chars_eq(a: &Vec<char>, b: &Vec<char>) -> (r: bool)
    ensures
        r == (a@ == b@),
{
    if a.len() != b.len() {
        return false;
    }
    let mut i: usize = 0;
    while i < a.len()
        invariant
            a@.len() == b@.len(),
            i <= a@.len(),
            forall|j: int| 0 <= j < i ==> a@[j] == b@[j],
        decreases a@.len() - i,
    {
        if a[i] != b[i] {
            return false;
        }
        i = i + 1;
    }
    proof {
        assert(a@ =~= b@);
    }
    true
}

/// Compares a character vector against a string slice.
pub fn chars_eq_str(a: &Vec<char>, s: &str) -> (r: bool)
    ensures
        r == (a@ == s@),
{
    let n: usize = s.unicode_len();
    if a.len() != n {
        return false;
    }
    let mut i: usize = 0;
    while i < n
        invariant
            n == s@.len(),
            a@.len() == n,
            i <= n,
            forall|j: int| 0 <= j < i ==> a@[j] == s@[j],
        decreases n - i,
    {
        if a[i] != s.get_char(i) {
            return false;
        }
        i = i + 1;
    }
    proof {
        assert(a@ =~= s@);
    }
    true
}

/// Whether the character `c` occurs in `v`.
pub fn chars_contain(v: &Vec<char>, c: char) -> (r: bool)
    ensures
        r == v@.contains(c),
{
    let mut i: usize = 0;
    while i < v.len()
        invariant
            i <= v@.len(),
            forall|j: int| 0 <= j < i ==> v@[j] != c,
        decreases v@.len() - i,
    {
        if v[i] == c {
            return true;
        }
        i = i + 1;
    }
    false
}

/// Whether `pre` is a prefix of `v`.
pub fn chars_start_with(v: &Vec<char>, pre: &Vec<char>) -> (r: bool)
    ensures
        r == seq_starts_with(v@, pre@),
{
    if pre.len() > v.len() {
        return false;
    }
    let mut i: usize = 0;
    while i < pre.len()
        invariant
            pre@.len() <= v@.len(),
            i <= pre@.len(),
            forall|j: int| 0 <= j < i ==> v@[j] == pre@[j],
        decreases pre@.len() - i,
    {
        if v[i] != pre[i] {
            proof {
                assert(v@.subrange(0, pre@.len() as int)[i as int] == v@[i as int]);
            }
            return false;
        }
        i = i + 1;
    }
    proof {
        assert(v@.subrange(0, pre@.len() as int) =~= pre@);
    }
    true
}

/// Whether `suf` is a suffix of `v`.
pub fn chars_end_with(v: &Vec<char>, suf: &Vec<char>) -> (r: bool)
    ensures
        r == seq_ends_with(v@, suf@),
{
    let n: usize = v.len();
    let m: usize = suf.len();
    if m > n {
        return false;
    }
    let off: usize = n - m;
    let mut i: usize = 0;
    while i < m
        invariant
            n == v@.len(),
            m == suf@.len(),
            m <= n,
            off == n - m,
            i <= m,
            forall|j: int| 0 <= j < i ==> v@[off + j] == suf@[j],
        decreases m - i,
    {
        if v[off + i] != suf[i] {
            proof {
                assert(v@.subrange(v@.len() - suf@.len(), v@.len() as int)[i as int]
                    == v@[off + i]);
            }
            return false;
        }
        i = i + 1;
    }
    proof {
        assert(v@.subrange(v@.len() - suf@.len(), v@.len() as int) =~= suf@);
    }
    true
}

/// Whether `sub` occurs in `v` starting exactly at position `i`.
fn chars_match_at(v: &Vec<char>, sub: &Vec<char>, i: usize) -> (r: bool)
    requires
        i + sub@.len() <= v@.len(),
    ensures
        r == (v@.subrange(i as int, i + sub@.len() as int) == sub@),
{
    let n: usize = v.len();
    let m: usize = sub.len();
    let mut j: usize = 0;
    while j < m
        invariant
            n == v@.len(),
            m == sub@.len(),
            i + m <= n,
            j <= m,
            forall|t: int| 0 <= t < j ==> v@[i + t] == sub@[t],
        decreases m - j,
    {
        if v[i + j] != sub[j] {
            proof {
                assert(v@.subrange(i as int, i + sub@.len() as int)[j as int] == v@[i + j]);
            }
            return false;
        }
        j = j + 1;
    }
    proof {
        assert(v@.subrange(i as int, i + sub@.len() as int) =~= sub@);
    }
    true
}

/// Whether `sub` occurs contiguously in `v`.
pub fn chars_contain_sub(v: &Vec<char>, sub: &Vec<char>) -> (r: bool)
    ensures
        r == seq_contains_sub(v@, sub@),
{
    if sub.len() > v.len() {
        return false;
    }
    if sub.len() == 0 {
        proof {
            assert(v@.subrange(0, 0) =~= sub@);
            assert(v@.subrange(0, 0 + sub@.len() as int) == sub@);
        }
        return true;
    }
    let last: usize = v.len() - sub.len();
    let mut i: usize = 0;
    while i <= last
        invariant
            1 <= sub@.len() <= v@.len(),
            last == v@.len() - sub@.len(),
            last < usize::MAX,
            i <= last + 1,
            forall|k: int|
                0 <= k < i ==> #[trigger] v@.subrange(k, k + sub@.len() as int) != sub@,
        decreases last + 1 - i,
    {
        if chars_match_at(v, sub, i) {
            return true;
        }
        i = i + 1;
    }
    false
}

/// Copies `v[from..to]` into a fresh vector.
pub fn chars_subrange(v: &Vec<char>, from: usize, to: usize) -> (r: Vec<char>)
    requires
        from <= to <= v@.len(),
    ensures
        r@ == v@.subrange(from as int, to as int),
{
    let mut r: Vec<char> = Vec::new();
    let mut i: usize = from;
    while i < to
        invariant
            from <= i <= to <= v@.len(),
            r@ == v@.subrange(from as int, i as int),
        decreases to - i,
    {
        r.push(v[i]);
        i = i + 1;
        proof {
            assert(r@ =~= v@.subrange(from as int, i as int));
        }
    }
    r
}

/// Appends all characters of `part` to `out`.
pub fn push_all(out: &mut Vec<char>, part: &Vec<char>)
    ensures
        final(out)@ == old(out)@ + part@,
{
    let mut i: usize = 0;
    while i < part.len()
        invariant
            i <= part@.len(),
            out@ == old(out)@ + part@.take(i as int),
        decreases part@.len() - i,
    {
        out.push(part[i]);
        i = i + 1;
        proof {
            assert(out@ =~= old(out)@ + part@.take(i as int));
        }
    }
    proof {
        assert(old(out)@ + part@.take(part@.len() as int) =~= old(out)@ + part@);
    }
}

/// The characters treated as blank space when a value is trimmed.
pub open spec fn is_space_char(c: char) -> bool {
    c == ' ' || c == '\t' || c == '\n' || c == '\r'
}

/// `s` without its leading characters that satisfy `p`.
pub open spec fn trim_left_if(s: Seq<char>, p: spec_fn(char) -> bool) -> Seq<char>
    decreases s.len(),
{
    if s.len() > 0 && p(s[0]) {
        trim_left_if(s.drop_first(), p)
    } else {
        s
    }
}

/// `s` without its trailing characters that satisfy `p`.
pub open spec fn trim_right_if(s: Seq<char>, p: spec_fn(char) -> bool) -> Seq<char>
    decreases s.len(),
{
    if s.len() > 0 && p(s.last()) {
        trim_right_if(s.drop_last(), p)
    } else {
        s
    }
}

/// `s` without leading and trailing characters that satisfy `p`.
pub open spec fn trim_if(s: Seq<char>, p: spec_fn(char) -> bool) -> Seq<char> {
    trim_right_if(trim_left_if(s, p), p)
}

/// `s` without leading and trailing blank space.
pub open spec fn trim_spaces(s: Seq<char>) -> Seq<char> {
    trim_if(s, |c: char| is_space_char(c))
}

/// Tests a character for blank space.
pub fn is_space_char_exec(c: char) -> (r: bool)
    ensures
        r == is_space_char(c),
{
    c == ' ' || c == '\t' || c == '\n' || c == '\r'
}

/// Removes leading and trailing blank space from a character vector.
#[verifier::loop_isolation(false)]
pub fn trim_chars(v: &Vec<char>) -> (r: Vec<char>)
    ensures
        r@ == trim_spaces(v@),
{
    let ghost p = |c: char| is_space_char(c);
    let n: usize = v.len();
    let mut a: usize = 0;
    proof {
        assert(v@.skip(0) =~= v@);
    }
    while a < n && is_space_char_exec(v[a])
        invariant
            n == v@.len(),
            a <= n,
            trim_left_if(v@, p) == trim_left_if(v@.skip(a as int), p),
        decreases n - a,
    {
        proof {
            assert(v@.skip(a as int)[0] == v@[a as int]);
            assert(v@.skip(a as int).drop_first() =~= v@.skip(a + 1));
        }
        a = a + 1;
    }
    proof {
        assert(trim_left_if(v@, p) == v@.skip(a as int));
    }
    let mut b: usize = n;
    proof {
        assert(v@.skip(a as int) =~= v@.subrange(a as int, n as int));
    }
    while b > a && is_space_char_exec(v[b - 1])
        invariant
            n == v@.len(),
            a <= b <= n,
            trim_left_if(v@, p) == v@.skip(a as int),
            trim_right_if(v@.skip(a as int), p) == trim_right_if(
                v@.subrange(a as int, b as int),
                p,
            ),
        decreases b,
    {
        proof {
            assert(v@.subrange(a as int, b as int).last() == v@[b - 1]);
            assert(v@.subrange(a as int, b as int).drop_last() =~= v@.subrange(
                a as int,
                b - 1,
            ));
        }
        b = b - 1;
    }
    proof {
        if b > a {
            assert(v@.subrange(a as int, b as int).last() == v@[b - 1]);
        }
        assert(trim_right_if(v@.subrange(a as int, b as int), p) == v@.subrange(
            a as int,
            b as int,
        ));
    }
    chars_subrange(v, a, b)
}

/// Removes trailing occurrences of `sep` from a character vector, as a
/// path's redundant closing separators are dropped.
#[verifier::loop_isolation(false)]
pub fn trim_trailing(v: &Vec<char>, sep: char) -> (r: Vec<char>)
    ensures
        r@ == trim_right_if(v@, |c: char| c == sep),
{
    let ghost p = |c: char| c == sep;
    let n: usize = v.len();
    let mut b: usize = n;
    proof {
        assert(v@.subrange(0, n as int) =~= v@);
    }
    while b > 0 && v[b - 1] == sep
        invariant
            n == v@.len(),
            b <= n,
            trim_right_if(v@, p) == trim_right_if(v@.subrange(0, b as int), p),
        decreases b,
    {
        proof {
            assert(v@.subrange(0, b as int).last() == v@[b - 1]);
            assert(v@.subrange(0, b as int).drop_last() =~= v@.subrange(0, b - 1));
        }
        b = b - 1;
    }
    proof {
        if b > 0 {
            assert(v@.subrange(0, b as int).last() == v@[b - 1]);
        }
        assert(trim_right_if(v@.subrange(0, b as int), p) == v@.subrange(0, b as int));
    }
    chars_subrange(v, 0, b)
}

/// Removes leading occurrences of `sep` from a character vector.
#[verifier::loop_isolation(false)]
pub fn trim_leading(v: &Vec<char>, sep: char) -> (r: Vec<char>)
    ensures
        r@ == trim_left_if(v@, |c: char| c == sep),
{
    let ghost p = |c: char| c == sep;
    let n: usize = v.len();
    let mut a: usize = 0;
    proof {
        assert(v@.skip(0) =~= v@);
    }
    while a < n && v[a] == sep
        invariant
            n == v@.len(),
            a <= n,
            trim_left_if(v@, p) == trim_left_if(v@.skip(a as int), p),
        decreases n - a,
    {
        proof {
            assert(v@.skip(a as int)[0] == v@[a as int]);
            assert(v@.skip(a as int).drop_first() =~= v@.skip(a + 1));
        }
        a = a + 1;
    }
    proof {
        assert(trim_left_if(v@, p) == v@.skip(a as int));
    }
    chars_subrange(v, a, n)
}

/// The pieces of `s` between occurrences of `sep`, in order. A string
/// with no separator yields one piece; separators at the ends yield
/// empty pieces, as the usual string split does.
pub open spec fn split_on(s: Seq<char>, sep: char) -> Seq<Seq<char>>
    decreases s.len(),
{
    if s.len() == 0 {
        seq![Seq::<char>::empty()]
    } else if s[0] == sep {
        seq![Seq::<char>::empty()] + split_on(s.drop_first(), sep)
    } else {
        let rest = split_on(s.drop_first(), sep);
        seq![seq![s[0]] + rest[0]] + rest.drop_first()
    }
}

pub proof fn lemma_split_on_nonempty(s: Seq<char>, sep: char)
    ensures
        split_on(s, sep).len() >= 1,
    decreases s.len(),
{
    if s.len() > 0 {
        lemma_split_on_nonempty(s.drop_first(), sep);
    }
}

/// `parts` with `c` prepended to its first piece.
spec fn graft_first(c: Seq<char>, parts: Seq<Seq<char>>) -> Seq<Seq<char>>
    recommends
        parts.len() >= 1,
{
    seq![c + parts[0]] + parts.drop_first()
}

/// Splits a character vector on a separator character.
#[verifier::loop_isolation(false)]
pub fn chars_split(v: &Vec<char>, sep: char) -> (r: Vec<Vec<char>>)
    ensures
        r.deep_view() == split_on(v@, sep),
        r@.len() >= 1,
{
    let n: usize = v.len();
    let mut parts: Vec<Vec<char>> = Vec::new();
    let mut cur: Vec<char> = Vec::new();
    let mut i: usize = 0;
    proof {
        lemma_split_on_nonempty(v@, sep);
        assert(v@.skip(0) =~= v@);
        assert(Seq::<char>::empty() + split_on(v@, sep)[0] =~= split_on(v@, sep)[0]);
        assert(graft_first(cur@, split_on(v@.skip(0), sep)) =~= split_on(v@, sep));
    }
    while i < n
        invariant
            n == v@.len(),
            i <= n,
            split_on(v@.skip(i as int), sep).len() >= 1,
            split_on(v@, sep) == parts.deep_view() + graft_first(
                cur@,
                split_on(v@.skip(i as int), sep),
            ),
        decreases n - i,
    {
        let ghost before = split_on(v@.skip(i as int), sep);
        let ghost after = split_on(v@.skip(i + 1), sep);
        proof {
            lemma_split_on_nonempty(v@.skip(i + 1), sep);
            assert(v@.skip(i as int)[0] == v@[i as int]);
            assert(v@.skip(i as int).drop_first() =~= v@.skip(i + 1));
        }
        if v[i] == sep {
            let ghost prev = parts.deep_view();
            let ghost done = cur@;
            proof {
                assert(before =~= seq![Seq::<char>::empty()] + after);
                assert(graft_first(cur@, before) =~= seq![cur@] + after);
                assert(prev + (seq![done] + after) =~= (prev + seq![done]) + after);
            }
            let finished = cur;
            parts.push(finished);
            cur = Vec::new();
            proof {
                assert(parts.deep_view() =~~= prev + seq![done]);
                assert(graft_first(cur@, after) =~= after);
            }
        } else {
            proof {
                assert(before =~= seq![seq![v@[i as int]] + after[0]] + after.drop_first());
                assert(graft_first(cur@, before) =~~= graft_first(
                    cur@.push(v@[i as int]),
                    after,
                ));
            }
            cur.push(v[i]);
        }
        i = i + 1;
    }
    let ghost prev = parts.deep_view();
    let ghost done = cur@;
    proof {
        assert(v@.skip(n as int) =~= Seq::<char>::empty());
        assert(split_on(v@.skip(n as int), sep) =~= seq![Seq::<char>::empty()]);
        assert(graft_first(cur@, split_on(v@.skip(n as int), sep)) =~= seq![cur@]);
    }
    parts.push(cur);
    proof {
        assert(parts.deep_view() =~~= prev + seq![done]);
        assert(split_on(v@, sep) =~= parts.deep_view());
    }
    parts
}

/// The pieces of `parts` joined in order with `sep` between them.
pub open spec fn join_with(parts: Seq<Seq<char>>, sep: Seq<char>) -> Seq<char>
    decreases parts.len(),
{
    if parts.len() == 0 {
        Seq::<char>::empty()
    } else if parts.len() == 1 {
        parts[0]
    } else {
        parts[0] + sep + join_with(parts.drop_first(), sep)
    }
}

pub proof fn lemma_join_with_append(parts: Seq<Seq<char>>, piece: Seq<char>, sep: Seq<char>)
    requires
        parts.len() >= 1,
    ensures
        join_with(parts.push(piece), sep) == join_with(parts, sep) + sep + piece,
    decreases parts.len(),
{
    if parts.len() == 1 {
        assert(parts.push(piece).drop_first() =~= seq![piece]);
        assert(join_with(seq![piece], sep) == piece);
        assert(join_with(parts.push(piece), sep) == parts[0] + sep + piece);
    } else {
        lemma_join_with_append(parts.drop_first(), piece, sep);
        assert(parts.push(piece).drop_first() =~= parts.drop_first().push(piece));
        assert((parts[0] + sep) + (join_with(parts.drop_first(), sep) + sep + piece) =~= ((
        parts[0] + sep) + join_with(parts.drop_first(), sep)) + sep + piece);
    }
}

/// Joins character vectors with a separator string.
#[verifier::loop_isolation(false)]
pub fn chars_join(parts: &Vec<Vec<char>>, sep: &Vec<char>) -> (r: Vec<char>)
    ensures
        r@ == join_with(parts.deep_view(), sep@),
{
    let mut out: Vec<char> = Vec::new();
    if parts.len() == 0 {
        return out;
    }
    push_all(&mut out, &parts[0]);
    proof {
        assert(parts.deep_view().take(1) =~= seq![parts.deep_view()[0]]);
        assert(out@ =~= join_with(parts.deep_view().take(1), sep@));
    }
    let mut i: usize = 1;
    while i < parts.len()
        invariant
            1 <= i <= parts@.len(),
            out@ == join_with(parts.deep_view().take(i as int), sep@),
        decreases parts@.len() - i,
    {
        push_all(&mut out, sep);
        push_all(&mut out, &parts[i]);
        proof {
            lemma_join_with_append(parts.deep_view().take(i as int), parts.deep_view()[
                i as int], sep@);
            assert(parts.deep_view().take(i as int).push(parts.deep_view()[i as int])
                =~= parts.deep_view().take(i + 1));
        }
        i = i + 1;
    }
    proof {
        assert(parts.deep_view().take(parts@.len() as int) =~= parts.deep_view());
    }
    out
}

/// The position of the last occurrence of `c` in `s`, or -1 when it does
/// not occur.
pub open spec fn last_index_of(s: Seq<char>, c: char) -> int
    decreases s.len(),
{
    if s.len() == 0 {
        -1
    } else if s.last() == c {
        s.len() - 1
    } else {
        last_index_of(s.drop_last(), c)
    }
}

/// Finds the last occurrence of `c` in a character vector.
#[verifier::loop_isolation(false)]
pub fn chars_last_index_of(v: &Vec<char>, c: char) -> (r: Option<usize>)
    ensures
        match r {
            Option::Some(i) => i < v@.len() && last_index_of(v@, c) == i,
            Option::None => last_index_of(v@, c) == -1,
        },
{
    let mut b: usize = v.len();
    proof {
        assert(v@.take(v@.len() as int) =~= v@);
    }
    while b > 0
        invariant
            b <= v@.len(),
            last_index_of(v@, c) == last_index_of(v@.take(b as int), c),
        decreases b,
    {
        proof {
            assert(v@.take(b as int).last() == v@[b - 1]);
            assert(v@.take(b as int).drop_last() =~= v@.take(b - 1));
        }
        if v[b - 1] == c {
            return Some(b - 1);
        }
        b = b - 1;
    }
    None
}

/// The ASCII lower-case counterpart of a character; other characters are
/// left unchanged.
pub open spec fn lower_char(c: char) -> char {
    if 'A' <= c <= 'Z' {
        ((c as u8) + 32) as char
    } else {
        c
    }
}

/// `s` with every ASCII upper-case letter lowered.
pub open spec fn lower_seq(s: Seq<char>) -> Seq<char> {
    s.map_values(|c: char| lower_char(c))
}

/// Lowers one ASCII character.
pub fn lower_char_exec(c: char) -> (r: char)
    ensures
        r == lower_char(c),
{
    if 'A' <= c && c <= 'Z' {
        ((c as u8) + 32) as char
    } else {
        c
    }
}

/// Lowers every ASCII upper-case letter of a character vector.
#[verifier::loop_isolation(false)]
pub fn chars_lower(v: &Vec<char>) -> (r: Vec<char>)
    ensures
        r@ == lower_seq(v@),
{
    let mut r: Vec<char> = Vec::new();
    let mut i: usize = 0;
    while i < v.len()
        invariant
            i <= v@.len(),
            r@ == lower_seq(v@.take(i as int)),
        decreases v@.len() - i,
    {
        r.push(lower_char_exec(v[i]));
        i = i + 1;
        proof {
            assert(r@ =~= lower_seq(v@.take(i as int)));
        }
    }
    proof {
        assert(v@.take(v@.len() as int) =~= v@);
    }
    r
}

/// `s` with every occurrence of `from` replaced by `to`.
pub open spec fn replace_char(s: Seq<char>, from: char, to: char) -> Seq<char> {
    s.map_values(|c: char| if c == from { to } else { c })
}

/// Replaces every occurrence of `from` in a character vector by `to`.
#[verifier::loop_isolation(false)]
pub fn chars_replace(v: &Vec<char>, from: char, to: char) -> (r: Vec<char>)
    ensures
        r@ == replace_char(v@, from, to),
{
    let mut r: Vec<char> = Vec::new();
    let mut i: usize = 0;
    while i < v.len()
        invariant
            i <= v@.len(),
            r@ == replace_char(v@.take(i as int), from, to),
        decreases v@.len() - i,
    {
        if v[i] == from {
            r.push(to);
        } else {
            r.push(v[i]);
        }
        i = i + 1;
        proof {
            assert(r@ =~= replace_char(v@.take(i as int), from, to));
        }
    }
    proof {
        assert(v@.take(v@.len() as int) =~= v@);
    }
    r
}

/// Copies a list of strings into character vectors.
#[verifier::loop_isolation(false)]
pub fn strings_to_char_vecs(v: &Vec<String>) -> (r: Vec<Vec<char>>)
    ensures
        r.deep_view() == v.deep_view(),
{
    let mut r: Vec<Vec<char>> = Vec::new();
    let mut i: usize = 0;
    while i < v.len()
        invariant
            i <= v@.len(),
            r.deep_view() == v.deep_view().take(i as int),
        decreases v@.len() - i,
    {
        let ghost prev = r.deep_view();
        r.push(str_to_chars(v[i].as_str()));
        i = i + 1;
        proof {
            assert(r.deep_view() =~~= prev.push(v@[i - 1]@));
            assert(r.deep_view() =~~= v.deep_view().take(i as int));
        }
    }
    proof {
        assert(v.deep_view().take(v@.len() as int) =~= v.deep_view());
    }
    r
}

/// The numeric value of a decimal digit character, or -1 for any other
/// character.
pub open spec fn digit_val(c: char) -> int {
    if '0' <= c <= '9' {
        c as int - '0' as int
    } else {
        -1
    }
}

/// Whether `c` is a decimal digit.
pub open spec fn is_digit(c: char) -> bool {
    digit_val(c) >= 0
}

/// The digit character for a value below ten.
pub open spec fn digit_char(d: int) -> char
    recommends
        0 <= d <= 9,
{
    (('0' as u8) + d as u8) as char
}

/// The decimal rendering of a non-negative number, without leading
/// zeros (a single zero for the value zero).
pub open spec fn dec_rep(n: int) -> Seq<char>
    recommends
        n >= 0,
    decreases n,
{
    if n < 10 {
        seq![digit_char(n)]
    } else {
        dec_rep(n / 10).push(digit_char(n % 10))
    }
}

/// The digit character for a value below ten.
pub fn digit_char_exec(d: u64) -> (r: char)
    requires
        d <= 9,
    ensures
        r == digit_char(d as int),
{
    (('0' as u8) + (d as u8)) as char
}

/// Appends the decimal rendering of `n` to `out`.
fn push_decimal(n: u64, out: &mut Vec<char>)
    ensures
        final(out)@ == old(out)@ + dec_rep(n as int),
    decreases n,
{
    if n < 10 {
        out.push(digit_char_exec(n));
        proof {
            assert(out@ =~= old(out)@ + dec_rep(n as int));
        }
    } else {
        push_decimal(n / 10, out);
        out.push(digit_char_exec(n % 10));
        proof {
            assert(out@ =~= old(out)@ + dec_rep(n as int));
        }
    }
}

/// Renders an unsigned number in decimal.
pub fn u64_to_string(n: u64) -> (r: String)
    ensures
        r@ == dec_rep(n as int),
{
    let mut v: Vec<char> = Vec::new();
    push_decimal(n, &mut v);
    proof {
        assert(v@ =~= dec_rep(n as int));
    }
    chars_to_string(&v)
}

/// The decimal rendering of a number, with a leading minus sign when it
/// is negative.
pub open spec fn int_dec_rep(n: int) -> Seq<char> {
    if n >= 0 {
        dec_rep(n)
    } else {
        seq!['-'] + dec_rep(-n)
    }
}

/// Renders a signed number in decimal.
pub fn i64_to_string(n: i64) -> (r: String)
    ensures
        r@ == int_dec_rep(n as int),
{
    if n >= 0 {
        u64_to_string(n as u64)
    } else {
        let m: u64 = ((-(n + 1)) as u64) + 1;
        let mut v: Vec<char> = Vec::new();
        v.push('-');
        push_decimal(m, &mut v);
        proof {
            assert(v@ =~= seq!['-'] + dec_rep(m as int));
        }
        chars_to_string(&v)
    }
}

/// The value of a sequence of decimal digits, most significant first.
pub open spec fn digits_value(s: Seq<char>) -> int
    decreases s.len(),
{
    if s.len() == 0 {
        0
    } else {
        digits_value(s.drop_last()) * 10 + digit_val(s.last())
    }
}

/// Whether every character of `s` is a decimal digit.
pub open spec fn all_digits(s: Seq<char>) -> bool {
    forall|i: int| 0 <= i < s.len() ==> is_digit(#[trigger] s[i])
}

/// How a numeric setting string is read: a non-empty run of decimal
/// digits whose value fits the type; anything else is rejected.
pub open spec fn parse_u64_spec(s: Seq<char>) -> Option<u64> {
    if s.len() > 0 && all_digits(s) && digits_value(s) <= u64::MAX {
        Some(digits_value(s) as u64)
    } else {
        None
    }
}

proof fn lemma_digits_value_nonneg(s: Seq<char>)
    requires
        all_digits(s),
    ensures
        digits_value(s) >= 0,
    decreases s.len(),
{
    if s.len() > 0 {
        assert(all_digits(s.drop_last())) by {
            assert(forall|i: int|
                0 <= i < s.len() - 1 ==> #[trigger] s.drop_last()[i] == s[i]);
        }
        lemma_digits_value_nonneg(s.drop_last());
    }
}

/// Reads a decimal number out of a character vector.
#[verifier::loop_isolation(false)]
pub fn parse_u64_chars(v: &Vec<char>) -> (r: Option<u64>)
    ensures
        r == parse_u64_spec(v@),
{
    let n: usize = v.len();
    if n == 0 {
        return None;
    }
    let mut acc: u64 = 0;
    let mut i: usize = 0;
    proof {
        assert(v@.take(0) =~= Seq::<char>::empty());
    }
    while i < n
        invariant
            n == v@.len(),
            i <= n,
            all_digits(v@.take(i as int)),
            acc as int == digits_value(v@.take(i as int)),
        decreases n - i,
    {
        let c = v[i];
        if c < '0' || c > '9' {
            return None;
        }
        let d: u64 = (c as u64) - ('0' as u64);
        let wide: u128 = (acc as u128) * 10 + (d as u128);
        if wide > u64::MAX as u128 {
            proof {
                assert(v@.take(i + 1).drop_last() =~= v@.take(i as int));
                assert(v@.take(i + 1).last() == v@[i as int]);
                if all_digits(v@) {
                    lemma_digits_value_monotone(v@, i + 1);
                }
            }
            return None;
        }
        acc = wide as u64;
        i = i + 1;
        proof {
            assert(v@.take(i as int).drop_last() =~= v@.take(i - 1));
            assert(v@.take(i as int).last() == v@[i - 1]);
        }
    }
    proof {
        assert(v@.take(n as int) =~= v@);
    }
    Some(acc)
}

/// If an initial run of digits already exceeds a bound, the whole digit
/// string does too: appending digits can only grow the value.
proof fn lemma_digits_value_monotone(s: Seq<char>, i: int)
    requires
        0 <= i <= s.len(),
        all_digits(s),
    ensures
        digits_value(s) >= digits_value(s.take(i)),
    decreases s.len() - i,
{
    lemma_digits_value_nonneg(s.take(i));
    if i < s.len() {
        lemma_digits_value_monotone(s, i + 1);
        assert(s.take(i + 1).drop_last() =~= s.take(i));
        assert(s.take(i + 1).last() == s[i]);
        assert(digits_value(s.take(i + 1)) == digits_value(s.take(i)) * 10 + digit_val(
            s[i],
        ));
        lemma_digits_value_nonneg(s.take(i + 1));
    } else {
        assert(s.take(i) =~= s);
    }
}

} // verus!
