//! Validation of the operator-managed bucket and region name lists.

use vstd::prelude::*;
use vstd::string::StringExecFns;
use crate::text::{
    chars_contain_sub, chars_end_with, chars_start_with, chars_to_string, seq_contains_sub,
    seq_ends_with, seq_starts_with, str_to_chars, trim_chars, trim_spaces,
};

verus! {

/// Whether `c` is a lower-case letter or a digit.
pub open spec fn is_lower_digit(c: char) -> bool {
    ('a' <= c <= 'z') || ('0' <= c <= '9')
}

/// The character shape of a stored bucket name: it starts and ends with
/// a lower-case letter or digit, and holds only those, dots and dashes
/// in between.
pub open spec fn spec_bucket_chars_ok(s: Seq<char>) -> bool {
    &&& s.len() >= 2
    &&& is_lower_digit(s[0])
    &&& is_lower_digit(s.last())
    &&& forall|i: int|
        0 <= i < s.len() ==> (is_lower_digit(#[trigger] s[i]) || s[i] == '.' || s[i] == '-')
}

/// The character shape of a region name: one or more lower-case letters,
/// digits or dashes.
pub open spec fn spec_region_chars_ok(s: Seq<char>) -> bool {
    &&& s.len() >= 1
    &&& forall|i: int|
        0 <= i < s.len() ==> (is_lower_digit(#[trigger] s[i]) || s[i] == '-')
}

/// How many times `c` occurs in `s`.
pub open spec fn count_char(s: Seq<char>, c: char) -> int
    decreases s.len(),
{
    if s.len() == 0 {
        0
    } else {
        count_char(s.drop_last(), c) + if s.last() == c {
            1int
        } else {
            0int
        }
    }
}

/// Whether the name reads as a dotted-quad IP address: only digits and
/// dots, in exactly four dot-separated groups.
pub open spec fn spec_ip_shaped(s: Seq<char>) -> bool {
    &&& forall|i: int| 0 <= i < s.len() ==> (('0' <= #[trigger] s[i] <= '9') || s[i] == '.')
    &&& count_char(s, '.') == 3
}

/// Whether the trimmed name collides with a stored one, ignoring the
/// entry being edited, if any.
pub open spec fn spec_name_taken(
    name: Seq<char>,
    current: Seq<Seq<char>>,
    skip_index: Option<usize>,
) -> bool {
    exists|i: int|
        0 <= i < current.len() && (match skip_index {
            Option::Some(k) => i != k,
            Option::None => true,
        }) && #[trigger] current[i] == name
}

/// The verdict on a proposed bucket name, held against the storage
/// services' naming rules and the names already stored: the first
/// complaint in order, or nothing.
pub open spec fn spec_validate_bucket_name(
    name: Seq<char>,
    current: Seq<Seq<char>>,
    skip_index: Option<usize>,
) -> Option<Seq<char>> {
    let t = trim_spaces(name);
    if t.len() == 0 {
        Option::Some("Bucket name cannot be empty"@)
    } else if t.len() < 3 || t.len() > 63 {
        Option::Some("Bucket name must be between 3 and 63 characters long"@)
    } else if !spec_bucket_chars_ok(t) {
        Option::Some(
            "Invalid characters (only a-z, 0-9, . and - allowed, must start/end with letter/digit)"@,
        )
    } else if seq_contains_sub(t, ".."@) {
        Option::Some("Bucket name cannot contain consecutive periods"@)
    } else if seq_starts_with(t, "xn--"@) || seq_starts_with(t, "sthree-"@) {
        Option::Some("Bucket name cannot start with 'xn--' or 'sthree-'"@)
    } else if seq_ends_with(t, "-s3alias"@) || seq_ends_with(t, "--ol-s3"@) {
        Option::Some("Bucket name cannot end with '-s3alias' or '--ol-s3'"@)
    } else if spec_ip_shaped(t) {
        Option::Some("Bucket name cannot be formatted as an IP address"@)
    } else if spec_name_taken(t, current, skip_index) {
        Option::Some("Bucket name already exists"@)
    } else {
        Option::None
    }
}

fn bucket_chars_ok(t: &Vec<char>) -> (r: bool)
    ensures
        r == spec_bucket_chars_ok(t@),
{
    let n = t.len();
    if n < 2 {
        return false;
    }
    let mut i: usize = 0;
    while i < n
        invariant
            n == t@.len(),
            i <= n,
            forall|j: int|
                0 <= j < i ==> (is_lower_digit(#[trigger] t@[j]) || t@[j] == '.' || t@[j]
                    == '-'),
        decreases n - i,
    {
        let c = t[i];
        let ok = ('a' <= c && c <= 'z') || ('0' <= c && c <= '9') || c == '.' || c == '-';
        if !ok {
            proof {
                assert(!(is_lower_digit(t@[i as int]) || t@[i as int] == '.' || t@[
                    i as int] == '-'));
            }
            return false;
        }
        i = i + 1;
    }
    let first = t[0];
    let last = t[n - 1];
    (('a' <= first && first <= 'z') || ('0' <= first && first <= '9')) && (('a' <= last
        && last <= 'z') || ('0' <= last && last <= '9'))
}

#[verifier::loop_isolation(false)]
fn ip_shaped(t: &Vec<char>) -> (r: bool)
    ensures
        r == spec_ip_shaped(t@),
{
    let n = t.len();
    let mut dots: usize = 0;
    let mut i: usize = 0;
    proof {
        assert(t@.take(0) =~= Seq::<char>::empty());
    }
    while i < n
        invariant
            n == t@.len(),
            i <= n,
            dots <= i,
            dots == count_char(t@.take(i as int), '.'),
            forall|j: int| 0 <= j < i ==> (('0' <= #[trigger] t@[j] <= '9') || t@[j] == '.'),
        decreases n - i,
    {
        let c = t[i];
        proof {
            assert(t@.take(i + 1).drop_last() =~= t@.take(i as int));
            assert(t@.take(i + 1).last() == t@[i as int]);
        }
        if c == '.' {
            dots = dots + 1;
        } else if !('0' <= c && c <= '9') {
            return false;
        }
        i = i + 1;
    }
    proof {
        assert(t@.take(n as int) =~= t@);
    }
    dots == 3
}

#[verifier::loop_isolation(false)]
fn name_taken(t: &Vec<char>, current: &Vec<String>, skip_index: Option<usize>) -> (r:
    bool)
    ensures
        r == spec_name_taken(t@, current.deep_view(), skip_index),
{
    let mut i: usize = 0;
    while i < current.len()
        invariant
            i <= current@.len(),
            forall|j: int|
                0 <= j < i ==> !((match skip_index {
                    Option::Some(k) => j != k,
                    Option::None => true,
                }) && #[trigger] current.deep_view()[j] == t@),
        decreases current@.len() - i,
    {
        let skipped = match skip_index {
            Option::Some(k) => i == k,
            Option::None => false,
        };
        proof {
            assert(current.deep_view()[i as int] == current@[i as int]@);
        }
        if !skipped {
            let entry = str_to_chars(current[i].as_str());
            if crate::text::chars_eq(&entry, t) {
                return true;
            }
        }
        i = i + 1;
    }
    false
}

/// Checks a proposed bucket name against the naming rules and the stored
/// list, returning the first complaint or nothing when it passes.
pub fn validate_bucket_name(
    name: &str,
    current: &Vec<String>,
    skip_index: Option<usize>,
) -> (r: Option<String>)
    ensures
        crate::utils::opt_string_view(r) == spec_validate_bucket_name(
            name@,
            current.deep_view(),
            skip_index,
        ),
{
    let chars = str_to_chars(name);
    let t = trim_chars(&chars);
    let n = t.len();
    if n == 0 {
        return Some(String::from_str("Bucket name cannot be empty"));
    }
    if n < 3 || n > 63 {
        return Some(
            String::from_str("Bucket name must be between 3 and 63 characters long"),
        );
    }
    if !bucket_chars_ok(&t) {
        return Some(
            String::from_str(
                "Invalid characters (only a-z, 0-9, . and - allowed, must start/end with letter/digit)",
            ),
        );
    }
    let dots = str_to_chars("..");
    if chars_contain_sub(&t, &dots) {
        return Some(String::from_str("Bucket name cannot contain consecutive periods"));
    }
    let p1 = str_to_chars("xn--");
    let p2 = str_to_chars("sthree-");
    if chars_start_with(&t, &p1) || chars_start_with(&t, &p2) {
        return Some(
            String::from_str("Bucket name cannot start with 'xn--' or 'sthree-'"),
        );
    }
    let s1 = str_to_chars("-s3alias");
    let s2 = str_to_chars("--ol-s3");
    if chars_end_with(&t, &s1) || chars_end_with(&t, &s2) {
        return Some(
            String::from_str("Bucket name cannot end with '-s3alias' or '--ol-s3'"),
        );
    }
    if ip_shaped(&t) {
        return Some(
            String::from_str("Bucket name cannot be formatted as an IP address"),
        );
    }
    if name_taken(&t, current, skip_index) {
        return Some(String::from_str("Bucket name already exists"));
    }
    None
}

/// The verdict on a proposed region name: non-blank, made of lower-case
/// letters, digits and dashes, and not yet stored.
pub open spec fn spec_validate_region_name(
    name: Seq<char>,
    current: Seq<Seq<char>>,
    skip_index: Option<usize>,
) -> Option<Seq<char>> {
    let t = trim_spaces(name);
    if t.len() == 0 {
        Option::Some("Region name cannot be empty"@)
    } else if !spec_region_chars_ok(t) {
        Option::Some("Invalid characters (only a-z, 0-9, and - allowed)"@)
    } else if spec_name_taken(t, current, skip_index) {
        Option::Some("Region already exists"@)
    } else {
        Option::None
    }
}

fn region_chars_ok(t: &Vec<char>) -> (r: bool)
    ensures
        r == spec_region_chars_ok(t@),
{
    let n = t.len();
    if n == 0 {
        return false;
    }
    let mut i: usize = 0;
    while i < n
        invariant
            n == t@.len(),
            i <= n,
            forall|j: int|
                0 <= j < i ==> (is_lower_digit(#[trigger] t@[j]) || t@[j] == '-'),
        decreases n - i,
    {
        let c = t[i];
        let ok = ('a' <= c && c <= 'z') || ('0' <= c && c <= '9') || c == '-';
        if !ok {
            proof {
                assert(!(is_lower_digit(t@[i as int]) || t@[i as int] == '-'));
            }
            return false;
        }
        i = i + 1;
    }
    true
}

/// Checks a proposed region name against the naming rules and the stored
/// list, returning the first complaint or nothing when it passes.
pub fn validate_region_name(
    name: &str,
    current: &Vec<String>,
    skip_index: Option<usize>,
) -> (r: Option<String>)
    ensures
        crate::utils::opt_string_view(r) == spec_validate_region_name(
            name@,
            current.deep_view(),
            skip_index,
        ),
{
    let chars = str_to_chars(name);
    let t = trim_chars(&chars);
    if t.len() == 0 {
        return Some(String::from_str("Region name cannot be empty"));
    }
    if !region_chars_ok(&t) {
        return Some(String::from_str("Invalid characters (only a-z, 0-9, and - allowed)"));
    }
    if name_taken(&t, current, skip_index) {
        return Some(String::from_str("Region already exists"));
    }
    None
}

/// Returns the trimmed form under which a validated name is stored.
pub fn stored_name(name: &str) -> (r: String)
    ensures
        r@ == trim_spaces(name@),
{
    let chars = str_to_chars(name);
    let t = trim_chars(&chars);
    chars_to_string(&t)
}

/// Appends a validated name to the stored list, in its trimmed form.
pub fn add_name(list: &mut Vec<String>, name: &str)
    ensures
        final(list).deep_view() == old(list).deep_view().push(trim_spaces(name@)),
{
    let ghost prev = list.deep_view();
    let n = stored_name(name);
    list.push(n);
    proof {
        assert(list.deep_view() =~~= prev.push(trim_spaces(name@)));
    }
}

/// Renames a stored entry in place, in its trimmed form, and tells the
/// caller the new form and whether the renamed entry was the selected
/// one (whose selection then follows the rename).
pub fn update_name(list: &mut Vec<String>, index: usize, name: &str, selected: &str) -> (r:
    (String, bool))
    requires
        index < old(list)@.len(),
    ensures
        final(list).deep_view() == old(list).deep_view().update(
            index as int,
            trim_spaces(name@),
        ),
        r.0@ == trim_spaces(name@),
        r.1 == (selected@ == old(list)@[index as int]@),
{
    let ghost prev = list.deep_view();
    let was_selected = {
        let stored = str_to_chars(list[index].as_str());
        let sel = str_to_chars(selected);
        crate::text::chars_eq(&stored, &sel)
    };
    let n = stored_name(name);
    let kept = n.clone();
    list.set(index, n);
    proof {
        assert(list.deep_view() =~~= prev.update(index as int, trim_spaces(name@)));
    }
    (kept, was_selected)
}

/// Removes a stored entry and tells the caller whether it was the
/// selected one, whose selection is then cleared.
pub fn remove_name(list: &mut Vec<String>, index: usize, selected: &str) -> (r: bool)
    requires
        index < old(list)@.len(),
    ensures
        final(list).deep_view() == old(list).deep_view().remove(index as int),
        r == (selected@ == old(list)@[index as int]@),
{
    let ghost prev = list.deep_view();
    let removed = list.remove(index);
    let rc = str_to_chars(removed.as_str());
    let sel = str_to_chars(selected);
    proof {
        assert(list.deep_view() =~~= prev.remove(index as int));
    }
    crate::text::chars_eq(&sel, &rc)
}

} // verus!
