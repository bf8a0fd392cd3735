//! Skill identity: the stable id of a skill is derived, in priority order,
//! from its frontmatter `slug`, its lower-cased `name`, or its directory name
//! with a trailing version (`-1.0.4`, `-1`) cut off.

use vstd::prelude::*;
use crate::text::{
    chars_of, is_white, is_white_exec, lower_char, push_char, string_from_range, trim_bounds, trim_seq,
};

verus! {

/// What `char::to_lowercase` yields for `c` (one or more characters, by the
/// Unicode case tables).
pub uninterp spec fn char_lowercase(c: char) -> Seq<char>;

/// The lower-case form of one character, with `char::to_lowercase`. Of
/// an ASCII character the Unicode mapping is the ASCII one: `A`-`Z` become
/// `a`-`z`, the rest stay as they are.
#[verifier::external_body]
fn lowercase_of(c: char) -> (r: String)
    ensures
        r@ == char_lowercase(c),
        (c as u32) < 128 ==> r@ == seq![lower_char(c)],
{
    c.to_lowercase().collect::<String>()
}

/// Folds characters into an id: each run of white space becomes one `-`,
/// every other character is lower-cased. Returns the text and whether the
/// last character handled was white space.
pub open spec fn id_fold(s: Seq<char>) -> (Seq<char>, bool)
    decreases s.len(),
{
    if s.len() == 0 {
        (Seq::empty(), false)
    } else {
        let (out, prev_space) = id_fold(s.drop_last());
        let c = s.last();
        if is_white(c) {
            if !prev_space {
                (out.push('-'), true)
            } else {
                (out, true)
            }
        } else {
            (out + char_lowercase(c), false)
        }
    }
}

/// The id form of a name: trimmed, lower-cased, white-space runs as `-`.
pub open spec fn normalized(s: Seq<char>) -> Seq<char> {
    id_fold(trim_seq(s)).0
}

/// Every character of `s` is ASCII.
pub open spec fn all_ascii(s: Seq<char>) -> bool {
    forall|i: int| 0 <= i < s.len() ==> (#[trigger] s[i] as u32) < 128
}

/// `id_fold` of ASCII text, where lower-casing is ASCII lower-casing.
pub open spec fn ascii_id_fold(s: Seq<char>) -> (Seq<char>, bool)
    decreases s.len(),
{
    if s.len() == 0 {
        (Seq::empty(), false)
    } else {
        let (out, prev_space) = ascii_id_fold(s.drop_last());
        let c = s.last();
        if is_white(c) {
            if !prev_space {
                (out.push('-'), true)
            } else {
                (out, true)
            }
        } else {
            (out.push(lower_char(c)), false)
        }
    }
}

/// The id form of an ASCII name.
pub open spec fn ascii_normalized(s: Seq<char>) -> Seq<char> {
    ascii_id_fold(trim_seq(s)).0
}

/// The id chosen from ASCII signals.
pub open spec fn ascii_skill_id_of(slug: Option<Seq<char>>, name: Option<Seq<char>>, dir_name: Seq<char>) -> Seq<
    char,
> {
    if slug is Some && ascii_normalized(slug->0).len() > 0 {
        ascii_normalized(slug->0)
    } else if name is Some && ascii_normalized(name->0).len() > 0 {
        ascii_normalized(name->0)
    } else {
        ascii_normalized(strip_version(dir_name))
    }
}

/// Lower-cases and collapses internal white space into single dashes.
pub fn normalize(s: &str) -> (r: String)
    ensures
        r@ == normalized(s@),
        all_ascii(s@) ==> r@ == ascii_normalized(s@),
{
    let v = chars_of(s);
    let (a, b) = trim_bounds(&v);
    let mut out = String::new();
    let mut prev_space = false;
    let mut i = a;
    while i < b
        invariant
            a <= i <= b <= v@.len(),
            (out@, prev_space) == id_fold(v@.subrange(a as int, i as int)),
            v@ == s@,
            all_ascii(s@) ==> (out@, prev_space) == ascii_id_fold(v@.subrange(a as int, i as int)),
        decreases b - i,
    {
        let ch = v[i];
        assert(v@.subrange(a as int, i + 1).drop_last() =~= v@.subrange(a as int, i as int));
        if is_white_exec(ch) {
            if !prev_space {
                push_char(&mut out, '-');
                prev_space = true;
            }
        } else {
            let lc = lowercase_of(ch);
            let ghost before = out@;
            crate::text::push_str(&mut out, lc.as_str());
            prev_space = false;
            proof {
                if all_ascii(s@) {
                    assert(v@[i as int] == ch);
                    assert(before + seq![lower_char(ch)] =~= before.push(lower_char(ch)));
                }
            }
        }
        i += 1;
    }
    out
}

/// An ASCII digit.
pub open spec fn is_digit(c: char) -> bool {
    '0' <= c && c <= '9'
}

/// A version token: starts with a digit and holds only digits and dots.
pub open spec fn is_version_tail(t: Seq<char>) -> bool {
    t.len() > 0 && is_digit(t[0]) && forall|k: int| 0 <= k < t.len() ==> is_digit(#[trigger] t[k]) || t[k] == '.'
}

/// A dash at `i` that begins a trailing version token.
pub open spec fn version_dash_at(s: Seq<char>, i: int) -> bool {
    0 <= i < s.len() && s[i] == '-' && is_version_tail(s.subrange(i + 1, s.len() as int))
}

/// The last dash of `s` that begins a trailing version token.
pub open spec fn last_version_dash(s: Seq<char>) -> Option<int> {
    if exists|i: int| version_dash_at(s, i) {
        Some(choose|i: int| version_dash_at(s, i) && forall|j: int| i < j < s.len() ==> !version_dash_at(s, j))
    } else {
        None
    }
}

/// Whether `v[from..]` is a version token.
fn is_version_tail_exec(v: &Vec<char>, from: usize) -> (b: bool)
    requires
        from <= v@.len(),
    ensures
        b == is_version_tail(v@.subrange(from as int, v@.len() as int)),
{
    let n = v.len();
    if from == n || !('0' <= v[from] && v[from] <= '9') {
        return false;
    }
    let mut k = from;
    while k < n
        invariant
            n == v@.len(),
            from <= k <= n,
            forall|m: int| from <= m < k ==> is_digit(#[trigger] v@[m]) || v@[m] == '.',
        decreases n - k,
    {
        if !(('0' <= v[k] && v[k] <= '9') || v[k] == '.') {
            assert(v@.subrange(from as int, n as int)[k - from] == v@[k as int]);
            return false;
        }
        k += 1;
    }
    let ghost t = v@.subrange(from as int, n as int);
    assert forall|m: int| 0 <= m < t.len() implies is_digit(#[trigger] t[m]) || t[m] == '.' by {
        assert(t[m] == v@[from + m]);
    }
    true
}

/// The index of the dash that begins a trailing version token, if any
/// (a character index).
pub fn rfind_version_dash(v: &Vec<char>) -> (r: Option<usize>)
    ensures
        r matches Some(i) ==> i < v@.len() && last_version_dash(v@) == Some(i as int),
        r is None ==> last_version_dash(v@) is None,
{
    let mut idx = v.len();
    while idx > 0
        invariant
            idx <= v@.len(),
            forall|j: int| idx <= j < v@.len() ==> !version_dash_at(v@, j),
        decreases idx,
    {
        idx -= 1;
        if v[idx] == '-' && is_version_tail_exec(v, idx + 1) {
            assert(version_dash_at(v@, idx as int));
            assert(last_version_dash(v@) == Some(idx as int)) by {
                let c = choose|i: int| version_dash_at(v@, i) && forall|j: int| i < j < v@.len() ==> !version_dash_at(v@, j);
                assert(!(c < idx) && !(c > idx));
            }
            return Some(idx);
        }
    }
    None
}

/// A directory name without a trailing `-<version>`.
pub open spec fn strip_version(s: Seq<char>) -> Seq<char> {
    match last_version_dash(s) {
        Some(i) => s.take(i),
        None => s,
    }
}

/// Cuts a trailing `-<semver>` or `-<digits>` off a directory name.
pub fn strip_version_suffix(dir_name: &str) -> (r: String)
    ensures
        r@ == strip_version(dir_name@),
        r@.len() <= dir_name@.len(),
        r@ == dir_name@.take(r@.len() as int),
{
    let v = chars_of(dir_name);
    match rfind_version_dash(&v) {
        Some(idx) => {
            let r = string_from_range(&v, 0, idx);
            assert(r@ =~= dir_name@.take(idx as int));
            r
        },
        None => {
            let r = string_from_range(&v, 0, v.len());
            assert(r@ =~= dir_name@.take(v.len() as int));
            r
        },
    }
}

/// The id chosen from the available signals.
pub open spec fn skill_id_of(slug: Option<Seq<char>>, name: Option<Seq<char>>, dir_name: Seq<char>) -> Seq<char> {
    if slug is Some && normalized(slug->0).len() > 0 {
        normalized(slug->0)
    } else if name is Some && normalized(name->0).len() > 0 {
        normalized(name->0)
    } else {
        normalized(strip_version(dir_name))
    }
}

/// The view of an optional string slice.
pub open spec fn opt_view(o: Option<&str>) -> Option<Seq<char>> {
    match o {
        Some(s) => Some(s@),
        None => None,
    }
}

/// Derives the canonical skill id: the normalized slug if it is not empty,
/// else the normalized name if it is not empty, else the normalized
/// directory name without its version.
pub fn skill_id(slug: Option<&str>, name: Option<&str>, dir_name: &str) -> (r: String)
    ensures
        r@ == skill_id_of(opt_view(slug), opt_view(name), dir_name@),
        (slug matches Some(t) ==> all_ascii(t@)) && (name matches Some(t) ==> all_ascii(t@)) && all_ascii(dir_name@)
            ==> r@ == ascii_skill_id_of(opt_view(slug), opt_view(name), dir_name@),
{
    if let Some(s) = slug {
        let n = normalize(s);
        if !n.as_str().is_empty() {
            return n;
        }
    }
    if let Some(s) = name {
        let n = normalize(s);
        if !n.as_str().is_empty() {
            return n;
        }
    }
    let stripped = strip_version_suffix(dir_name);
    proof {
        if all_ascii(dir_name@) {
            assert forall|i: int| 0 <= i < stripped@.len() implies (#[trigger] stripped@[i] as u32) < 128 by {
                assert(stripped@[i] == dir_name@.take(stripped@.len() as int)[i]);
            }
        }
    }
    normalize(stripped.as_str())
}

} // verus!
