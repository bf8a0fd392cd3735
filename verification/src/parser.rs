//! SKILL.md documents: a `---` frontmatter block followed by a markdown
//! body. This module splits the two, checks the decoded frontmatter and
//! folds multi-line descriptions to one display line. Decoding the YAML of
//! the frontmatter into a [`Frontmatter`] is left to the caller.

use vstd::prelude::*;
use crate::text::{
    chars_of, find_from, find_from_exec, is_white, is_white_exec, lemma_find_from, occurs_at, push_char,
    string_from_range, trim_bounds, trim_end_seq, trim_seq, trim_start_seq,
};

verus! {

/// The fields read out of the frontmatter.
#[derive(Debug, Clone)]
pub struct Frontmatter {
    pub name: String,
    pub description: String,
    pub slug: Option<String>,
    pub version: Option<String>,
}

/// A parsed SKILL.md: the frontmatter and the markdown body that follows it.
#[derive(Debug, Clone)]
pub struct ParsedSkill {
    pub frontmatter: Frontmatter,
    pub body: String,
}

/// Why a SKILL.md document was rejected.
#[derive(Debug, Clone, PartialEq, Eq)]
pub enum SkillParseError {
    /// The document does not start with a `---` frontmatter block.
    MissingFrontmatter,
    /// The frontmatter is not valid YAML (the decoder's message).
    InvalidYaml(String),
    /// The frontmatter has neither `name` nor `description`.
    Empty,
}

/// The fence `---`.
pub open spec fn fence() -> Seq<char> {
    seq!['-', '-', '-']
}

/// `i` is at the start of a line of `s`.
pub open spec fn at_line_start(s: Seq<char>, i: int) -> bool {
    i == 0 || (0 < i <= s.len() && s[i - 1] == '\n')
}

/// A closing fence begins at `i`: a `---` at the start of a line.
pub open spec fn fence_at(s: Seq<char>, i: int) -> bool {
    occurs_at(s, fence(), i) && at_line_start(s, i)
}

/// The first closing fence of `s`.
pub open spec fn first_fence(s: Seq<char>) -> Option<int> {
    if exists|i: int| fence_at(s, i) {
        Some(choose|i: int| fence_at(s, i) && forall|j: int| 0 <= j < i ==> !fence_at(s, j))
    } else {
        None
    }
}

/// Where the body starts after a fence at `i`: past the fence and one line
/// ending (`\n` or `\r\n`) if one follows.
pub open spec fn body_start_after(s: Seq<char>, i: int) -> int {
    if i + 3 < s.len() && s[i + 3] == '\n' {
        i + 4
    } else if i + 4 < s.len() && s[i + 3] == '\r' && s[i + 4] == '\n' {
        i + 5
    } else {
        i + 3
    }
}

/// The position of a closing fence and of the body after it.
pub struct Fence {
    pub idx: usize,
    pub body_start: usize,
}

/// Finds the closing `---` fence: the first `---` at the start of a line.
pub fn find_closing_fence(v: &Vec<char>) -> (r: Option<Fence>)
    ensures
        r matches Some(f) ==> first_fence(v@) == Some(f.idx as int) && f.body_start == body_start_after(
            v@,
            f.idx as int,
        ) && f.idx + 3 <= f.body_start <= v@.len(),
        r is None ==> first_fence(v@) is None,
{
    let pat = vec!['-', '-', '-'];
    assert(pat@ =~= fence());
    let n = v.len();
    let mut from: usize = 0;
    loop
        invariant
            n == v@.len(),
            pat@ == fence(),
            from <= n + 3,
            forall|j: int| 0 <= j < from ==> !fence_at(v@, j),
        decreases n + 3 - from,
    {
        proof {
            lemma_find_from(v@, pat@, from as int);
        }
        if from > n {
            assert forall|j: int| #![auto] true implies !fence_at(v@, j) by {
                if j >= from {
                    assert(!occurs_at(v@, fence(), j));
                }
            }
            assert(!exists|i: int| fence_at(v@, i));
            return None;
        }
        match find_from_exec(v, &pat, from) {
            None => {
                assert forall|j: int| #![auto] true implies !fence_at(v@, j) by {
                    if j >= from {
                        assert(!occurs_at(v@, fence(), j));
                    }
                }
                assert(!exists|i: int| fence_at(v@, i));
                return None;
            },
            Some(abs) => {
                assert(occurs_at(v@, pat@, abs as int));
                assert forall|j: int| from <= j < abs implies !fence_at(v@, j) by {
                    assert(!occurs_at(v@, pat@, j));
                }
                if abs == 0 || v[abs - 1] == '\n' {
                    let body_start = if abs + 3 < n && v[abs + 3] == '\n' {
                        abs + 4
                    } else if abs + 3 < n && abs + 4 < n && v[abs + 3] == '\r' && v[abs + 4] == '\n' {
                        abs + 5
                    } else {
                        abs + 3
                    };
                    assert(fence_at(v@, abs as int));
                    assert(first_fence(v@) == Some(abs as int)) by {
                        let c = choose|i: int| fence_at(v@, i) && forall|j: int| 0 <= j < i ==> !fence_at(v@, j);
                        assert(!(c < abs) && !(c > abs));
                    }
                    return Some(Fence { idx: abs, body_start });
                }
                assert(v@.subrange(abs as int, abs + 3) == fence());
                assert(v@[abs as int] == '-' && v@[abs + 1] == '-') by {
                    assert(v@.subrange(abs as int, abs + 3)[0] == v@[abs as int]);
                    assert(v@.subrange(abs as int, abs + 3)[1] == v@[abs + 1]);
                }
                assert(!fence_at(v@, abs as int));
                assert(!fence_at(v@, abs + 1));
                assert(!fence_at(v@, abs + 2));
                from = abs + 3;
            },
        }
    }
}

/// What follows the opening fence: the document without a leading
/// `---\n` or `---\r\n`.
pub open spec fn after_open(s: Seq<char>) -> Option<Seq<char>> {
    if s.len() >= 4 && s.take(4) == seq!['-', '-', '-', '\n'] {
        Some(s.subrange(4, s.len() as int))
    } else if s.len() >= 5 && s.take(5) == seq!['-', '-', '-', '\r', '\n'] {
        Some(s.subrange(5, s.len() as int))
    } else {
        None
    }
}

/// The frontmatter text and the body of a document, if it has a
/// frontmatter block.
pub open spec fn frontmatter_split(s: Seq<char>) -> Option<(Seq<char>, Seq<char>)> {
    match after_open(s) {
        None => None,
        Some(rest) => match first_fence(rest) {
            None => None,
            Some(i) => Some((rest.take(i), rest.subrange(body_start_after(rest, i), rest.len() as int))),
        },
    }
}

/// The length of the opening fence line (`---\n` or `---\r\n`), or 0.
fn opening_len(v: &Vec<char>) -> (k: usize)
    ensures
        k == 0 ==> after_open(v@) is None,
        k > 0 ==> k <= v@.len() && after_open(v@) == Some(v@.subrange(k as int, v@.len() as int)),
{
    let n = v.len();
    if n >= 4 && v[0] == '-' && v[1] == '-' && v[2] == '-' && v[3] == '\n' {
        assert(v@.take(4) =~= seq!['-', '-', '-', '\n']);
        return 4;
    }
    if n >= 5 && v[0] == '-' && v[1] == '-' && v[2] == '-' && v[3] == '\r' && v[4] == '\n' {
        assert(v@.take(5) =~= seq!['-', '-', '-', '\r', '\n']);
        assert(v@.take(4) != seq!['-', '-', '-', '\n']) by {
            assert(v@.take(4)[3] == '\r');
        }
        return 5;
    }
    proof {
        if n >= 4 && v@.take(4) == seq!['-', '-', '-', '\n'] {
            assert(v@.take(4)[0] == v@[0] && v@.take(4)[1] == v@[1] && v@.take(4)[2] == v@[2] && v@.take(4)[3] == v@[3]);
        }
        if n >= 5 && v@.take(5) == seq!['-', '-', '-', '\r', '\n'] {
            assert(v@.take(5)[0] == v@[0] && v@.take(5)[1] == v@[1] && v@.take(5)[2] == v@[2]);
            assert(v@.take(5)[3] == v@[3] && v@.take(5)[4] == v@[4]);
        }
    }
    0
}

/// Splits off the leading `---` block, returning the frontmatter text and
/// the body.
#[verifier::spinoff_prover]
#[verifier::rlimit(40)]
pub fn split_frontmatter(content: &str) -> (r: Option<(String, String)>)
    ensures
        r matches Some(p) ==> frontmatter_split(content@) == Some((p.0@, p.1@)),
        r is None ==> frontmatter_split(content@) is None,
{
    let v = chars_of(content);
    let skip = opening_len(&v);
    if skip == 0 {
        return None;
    }
    let rest = string_from_range(&v, skip, v.len());
    let rv = chars_of(rest.as_str());
    match find_closing_fence(&rv) {
        None => None,
        Some(f) => {
            let fm = string_from_range(&rv, 0, f.idx);
            let body = string_from_range(&rv, f.body_start, rv.len());
            Some((fm, body))
        },
    }
}

/// Folds characters for display: each run of white space becomes one
/// space, except at the very start. Returns the text and whether the last
/// character handled was white space that produced (or followed) a space.
pub open spec fn display_fold(s: Seq<char>) -> (Seq<char>, bool)
    decreases s.len(),
{
    if s.len() == 0 {
        (Seq::empty(), false)
    } else {
        let (out, prev_space) = display_fold(s.drop_last());
        let c = s.last();
        if is_white(c) {
            if !prev_space && out.len() > 0 {
                (out.push(' '), true)
            } else {
                (out, prev_space)
            }
        } else {
            (out.push(c), false)
        }
    }
}

/// The one-line display form of a description.
pub open spec fn folded(s: Seq<char>) -> Seq<char> {
    display_fold(trim_seq(s)).0
}

/// The characters of `s` that are not white space, in order.
pub open spec fn strip_white(s: Seq<char>) -> Seq<char>
    decreases s.len(),
{
    if s.len() == 0 {
        Seq::empty()
    } else if is_white(s.last()) {
        strip_white(s.drop_last())
    } else {
        strip_white(s.drop_last()).push(s.last())
    }
}

/// A display line: no white space at either end, no white space but single
/// spaces.
pub open spec fn is_display_line(r: Seq<char>) -> bool {
    &&& r.len() > 0 ==> !is_white(r[0]) && !is_white(r.last())
    &&& forall|i: int| 0 <= i < r.len() && is_white(#[trigger] r[i]) ==> r[i] == ' '
    &&& forall|i: int| 0 <= i < r.len() - 1 && #[trigger] r[i] == ' ' ==> r[i + 1] != ' '
}

proof fn lemma_strip_white_concat(a: Seq<char>, b: Seq<char>)
    ensures
        strip_white(a + b) == strip_white(a) + strip_white(b),
    decreases b.len(),
{
    if b.len() == 0 {
        assert(a + b =~= a);
        assert(strip_white(a) + strip_white(b) =~= strip_white(a));
    } else {
        lemma_strip_white_concat(a, b.drop_last());
        assert((a + b).drop_last() =~= a + b.drop_last());
        assert((a + b).last() == b.last());
        if !is_white(b.last()) {
            assert(strip_white(a) + strip_white(b.drop_last()).push(b.last()) =~= (strip_white(a) + strip_white(
                b.drop_last(),
            )).push(b.last()));
        }
    }
}

proof fn lemma_strip_white_trim_start(s: Seq<char>)
    ensures
        strip_white(trim_start_seq(s)) == strip_white(s),
    decreases s.len(),
{
    if s.len() > 0 && is_white(s[0]) {
        lemma_strip_white_trim_start(s.drop_first());
        lemma_strip_white_concat(seq![s[0]], s.drop_first());
        assert(seq![s[0]] + s.drop_first() =~= s);
        let one = seq![s[0]];
        assert(one.drop_last() =~= Seq::<char>::empty());
        assert(strip_white(one.drop_last()) =~= Seq::<char>::empty());
        assert(one.last() == s[0]);
        assert(strip_white(one) =~= Seq::<char>::empty());
        assert(strip_white(seq![s[0]]) + strip_white(s.drop_first()) =~= strip_white(s.drop_first()));
    }
}

proof fn lemma_strip_white_trim_end(s: Seq<char>)
    ensures
        strip_white(trim_end_seq(s)) == strip_white(s),
    decreases s.len(),
{
    if s.len() > 0 && is_white(s.last()) {
        lemma_strip_white_trim_end(s.drop_last());
    }
}

proof fn lemma_strip_white_trim(s: Seq<char>)
    ensures
        strip_white(trim_seq(s)) == strip_white(s),
{
    lemma_strip_white_trim_start(s);
    lemma_strip_white_trim_end(trim_start_seq(s));
}

proof fn lemma_trim_start_ends(s: Seq<char>)
    ensures
        trim_start_seq(s).len() > 0 ==> !is_white(trim_start_seq(s)[0]),
        trim_start_seq(s).len() > 0 ==> trim_start_seq(s).last() == s.last(),
    decreases s.len(),
{
    if s.len() > 0 && is_white(s[0]) {
        lemma_trim_start_ends(s.drop_first());
    }
}

proof fn lemma_trim_end_ends(s: Seq<char>)
    ensures
        trim_end_seq(s).len() > 0 ==> !is_white(trim_end_seq(s).last()),
        trim_end_seq(s).len() > 0 ==> trim_end_seq(s)[0] == s[0],
    decreases s.len(),
{
    if s.len() > 0 && is_white(s.last()) {
        lemma_trim_end_ends(s.drop_last());
        if trim_end_seq(s).len() > 0 {
            assert(s.drop_last()[0] == s[0]);
        }
    }
}

/// The trimmed text has no white space at either end.
proof fn lemma_trim_ends(s: Seq<char>)
    ensures
        trim_seq(s).len() > 0 ==> !is_white(trim_seq(s)[0]) && !is_white(trim_seq(s).last()),
{
    lemma_trim_start_ends(s);
    lemma_trim_end_ends(trim_start_seq(s));
}

/// Text with no white space at either end trims to itself.
proof fn lemma_trim_fixed(s: Seq<char>)
    requires
        s.len() > 0 ==> !is_white(s[0]) && !is_white(s.last()),
    ensures
        trim_seq(s) == s,
{
}

/// Facts about folding any text, by induction on its length.
proof fn lemma_display_fold(t: Seq<char>)
    ensures
        ({
            let (out, p) = display_fold(t);
            &&& out.len() > 0 ==> !is_white(out[0])
            &&& forall|i: int| 0 <= i < out.len() && is_white(#[trigger] out[i]) ==> out[i] == ' '
            &&& forall|i: int| 0 <= i < out.len() - 1 && #[trigger] out[i] == ' ' ==> out[i + 1] != ' '
            &&& p <==> (out.len() > 0 && out.last() == ' ')
            &&& strip_white(out) == strip_white(t)
            &&& t.len() > 0 && !is_white(t.last()) ==> out.len() > 0 && out.last() == t.last()
        }),
    decreases t.len(),
{
    if t.len() > 0 {
        lemma_display_fold(t.drop_last());
        let (o0, p0) = display_fold(t.drop_last());
        let (out, p) = display_fold(t);
        let c = t.last();
        if out.len() > o0.len() {
            assert(out =~= o0.push(out.last()));
            assert(out.drop_last() =~= o0);
            assert forall|i: int| 0 <= i < out.len() - 1 && #[trigger] out[i] == ' ' implies out[i + 1] != ' ' by {
                if i < out.len() - 2 {
                    assert(out[i] == o0[i] && out[i + 1] == o0[i + 1]);
                }
            }
            assert forall|i: int| 0 <= i < out.len() && is_white(#[trigger] out[i]) implies out[i] == ' ' by {
                if i < o0.len() {
                    assert(out[i] == o0[i]);
                }
            }
        }
    }
}

/// A display line folds to itself.
proof fn lemma_display_fold_fixed(t: Seq<char>)
    requires
        t.len() > 0 ==> !is_white(t[0]),
        forall|i: int| 0 <= i < t.len() && is_white(#[trigger] t[i]) ==> t[i] == ' ',
        forall|i: int| 0 <= i < t.len() - 1 && #[trigger] t[i] == ' ' ==> t[i + 1] != ' ',
    ensures
        display_fold(t).0 == t,
    decreases t.len(),
{
    if t.len() > 0 {
        let u = t.drop_last();
        assert forall|i: int| 0 <= i < u.len() && is_white(#[trigger] u[i]) implies u[i] == ' ' by {
            assert(u[i] == t[i]);
        }
        assert forall|i: int| 0 <= i < u.len() - 1 && #[trigger] u[i] == ' ' implies u[i + 1] != ' ' by {
            assert(u[i] == t[i] && u[i + 1] == t[i + 1]);
        }
        if u.len() > 0 {
            assert(u[0] == t[0]);
        }
        lemma_display_fold_fixed(u);
        lemma_display_fold(u);
        let c = t.last();
        if is_white(c) {
            assert(t[t.len() - 1] == c);
            assert(u.len() > 0);
            assert(t[t.len() - 2] == u.last());
        }
        assert(u.push(c) =~= t);
    }
}

/// What folding gives: a display line with the description's non-white
/// characters in order, and folding it again changes nothing.
pub proof fn lemma_folded_is_display_line(desc: Seq<char>)
    ensures
        is_display_line(folded(desc)),
        strip_white(folded(desc)) == strip_white(desc),
        folded(folded(desc)) == folded(desc),
{
    let t = trim_seq(desc);
    lemma_display_fold(t);
    lemma_strip_white_trim(desc);
    let r = folded(desc);
    lemma_trim_ends(desc);
    if r.len() > 0 {
        assert(t.len() > 0);
    }
    lemma_trim_fixed(r);
    lemma_display_fold_fixed(r);
}

/// Folds a (possibly multi-line) description into a single display line:
/// runs of white space, newlines included, become single spaces.
pub fn fold_description(desc: &str) -> (r: String)
    ensures
        r@ == folded(desc@),
{
    let v = chars_of(desc);
    let (a, b) = trim_bounds(&v);
    let mut out = String::new();
    let mut prev_space = false;
    let mut i = a;
    while i < b
        invariant
            a <= i <= b <= v@.len(),
            (out@, prev_space) == display_fold(v@.subrange(a as int, i as int)),
        decreases b - i,
    {
        let ch = v[i];
        assert(v@.subrange(a as int, i + 1).drop_last() =~= v@.subrange(a as int, i as int));
        if is_white_exec(ch) {
            if !prev_space && !out.as_str().is_empty() {
                push_char(&mut out, ' ');
                prev_space = true;
            }
        } else {
            push_char(&mut out, ch);
            prev_space = false;
        }
        i += 1;
    }
    out
}

/// Accepts a decoded frontmatter and its body unless the frontmatter has
/// neither a name nor a description.
pub fn assemble(frontmatter: Frontmatter, body: String) -> (r: Result<ParsedSkill, SkillParseError>)
    ensures
        (frontmatter.name@.len() == 0 && frontmatter.description@.len() == 0) <==> r == Err::<
            ParsedSkill,
            SkillParseError,
        >(SkillParseError::Empty),
        r matches Ok(p) ==> p.frontmatter == frontmatter && p.body == body,
{
    if frontmatter.name.as_str().is_empty() && frontmatter.description.as_str().is_empty() {
        return Err(SkillParseError::Empty);
    }
    Ok(ParsedSkill { frontmatter, body })
}

} // verus!
