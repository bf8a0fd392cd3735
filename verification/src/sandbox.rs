//! Sandbox: the write/network gate every mutating claw consults.
//!
//! The library is read-only by default. A claw may only write to paths under
//! a root the user allow-listed. Paths are compared lexically, component by
//! component, after `.` and `..` segments are collapsed; a relative path is
//! first joined to the working directory the caller passes in.

use vstd::prelude::*;
use crate::text::{chars_eq, chars_of, copy_chars, lemma_split_nonempty, owned, split_char, split_chars, views};

verus! {

/// A path after lexical normalization: whether it is absolute, and its
/// components (`..` only where nothing could be popped).
pub type NormPath = (bool, Seq<Seq<char>>);

/// The `..` component.
pub open spec fn dotdot() -> Seq<char> {
    seq!['.', '.']
}

/// Collapses `.`, empty and `..` segments, in order: a `..` removes the
/// previous component unless there is none or it is itself `..`.
pub open spec fn collapse(pieces: Seq<Seq<char>>) -> Seq<Seq<char>>
    decreases pieces.len(),
{
    if pieces.len() == 0 {
        Seq::empty()
    } else {
        let out = collapse(pieces.drop_last());
        let c = pieces.last();
        if c.len() == 0 || c == seq!['.'] {
            out
        } else if c == dotdot() {
            if out.len() > 0 && out.last() != dotdot() {
                out.drop_last()
            } else {
                out.push(c)
            }
        } else {
            out.push(c)
        }
    }
}

/// `p` starts with `/`.
pub open spec fn is_absolute(p: Seq<char>) -> bool {
    p.len() > 0 && p[0] == '/'
}

/// The normalized absolute form of `target`: itself when absolute, else
/// joined to `cwd`.
pub open spec fn resolve(target: Seq<char>, cwd: Seq<char>) -> NormPath {
    if is_absolute(target) {
        (true, collapse(split_char(target, '/')))
    } else {
        (is_absolute(cwd), collapse(split_char(cwd, '/') + split_char(target, '/')))
    }
}

/// `t` is `root` or lies beneath it, whole components compared.
pub open spec fn is_under(t: NormPath, root: NormPath) -> bool {
    t.0 == root.0 && root.1.len() <= t.1.len() && t.1.take(root.1.len() as int) == root.1
}

/// `target`, resolved against `cwd`, lies under one of `roots`.
pub open spec fn writable(roots: Seq<Seq<char>>, target: Seq<char>, cwd: Seq<char>) -> bool {
    exists|i: int| 0 <= i < roots.len() && is_under(resolve(target, cwd), resolve(#[trigger] roots[i], cwd))
}

/// Configuration of what a claw is allowed to touch.
#[derive(Debug, Clone)]
pub struct Sandbox {
    /// Directory roots that may be written to.
    allow_write: Vec<String>,
    /// When true, network access is forbidden.
    network_disabled: bool,
}

impl Sandbox {
    /// The allow-listed roots.
    pub closed spec fn roots(&self) -> Seq<Seq<char>> {
        self.allow_write@.map_values(|s: String| s@)
    }

    /// Whether network access is switched off.
    pub closed spec fn network_off(&self) -> bool {
        self.network_disabled
    }

    /// Starts with no permissions: the safe default.
    pub fn readonly() -> (s: Sandbox)
        ensures
            s.roots() == Seq::<Seq<char>>::empty(),
            !s.network_off(),
    {
        let s = Sandbox { allow_write: Vec::new(), network_disabled: false };
        assert(s.roots() =~= Seq::<Seq<char>>::empty());
        s
    }

    /// Grants write access to one more directory root.
    pub fn allow_write(self, path: &str) -> (s: Sandbox)
        ensures
            s.roots() == self.roots().push(path@),
            s.network_off() == self.network_off(),
    {
        let mut s = self;
        s.allow_write.push(owned(path));
        assert(s.roots() =~= self.roots().push(path@));
        s
    }

    /// Disables all network access.
    pub fn disable_network(self) -> (s: Sandbox)
        ensures
            s.roots() == self.roots(),
            s.network_off(),
    {
        let mut s = self;
        s.network_disabled = true;
        assert(s.roots() =~= self.roots());
        s
    }

    /// True if network access is permitted.
    pub fn network_allowed(&self) -> (b: bool)
        ensures
            b == !self.network_off(),
    {
        !self.network_disabled
    }

    /// True if no writes at all are permitted.
    pub fn is_readonly(&self) -> (b: bool)
        ensures
            b == (self.roots().len() == 0),
    {
        self.allow_write.len() == 0
    }

    /// Whether `target` may be written to: it must resolve (against `cwd`
    /// when relative) to an allow-listed root or a path beneath one.
    pub fn can_write(&self, target: &str, cwd: &str) -> (b: bool)
        ensures
            b == writable(self.roots(), target@, cwd@),
    {
        if self.allow_write.len() == 0 {
            return false;
        }
        let t = absolutize(target, cwd);
        let mut i: usize = 0;
        while i < self.allow_write.len()
            invariant
                0 <= i <= self.allow_write@.len(),
                t.0 == resolve(target@, cwd@).0,
                views(t.1@) == resolve(target@, cwd@).1,
                forall|j: int|
                    0 <= j < i ==> !is_under(resolve(target@, cwd@), resolve(#[trigger] self.roots()[j], cwd@)),
            decreases self.allow_write@.len() - i,
        {
            let r = absolutize(self.allow_write[i].as_str(), cwd);
            assert(self.roots()[i as int] == self.allow_write@[i as int]@);
            if starts_with_components(&t, &r) {
                return true;
            }
            i += 1;
        }
        false
    }
}

/// Whether a character vector is `.` or `..`.
fn is_dot(p: &Vec<char>) -> (b: bool)
    ensures
        b == (p@ == seq!['.']),
{
    let r = p.len() == 1 && p[0] == '.';
    proof {
        if r {
            assert(p@ =~= seq!['.']);
        } else if p@ == seq!['.'] {
            assert(p@[0] == '.');
        }
    }
    r
}

fn is_dotdot(p: &Vec<char>) -> (b: bool)
    ensures
        b == (p@ == dotdot()),
{
    let r = p.len() == 2 && p[0] == '.' && p[1] == '.';
    proof {
        if r {
            assert(p@ =~= dotdot());
        } else if p@ == dotdot() {
            assert(p@[0] == '.' && p@[1] == '.');
        }
    }
    r
}

/// Collapses `.`, empty and `..` segments of a list of pieces.
fn collapse_exec(pieces: &Vec<Vec<char>>) -> (r: Vec<Vec<char>>)
    ensures
        views(r@) == collapse(views(pieces@)),
{
    let mut out: Vec<Vec<char>> = Vec::new();
    let mut i: usize = 0;
    while i < pieces.len()
        invariant
            0 <= i <= pieces@.len(),
            views(out@) == collapse(views(pieces@.take(i as int))),
        decreases pieces@.len() - i,
    {
        let c = &pieces[i];
        assert(views(pieces@.take(i + 1)).drop_last() =~= views(pieces@.take(i as int)));
        assert(views(pieces@.take(i + 1)).last() == c@);
        let ghost before = views(out@);
        if c.len() == 0 || is_dot(c) {
        } else if is_dotdot(c) {
            let n = out.len();
            if n > 0 && !is_dotdot(&out[n - 1]) {
                out.pop();
                assert(views(out@) =~= before.drop_last());
            } else {
                out.push(copy_chars(c));
                assert(views(out@) =~= before.push(c@));
            }
        } else {
            out.push(copy_chars(c));
            assert(views(out@) =~= before.push(c@));
        }
        i += 1;
    }
    assert(pieces@.take(pieces@.len() as int) =~= pieces@);
    out
}

/// The normalized form of `target`, joined to `cwd` when relative.
fn absolutize(target: &str, cwd: &str) -> (r: (bool, Vec<Vec<char>>))
    ensures
        r.0 == resolve(target@, cwd@).0,
        views(r.1@) == resolve(target@, cwd@).1,
{
    let tv = chars_of(target);
    if tv.len() > 0 && tv[0] == '/' {
        let pieces = split_chars(&tv, '/');
        (true, collapse_exec(&pieces))
    } else {
        let cv = chars_of(cwd);
        let mut pieces = split_chars(&cv, '/');
        let mut rest = split_chars(&tv, '/');
        let ghost a = pieces@;
        let ghost b = rest@;
        pieces.append(&mut rest);
        assert(views(pieces@) =~= views(a) + views(b));
        let abs = cv.len() > 0 && cv[0] == '/';
        (abs, collapse_exec(&pieces))
    }
}

/// Whether the normalized path `t` is `root` or lies beneath it.
fn starts_with_components(t: &(bool, Vec<Vec<char>>), root: &(bool, Vec<Vec<char>>)) -> (b: bool)
    ensures
        b == is_under((t.0, views(t.1@)), (root.0, views(root.1@))),
{
    if t.0 != root.0 || root.1.len() > t.1.len() {
        return false;
    }
    let mut k: usize = 0;
    while k < root.1.len()
        invariant
            root.1@.len() <= t.1@.len(),
            0 <= k <= root.1@.len(),
            forall|m: int| 0 <= m < k ==> views(t.1@)[m] == views(root.1@)[m],
        decreases root.1@.len() - k,
    {
        if !chars_eq(&t.1[k], &root.1[k]) {
            assert(views(t.1@).take(root.1@.len() as int)[k as int] != views(root.1@)[k as int]);
            return false;
        }
        k += 1;
    }
    assert(views(t.1@).take(root.1@.len() as int) =~= views(root.1@));
    true
}

// ---------------------------------------------------------------------------
// Laws
// ---------------------------------------------------------------------------

/// With no allow-listed root, nothing is writable.
pub proof fn lemma_readonly_writes_nothing(target: Seq<char>, cwd: Seq<char>)
    ensures
        !writable(Seq::empty(), target, cwd),
{
}

/// An allow-listed root is itself writable.
pub proof fn lemma_root_writable(roots: Seq<Seq<char>>, root: Seq<char>, cwd: Seq<char>)
    ensures
        writable(roots.push(root), root, cwd),
{
    let rs = roots.push(root);
    let r = resolve(root, cwd);
    assert(r.1.take(r.1.len() as int) =~= r.1);
    assert(is_under(resolve(root, cwd), resolve(rs[rs.len() - 1], cwd)));
}

/// Allowing one more root keeps every previously writable path writable.
pub proof fn lemma_allow_write_monotone(roots: Seq<Seq<char>>, root: Seq<char>, target: Seq<char>, cwd: Seq<char>)
    requires
        writable(roots, target, cwd),
    ensures
        writable(roots.push(root), target, cwd),
{
    let i = choose|i: int| 0 <= i < roots.len() && is_under(resolve(target, cwd), resolve(#[trigger] roots[i], cwd));
    assert(roots.push(root)[i] == roots[i]);
}

/// Pieces free of `..`: appending them only adds their plain components.
pub open spec fn plain_pieces(pieces: Seq<Seq<char>>) -> Seq<Seq<char>>
    decreases pieces.len(),
{
    if pieces.len() == 0 {
        Seq::empty()
    } else {
        let prev = plain_pieces(pieces.drop_last());
        let c = pieces.last();
        if c.len() == 0 || c == seq!['.'] {
            prev
        } else {
            prev.push(c)
        }
    }
}

/// Collapsing `a + b` where `b` holds no `..` keeps `collapse(a)` as a prefix.
proof fn lemma_collapse_append(a: Seq<Seq<char>>, b: Seq<Seq<char>>)
    requires
        forall|k: int| 0 <= k < b.len() ==> #[trigger] b[k] != dotdot(),
    ensures
        collapse(a + b) == collapse(a) + plain_pieces(b),
    decreases b.len(),
{
    if b.len() == 0 {
        assert(a + b =~= a);
        assert(collapse(a) + plain_pieces(b) =~= collapse(a));
    } else {
        let b0 = b.drop_last();
        assert forall|k: int| 0 <= k < b0.len() implies #[trigger] b0[k] != dotdot() by {
            assert(b0[k] == b[k]);
        }
        lemma_collapse_append(a, b0);
        assert((a + b).drop_last() =~= a + b0);
        assert((a + b).last() == b.last());
        assert(b[b.len() - 1] != dotdot());
        let c = b.last();
        if c.len() == 0 || c == seq!['.'] {
        } else {
            assert(collapse(a) + plain_pieces(b) =~= (collapse(a) + plain_pieces(b0)).push(c));
        }
    }
}

/// Splitting `a + "/" + b` splits `a` and `b` separately.
proof fn lemma_split_join(a: Seq<char>, b: Seq<char>)
    ensures
        split_char(a + seq!['/'] + b, '/') == split_char(a, '/') + split_char(b, '/'),
    decreases b.len(),
{
    lemma_split_nonempty(a, '/');
    lemma_split_nonempty(b, '/');
    if b.len() == 0 {
        assert((a + seq!['/'] + b).drop_last() =~= a);
        assert(a + seq!['/'] + b =~= a.push('/'));
        assert(split_char(b, '/') =~= seq![Seq::<char>::empty()]);
        assert(split_char(a, '/').push(Seq::empty()) =~= split_char(a, '/') + split_char(b, '/'));
    } else {
        let b0 = b.drop_last();
        lemma_split_join(a, b0);
        lemma_split_nonempty(b0, '/');
        assert((a + seq!['/'] + b).drop_last() =~= a + seq!['/'] + b0);
        assert((a + seq!['/'] + b).last() == b.last());
        let sa = split_char(a, '/');
        let sb0 = split_char(b0, '/');
        if b.last() == '/' {
            assert((sa + sb0).push(Seq::empty()) =~= sa + sb0.push(Seq::empty()));
        } else {
            let whole = sa + sb0;
            assert(whole.update(whole.len() - 1, whole.last().push(b.last())) =~= sa + sb0.update(
                sb0.len() - 1,
                sb0.last().push(b.last()),
            ));
        }
    }
}

/// A path spelled as an allow-listed root, a `/` and a suffix free of `..`
/// segments is writable: a root grants its children.
pub proof fn lemma_child_writable(roots: Seq<Seq<char>>, root: Seq<char>, child: Seq<char>, cwd: Seq<char>)
    requires
        root.len() > 0,
        forall|k: int| 0 <= k < split_char(child, '/').len() ==> #[trigger] split_char(child, '/')[k] != dotdot(),
    ensures
        writable(roots.push(root), root + seq!['/'] + child, cwd),
{
    let rs = roots.push(root);
    let target = root + seq!['/'] + child;
    lemma_split_join(root, child);
    let sr = split_char(root, '/');
    let sc = split_char(child, '/');
    if is_absolute(root) {
        assert(target[0] == root[0]);
        lemma_collapse_append(sr, sc);
    } else {
        assert(target[0] == root[0]);
        let sw = split_char(cwd, '/');
        assert(sw + (sr + sc) =~= (sw + sr) + sc);
        lemma_collapse_append(sw + sr, sc);
    }
    let t = resolve(target, cwd);
    let r = resolve(root, cwd);
    assert(t.1.take(r.1.len() as int) =~= r.1);
    assert(is_under(t, resolve(rs[rs.len() - 1], cwd)));
}

} // verus!
