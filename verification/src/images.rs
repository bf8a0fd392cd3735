//! Manual images: which catalog images accompany the passages a manual
//! search returned, and when a tool result carries image hits.
//!
//! The search returns hits, each with an optional list of image references
//! (id, role, priority); the catalog describes every known image. JSON
//! values the logic compares are held as [`JsonAtom`]s.

use vstd::prelude::*;
use crate::text::{chars_of, concat, has_prefix, owned, starts_with_exec, str_eq, string_from_range};

verus! {

/// A JSON value as the image logic reads it: a string, a non-negative
/// integer, or any other value by its canonical JSON text (`null` for a
/// missing field).
#[derive(Debug, Clone)]
pub enum JsonAtom {
    Str(String),
    UInt(u64),
    Other(String),
}

/// A JSON value as a mathematical value.
pub enum AtomView {
    Str(Seq<char>),
    UInt(u64),
    Other(Seq<char>),
}

/// The view of a JSON value.
pub open spec fn atom(a: JsonAtom) -> AtomView {
    match a {
        JsonAtom::Str(s) => AtomView::Str(s@),
        JsonAtom::UInt(n) => AtomView::UInt(n),
        JsonAtom::Other(t) => AtomView::Other(t@),
    }
}

/// Whether two JSON values are equal.
pub fn atom_eq(a: &JsonAtom, b: &JsonAtom) -> (r: bool)
    ensures
        r == (atom(*a) == atom(*b)),
{
    match (a, b) {
        (JsonAtom::Str(x), JsonAtom::Str(y)) => str_eq(x.as_str(), y.as_str()),
        (JsonAtom::UInt(x), JsonAtom::UInt(y)) => *x == *y,
        (JsonAtom::Other(x), JsonAtom::Other(y)) => str_eq(x.as_str(), y.as_str()),
        _ => false,
    }
}

/// Whether a JSON value is the string `s`.
pub fn atom_is_str(a: &JsonAtom, s: &str) -> (r: bool)
    ensures
        r == (atom(*a) == AtomView::Str(s@)),
{
    match a {
        JsonAtom::Str(x) => str_eq(x.as_str(), s),
        _ => false,
    }
}

/// A copy of a JSON value.
pub fn copy_atom(a: &JsonAtom) -> (r: JsonAtom)
    ensures
        atom(r) == atom(*a),
{
    match a {
        JsonAtom::Str(x) => JsonAtom::Str(owned(x.as_str())),
        JsonAtom::UInt(n) => JsonAtom::UInt(*n),
        JsonAtom::Other(t) => JsonAtom::Other(owned(t.as_str())),
    }
}

/// One image reference of a search hit.
#[derive(Debug, Clone)]
pub struct ImageRef {
    pub id: JsonAtom,
    pub role: JsonAtom,
    pub priority: JsonAtom,
}

/// One search hit: its `images` list, when that is an array.
#[derive(Debug, Clone)]
pub struct Hit {
    pub images: Option<Vec<ImageRef>>,
}

/// One catalog entry.
#[derive(Debug, Clone)]
pub struct CatalogItem {
    pub id: JsonAtom,
    pub pdf_page: JsonAtom,
    pub alt_text: JsonAtom,
    pub kind: JsonAtom,
    pub source_file: JsonAtom,
    pub file: JsonAtom,
}

/// An image shown with an answer.
#[derive(Debug, Clone)]
pub struct ImageReference {
    pub id: String,
    pub page: JsonAtom,
    pub caption: JsonAtom,
    pub kind: JsonAtom,
    pub role: String,
    pub source: JsonAtom,
    /// `/api/manual-images/<id>`.
    pub url: String,
}

/// An image reference as a mathematical value.
pub struct RefView {
    pub id: Seq<char>,
    pub page: AtomView,
    pub caption: AtomView,
    pub kind: AtomView,
    pub role: Seq<char>,
    pub source: AtomView,
    pub url: Seq<char>,
}

/// The view of an image reference.
pub open spec fn ref_view(r: ImageReference) -> RefView {
    RefView {
        id: r.id@,
        page: atom(r.page),
        caption: atom(r.caption),
        kind: atom(r.kind),
        role: r.role@,
        source: atom(r.source),
        url: r.url@,
    }
}

/// The views of image references.
pub open spec fn ref_views(rs: Seq<ImageReference>) -> Seq<RefView> {
    rs.map_values(|r: ImageReference| ref_view(r))
}

/// An id that may name an image file: not empty, only ASCII letters,
/// digits, `-` and `_`.
pub open spec fn valid_id_seq(id: Seq<char>) -> bool {
    id.len() > 0 && forall|k: int|
        0 <= k < id.len() ==> ('a' <= #[trigger] id[k] <= 'z') || ('A' <= id[k] <= 'Z') || ('0' <= id[k] <= '9')
            || id[k] == '-' || id[k] == '_'
}

/// Whether an id may name an image file.
pub fn valid_id(id: &str) -> (b: bool)
    ensures
        b == valid_id_seq(id@),
{
    let v = chars_of(id);
    if v.len() == 0 {
        return false;
    }
    let mut k: usize = 0;
    while k < v.len()
        invariant
            0 <= k <= v@.len(),
            v@ == id@,
            forall|m: int|
                0 <= m < k ==> ('a' <= #[trigger] v@[m] <= 'z') || ('A' <= v@[m] <= 'Z') || ('0' <= v@[m] <= '9')
                    || v@[m] == '-' || v@[m] == '_',
        decreases v@.len() - k,
    {
        let c = v[k];
        if !(('a' <= c && c <= 'z') || ('A' <= c && c <= 'Z') || ('0' <= c && c <= '9') || c == '-' || c == '_') {
            return false;
        }
        k += 1;
    }
    true
}

/// The JSON document of a skill's output: the text after the `(exit 0)`
/// line the skill runner puts first, or the whole text when it has none.
pub fn hits_payload(summary: &str) -> (r: String)
    ensures
        r@ == (if has_prefix(summary@, "(exit 0)\n"@) {
            summary@.skip("(exit 0)\n"@.len() as int)
        } else {
            summary@
        }),
{
    let v = chars_of(summary);
    let p = chars_of("(exit 0)\n");
    if starts_with_exec(&v, &p) {
        let r = string_from_range(&v, p.len(), v.len());
        assert(v@.subrange(p@.len() as int, v@.len() as int) =~= v@.skip(p@.len() as int));
        r
    } else {
        owned(summary)
    }
}

/// Whether parsed hits are image results: there are none, or one of them
/// has an image list.
pub open spec fn image_results(hits: Option<Vec<Hit>>) -> bool {
    hits matches Some(h) && (h@.len() == 0 || exists|k: int| 0 <= k < h@.len() && (#[trigger] h@[k]).images is Some)
}

/// Whether a tool result carries image results: it parsed as hits, and
/// either there are none or one of them has an image list.
pub fn has_image_results(hits: &Option<Vec<Hit>>) -> (b: bool)
    ensures
        b == image_results(*hits),
{
    match hits {
        None => false,
        Some(h) => {
            if h.len() == 0 {
                return true;
            }
            let mut k: usize = 0;
            while k < h.len()
                invariant
                    0 <= k <= h@.len(),
                    *hits == Some(*h),
                    forall|m: int| 0 <= m < k ==> (#[trigger] h@[m]).images is None,
                decreases h@.len() - k,
            {
                if h[k].images.is_some() {
                    assert(h@[k as int].images is Some);
                    return true;
                }
                k += 1;
            }
            false
        },
    }
}

/// What the selection reads of an image reference: its id, its role and
/// its priority class (the priority capped at 2, 0 when there is none).
pub struct RefKey {
    pub id: AtomView,
    pub role: AtomView,
    pub class: u64,
}

/// The priority class of a reference.
pub open spec fn class_of(r: ImageRef) -> u64 {
    match r.priority {
        JsonAtom::UInt(n) => if n < 2 { n } else { 2 },
        _ => 0,
    }
}

/// The key of a reference.
pub open spec fn key_of(r: ImageRef) -> RefKey {
    RefKey { id: atom(r.id), role: atom(r.role), class: class_of(r) }
}

/// The keys of references, in order.
pub open spec fn keys(rs: Seq<ImageRef>) -> Seq<RefKey> {
    rs.map_values(|r: ImageRef| key_of(r))
}

/// The keys of one hit's image list (none when it has no list).
pub open spec fn hit_keys(h: Hit) -> Seq<RefKey> {
    match h.images {
        Some(v) => keys(v@),
        None => Seq::empty(),
    }
}

/// The keys of all image references of the hits, in order.
pub open spec fn flat_keys(hits: Seq<Hit>) -> Seq<RefKey>
    decreases hits.len(),
{
    if hits.len() == 0 {
        Seq::empty()
    } else {
        flat_keys(hits.drop_last()) + hit_keys(hits.last())
    }
}

/// The references of one priority class, in order.
pub open spec fn of_class(refs: Seq<RefKey>, c: u64) -> Seq<RefKey>
    decreases refs.len(),
{
    if refs.len() == 0 {
        Seq::empty()
    } else {
        let prev = of_class(refs.drop_last(), c);
        if refs.last().class == c {
            prev.push(refs.last())
        } else {
            prev
        }
    }
}

/// The references in the order they are considered: stably by priority
/// class, highest first.
pub open spec fn ranked(refs: Seq<RefKey>) -> Seq<RefKey> {
    of_class(refs, 2) + of_class(refs, 1) + of_class(refs, 0)
}

/// The first catalog entry whose id equals `id`.
pub open spec fn catalog_find(catalog: Seq<CatalogItem>, id: AtomView) -> Option<CatalogItem>
    decreases catalog.len(),
{
    if catalog.len() == 0 {
        None
    } else if atom(catalog[0].id) == id {
        Some(catalog[0])
    } else {
        catalog_find(catalog.drop_first(), id)
    }
}

/// Whether some shown image has this id.
pub open spec fn shows_id(out: Seq<RefView>, id: Seq<char>) -> bool {
    exists|k: int| 0 <= k < out.len() && (#[trigger] out[k]).id == id
}

/// Whether some shown image is from this page of this source.
pub open spec fn shows_page(out: Seq<RefView>, page: AtomView, source: AtomView) -> bool {
    exists|k: int| 0 <= k < out.len() && (#[trigger] out[k]).page == page && out[k].source == source
}

/// How many shown images have this role.
pub open spec fn role_count(out: Seq<RefView>, role: Seq<char>) -> nat
    decreases out.len(),
{
    if out.len() == 0 {
        0
    } else {
        role_count(out.drop_last(), role) + if out.last().role == role { 1nat } else { 0nat }
    }
}

/// How many images of a role may be shown: one primary, two supporting,
/// three reference.
pub open spec fn role_limit(role: Seq<char>) -> nat {
    if role == "primary"@ {
        1
    } else if role == "supporting"@ {
        2
    } else {
        3
    }
}

/// A named role: `primary`, `supporting` or `reference`.
pub open spec fn named_role(r: AtomView) -> Option<Seq<char>> {
    match r {
        AtomView::Str(s) => if s == "primary"@ || s == "supporting"@ || s == "reference"@ {
            Some(s)
        } else {
            None
        },
        _ => None,
    }
}

/// Whether a catalog entry is on the same page of the same source as `item`
/// and is of the given kind.
pub open spec fn same_page_kind(e: CatalogItem, item: CatalogItem, kind: Seq<char>) -> bool {
    atom(e.pdf_page) == atom(item.pdf_page) && atom(e.source_file) == atom(item.source_file) && atom(e.kind)
        == AtomView::Str(kind)
}

/// How many catalog entries are illustrations on the page of `item`.
pub open spec fn illustrations_on_page(catalog: Seq<CatalogItem>, item: CatalogItem) -> nat
    decreases catalog.len(),
{
    if catalog.len() == 0 {
        0
    } else {
        illustrations_on_page(catalog.drop_last(), item) + if same_page_kind(
            catalog.last(),
            item,
            "illustration"@,
        ) {
            1nat
        } else {
            0nat
        }
    }
}

/// The first catalog entry that is the whole source page of `item`'s page.
pub open spec fn page_entry(catalog: Seq<CatalogItem>, item: CatalogItem) -> Option<CatalogItem>
    decreases catalog.len(),
{
    if catalog.len() == 0 {
        None
    } else if same_page_kind(catalog[0], item, "source_page"@) {
        Some(catalog[0])
    } else {
        page_entry(catalog.drop_first(), item)
    }
}

/// The shown reference built from a catalog entry.
pub open spec fn shown(id: Seq<char>, item: CatalogItem, role: Seq<char>) -> RefView {
    RefView {
        id: id,
        page: atom(item.pdf_page),
        caption: atom(item.alt_text),
        kind: atom(item.kind),
        role: role,
        source: atom(item.source_file),
        url: "/api/manual-images/"@ + id,
    }
}

/// The entry shown for a reference without a named role: the whole source
/// page when the entry's page holds two or more illustrations and the
/// catalog has that page, else the entry itself.
pub open spec fn gallery_entry(catalog: Seq<CatalogItem>, item: CatalogItem) -> CatalogItem {
    if illustrations_on_page(catalog, item) >= 2 {
        match page_entry(catalog, item) {
            Some(p) => p,
            None => item,
        }
    } else {
        item
    }
}

/// The id under which an entry is shown: its own when valid, else `id`.
pub open spec fn entry_id(item: CatalogItem, id: Seq<char>) -> Seq<char> {
    match atom(item.id) {
        AtomView::Str(s) => if valid_id_seq(s) {
            s
        } else {
            id
        },
        _ => id,
    }
}

/// A reference found in the catalog under `id`, without a named role.
pub open spec fn add_unranked(catalog: Seq<CatalogItem>, out: Seq<RefView>, id: Seq<char>, item: CatalogItem) -> Seq<
    RefView,
> {
    if atom(item.pdf_page) is UInt && atom(item.source_file) is Str && shows_page(
        out,
        atom(item.pdf_page),
        atom(item.source_file),
    ) {
        out
    } else {
        let e = gallery_entry(catalog, item);
        let id2 = entry_id(e, id);
        if shows_id(out, id2) {
            out
        } else {
            out.push(shown(id2, e, "reference"@))
        }
    }
}

/// One reference considered, given the images shown so far (at most six).
pub open spec fn select_step(catalog: Seq<CatalogItem>, out: Seq<RefView>, r: RefKey) -> Seq<RefView> {
    if out.len() >= 6 {
        out
    } else {
        match r.id {
            AtomView::Str(id) => if !valid_id_seq(id) {
                out
            } else {
                match catalog_find(catalog, r.id) {
                    None => out,
                    Some(item) => match named_role(r.role) {
                        Some(role) => if shows_id(out, id) || role_count(out, role) >= role_limit(role) {
                            out
                        } else {
                            out.push(shown(id, item, role))
                        },
                        None => add_unranked(catalog, out, id, item),
                    },
                }
            },
            _ => out,
        }
    }
}

/// The references considered in order, starting from the images `out`.
pub open spec fn select_from(catalog: Seq<CatalogItem>, out: Seq<RefView>, refs: Seq<RefKey>) -> Seq<RefView>
    decreases refs.len(),
{
    if refs.len() == 0 {
        out
    } else {
        select_step(catalog, select_from(catalog, out, refs.drop_last()), refs.last())
    }
}

/// The images shown for a search result: the references of all hits,
/// ranked, considered in turn against the catalog.
pub open spec fn references_spec(hits: Option<Vec<Hit>>, catalog: Seq<CatalogItem>) -> Seq<RefView> {
    select_from(catalog, Seq::empty(), ranked(flat_keys(hit_seq(hits))))
}

/// The hits of a parsed result; none when it did not parse.
pub open spec fn hit_seq(hits: Option<Vec<Hit>>) -> Seq<Hit> {
    match hits {
        Some(h) => h@,
        None => Seq::empty(),
    }
}

/// Considering `a` and then `b` is considering `a + b`.
proof fn lemma_select_concat(catalog: Seq<CatalogItem>, out: Seq<RefView>, a: Seq<RefKey>, b: Seq<RefKey>)
    ensures
        select_from(catalog, out, a + b) == select_from(catalog, select_from(catalog, out, a), b),
    decreases b.len(),
{
    if b.len() == 0 {
        assert(a + b =~= a);
    } else {
        lemma_select_concat(catalog, out, a, b.drop_last());
        assert((a + b).drop_last() =~= a + b.drop_last());
    }
}

/// The key of a copied reference.
fn copy_ref(r: &ImageRef) -> (c: ImageRef)
    ensures
        key_of(c) == key_of(*r),
{
    ImageRef { id: copy_atom(&r.id), role: copy_atom(&r.role), priority: copy_atom(&r.priority) }
}

/// The hits' references, flattened.
fn flatten(hits: &Vec<Hit>) -> (r: Vec<ImageRef>)
    ensures
        keys(r@) == flat_keys(hits@),
{
    let mut out: Vec<ImageRef> = Vec::new();
    let mut k: usize = 0;
    while k < hits.len()
        invariant
            0 <= k <= hits@.len(),
            keys(out@) == flat_keys(hits@.take(k as int)),
        decreases hits@.len() - k,
    {
        assert(hits@.take(k + 1).drop_last() =~= hits@.take(k as int));
        let ghost before = out@;
        if let Some(v) = &hits[k].images {
            let mut j: usize = 0;
            while j < v.len()
                invariant
                    0 <= j <= v@.len(),
                    keys(out@) == keys(before) + keys(v@.take(j as int)),
                decreases v@.len() - j,
            {
                let ghost prev = out@;
                out.push(copy_ref(&v[j]));
                assert(keys(out@) =~= keys(prev).push(key_of(v@[j as int])));
                assert(keys(v@.take(j + 1)) =~= keys(v@.take(j as int)).push(key_of(v@[j as int])));
                j += 1;
            }
            assert(v@.take(j as int) =~= v@);
        } else {
            assert(keys(out@) =~= keys(before) + Seq::empty());
        }
        k += 1;
    }
    assert(hits@.take(k as int) =~= hits@);
    out
}


/// The priority class of a reference (exec).
fn class_exec(r: &ImageRef) -> (c: u64)
    ensures
        c == class_of(*r),
{
    match &r.priority {
        JsonAtom::UInt(n) => if *n < 2 { *n } else { 2 },
        _ => 0,
    }
}

/// The index of the first catalog entry whose id equals `id`.
fn find_item(catalog: &Vec<CatalogItem>, id: &JsonAtom) -> (r: Option<usize>)
    ensures
        match r {
            Some(i) => i < catalog@.len() && catalog_find(catalog@, atom(*id)) == Some(catalog@[i as int]),
            None => catalog_find(catalog@, atom(*id)) is None,
        },
{
    let mut i: usize = 0;
    assert(catalog@.skip(0) =~= catalog@);
    while i < catalog.len()
        invariant
            0 <= i <= catalog@.len(),
            catalog_find(catalog@, atom(*id)) == catalog_find(catalog@.skip(i as int), atom(*id)),
        decreases catalog@.len() - i,
    {
        assert(catalog@.skip(i as int)[0] == catalog@[i as int]);
        if atom_eq(&catalog[i].id, id) {
            return Some(i);
        }
        assert(catalog@.skip(i as int).drop_first() =~= catalog@.skip(i + 1));
        i += 1;
    }
    None
}

/// Whether catalog entry `e` is on the page of `item` and of kind `kind`.
fn same_page_kind_exec(e: &CatalogItem, item: &CatalogItem, kind: &str) -> (b: bool)
    ensures
        b == same_page_kind(*e, *item, kind@),
{
    atom_eq(&e.pdf_page, &item.pdf_page) && atom_eq(&e.source_file, &item.source_file) && atom_is_str(
        &e.kind,
        kind,
    )
}

/// The index of the first catalog entry that is the whole page of `item`.
fn find_page_entry(catalog: &Vec<CatalogItem>, item: &CatalogItem) -> (r: Option<usize>)
    ensures
        match r {
            Some(i) => i < catalog@.len() && page_entry(catalog@, *item) == Some(catalog@[i as int]),
            None => page_entry(catalog@, *item) is None,
        },
{
    let mut i: usize = 0;
    assert(catalog@.skip(0) =~= catalog@);
    while i < catalog.len()
        invariant
            0 <= i <= catalog@.len(),
            page_entry(catalog@, *item) == page_entry(catalog@.skip(i as int), *item),
        decreases catalog@.len() - i,
    {
        assert(catalog@.skip(i as int)[0] == catalog@[i as int]);
        if same_page_kind_exec(&catalog[i], item, "source_page") {
            return Some(i);
        }
        assert(catalog@.skip(i as int).drop_first() =~= catalog@.skip(i + 1));
        i += 1;
    }
    None
}

/// How many catalog entries are illustrations on the page of `item`.
fn count_illustrations(catalog: &Vec<CatalogItem>, item: &CatalogItem) -> (n: usize)
    ensures
        n == illustrations_on_page(catalog@, *item),
{
    let mut n: usize = 0;
    let mut i: usize = 0;
    while i < catalog.len()
        invariant
            0 <= i <= catalog@.len(),
            n <= i,
            n == illustrations_on_page(catalog@.take(i as int), *item),
        decreases catalog@.len() - i,
    {
        assert(catalog@.take(i + 1).drop_last() =~= catalog@.take(i as int));
        if same_page_kind_exec(&catalog[i], item, "illustration") {
            n += 1;
        }
        i += 1;
    }
    assert(catalog@.take(i as int) =~= catalog@);
    n
}

/// Whether some shown image has this id (exec).
fn shows_id_exec(out: &Vec<ImageReference>, id: &str) -> (b: bool)
    ensures
        b == shows_id(ref_views(out@), id@),
{
    let mut k: usize = 0;
    while k < out.len()
        invariant
            0 <= k <= out@.len(),
            forall|m: int| 0 <= m < k ==> (#[trigger] ref_views(out@)[m]).id != id@,
        decreases out@.len() - k,
    {
        if str_eq(out[k].id.as_str(), id) {
            assert(ref_views(out@)[k as int].id == id@);
            return true;
        }
        k += 1;
    }
    false
}

/// Whether some shown image is from this page of this source (exec).
fn shows_page_exec(out: &Vec<ImageReference>, page: &JsonAtom, source: &JsonAtom) -> (b: bool)
    ensures
        b == shows_page(ref_views(out@), atom(*page), atom(*source)),
{
    let mut k: usize = 0;
    while k < out.len()
        invariant
            0 <= k <= out@.len(),
            forall|m: int|
                0 <= m < k ==> !((#[trigger] ref_views(out@)[m]).page == atom(*page) && ref_views(out@)[m].source
                    == atom(*source)),
        decreases out@.len() - k,
    {
        if atom_eq(&out[k].page, page) && atom_eq(&out[k].source, source) {
            assert(ref_views(out@)[k as int].page == atom(*page));
            return true;
        }
        k += 1;
    }
    false
}

/// How many shown images have this role (exec).
fn role_count_exec(out: &Vec<ImageReference>, role: &str) -> (n: usize)
    ensures
        n == role_count(ref_views(out@), role@),
{
    let mut n: usize = 0;
    let mut k: usize = 0;
    while k < out.len()
        invariant
            0 <= k <= out@.len(),
            n <= k,
            n == role_count(ref_views(out@).take(k as int), role@),
        decreases out@.len() - k,
    {
        assert(ref_views(out@).take(k + 1).drop_last() =~= ref_views(out@).take(k as int));
        assert(ref_views(out@).take(k + 1).last() == ref_view(out@[k as int]));
        if str_eq(out[k].role.as_str(), role) {
            n += 1;
        }
        k += 1;
    }
    assert(ref_views(out@).take(k as int) =~= ref_views(out@));
    n
}

/// The shown reference for a catalog entry.
fn make_ref(id: &str, item: &CatalogItem, role: &str) -> (r: ImageReference)
    ensures
        ref_view(r) == shown(id@, *item, role@),
{
    ImageReference {
        id: owned(id),
        page: copy_atom(&item.pdf_page),
        caption: copy_atom(&item.alt_text),
        kind: copy_atom(&item.kind),
        role: owned(role),
        source: copy_atom(&item.source_file),
        url: concat("/api/manual-images/", id),
    }
}

/// Appends a shown reference.
fn push_ref(out: &mut Vec<ImageReference>, r: ImageReference)
    ensures
        ref_views(final(out)@) == ref_views(old(out)@).push(ref_view(r)),
{
    out.push(r);
    assert(ref_views(out@) =~= ref_views(old(out)@).push(ref_view(r)));
}

/// A reference found in the catalog, without a named role (exec).
fn add_unranked_exec(catalog: &Vec<CatalogItem>, out: &mut Vec<ImageReference>, id: &str, idx: usize)
    requires
        idx < catalog@.len(),
    ensures
        ref_views(final(out)@) == add_unranked(catalog@, ref_views(old(out)@), id@, catalog@[idx as int]),
{
    let item = &catalog[idx];
    if matches!(item.pdf_page, JsonAtom::UInt(_)) && matches!(item.source_file, JsonAtom::Str(_))
        && shows_page_exec(out, &item.pdf_page, &item.source_file) {
        return;
    }
    let mut e_idx = idx;
    if count_illustrations(catalog, item) >= 2 {
        if let Some(p) = find_page_entry(catalog, item) {
            e_idx = p;
        }
    }
    let e = &catalog[e_idx];
    let id2: &str = match &e.id {
        JsonAtom::Str(s) => if valid_id(s.as_str()) {
            s.as_str()
        } else {
            id
        },
        _ => id,
    };
    if shows_id_exec(out, id2) {
        return;
    }
    push_ref(out, make_ref(id2, e, "reference"));
}

/// One reference considered against the catalog and the images shown so far.
fn select_one(catalog: &Vec<CatalogItem>, out: &mut Vec<ImageReference>, r: &ImageRef)
    ensures
        ref_views(final(out)@) == select_step(catalog@, ref_views(old(out)@), key_of(*r)),
{
    if out.len() >= 6 {
        return;
    }
    let id: &str = match &r.id {
        JsonAtom::Str(s) => s.as_str(),
        _ => {
            return;
        },
    };
    if !valid_id(id) {
        return;
    }
    let idx = match find_item(catalog, &r.id) {
        Some(i) => i,
        None => {
            return;
        },
    };
    let item = &catalog[idx];
    let named: Option<&str> = match &r.role {
        JsonAtom::Str(s) => if str_eq(s.as_str(), "primary") || str_eq(s.as_str(), "supporting") || str_eq(
            s.as_str(),
            "reference",
        ) {
            Some(s.as_str())
        } else {
            None
        },
        _ => None,
    };
    match named {
        Some(role) => {
            let limit: usize = if str_eq(role, "primary") {
                1
            } else if str_eq(role, "supporting") {
                2
            } else {
                3
            };
            if shows_id_exec(out, id) || role_count_exec(out, role) >= limit {
                return;
            }
            push_ref(out, make_ref(id, item, role));
        },
        None => {
            add_unranked_exec(catalog, out, id, idx);
        },
    }
}

/// Considers, in order, the references of one priority class.
fn select_class(catalog: &Vec<CatalogItem>, out: &mut Vec<ImageReference>, refs: &Vec<ImageRef>, c: u64)
    ensures
        ref_views(final(out)@) == select_from(catalog@, ref_views(old(out)@), of_class(keys(refs@), c)),
{
    let ghost start = ref_views(out@);
    let mut i: usize = 0;
    assert(keys(refs@).take(0) =~= Seq::<RefKey>::empty());
    while i < refs.len()
        invariant
            0 <= i <= refs@.len(),
            start == ref_views(old(out)@),
            ref_views(out@) == select_from(catalog@, start, of_class(keys(refs@).take(i as int), c)),
        decreases refs@.len() - i,
    {
        let ghost ks = keys(refs@).take(i + 1);
        assert(ks.drop_last() =~= keys(refs@).take(i as int));
        assert(ks.last() == key_of(refs@[i as int]));
        if class_exec(&refs[i]) == c {
            let ghost prev = of_class(keys(refs@).take(i as int), c);
            assert(prev.push(key_of(refs@[i as int])).drop_last() =~= prev);
            select_one(catalog, out, &refs[i]);
        }
        i += 1;
    }
    assert(keys(refs@).take(i as int) =~= keys(refs@));
}

/// The images shown with a manual search result: the references of all
/// hits, highest priority class first and otherwise in retrieval order,
/// each taken from the catalog (which is authoritative for page, caption,
/// kind and source), at most six, at most one primary, two supporting and
/// three reference images, no id twice, and one gallery slot per page for
/// references without a named role.
pub fn references_from_catalog(hits: &Option<Vec<Hit>>, catalog: &Vec<CatalogItem>) -> (r: Vec<
    ImageReference,
>)
    ensures
        ref_views(r@) == references_spec(*hits, catalog@),
{
    let flat: Vec<ImageRef> = match hits {
        Some(h) => flatten(h),
        None => Vec::new(),
    };
    assert(keys(flat@) == flat_keys(hit_seq(*hits))) by {
        if hits.is_none() {
            assert(keys(flat@) =~= Seq::<RefKey>::empty());
        }
    }
    let mut out: Vec<ImageReference> = Vec::new();
    assert(ref_views(out@) =~= Seq::<RefView>::empty());
    select_class(catalog, &mut out, &flat, 2);
    select_class(catalog, &mut out, &flat, 1);
    select_class(catalog, &mut out, &flat, 0);
    proof {
        let ks = keys(flat@);
        let a = of_class(ks, 2);
        let b = of_class(ks, 1);
        let c = of_class(ks, 0);
        lemma_select_concat(catalog@, Seq::empty(), a, b);
        lemma_select_concat(catalog@, Seq::empty(), a + b, c);
    }
    out
}


/// An agent event as the image tracker reads it: its `type`, its `tool`,
/// the `id` among its arguments, its `ok` flag, and the hits its summary
/// parsed to (none when it did not parse).
#[derive(Debug, Clone)]
pub struct ImageEvent {
    pub kind: JsonAtom,
    pub tool: JsonAtom,
    pub argument_id: JsonAtom,
    pub ok: JsonAtom,
    pub hits: Option<Vec<Hit>>,
}

/// Pairs each tool result with the invocation that produced it: agent
/// tools run one at a time, so the last start is the one a result answers.
#[derive(Debug)]
pub struct ImageEventTracker {
    manual_pending: bool,
}

impl ImageEventTracker {
    /// Whether the last tool started was a manual search.
    pub closed spec fn pending(&self) -> bool {
        self.manual_pending
    }

    /// The tracker's state after an event.
    pub open spec fn next_pending(pending: bool, e: ImageEvent) -> bool {
        if atom(e.kind) == AtomView::Str("tool_start"@) {
            atom(e.tool) == AtomView::Str("skill_run"@) && atom(e.argument_id) == AtomView::Str("manual-rag"@)
        } else if atom(e.kind) == AtomView::Str("tool_result"@) {
            false
        } else {
            pending
        }
    }

    /// Whether an event is the successful result of a manual search that
    /// carries image results, given whether a manual search was pending.
    pub open spec fn wants_images(pending: bool, e: ImageEvent) -> bool {
        atom(e.kind) == AtomView::Str("tool_result"@) && pending
            && atom(e.tool) == AtomView::Str("skill_run"@) && atom(e.ok) == AtomView::Other("true"@)
            && image_results(e.hits)
    }

    /// Takes one event; answers whether the images of its hits are to be
    /// shown (then [`references_from_catalog`] gives them).
    pub fn consume(&mut self, event: &ImageEvent) -> (wants: bool)
        ensures
            final(self).pending() == Self::next_pending(old(self).pending(), *event),
            wants == Self::wants_images(old(self).pending(), *event),
    {
        if atom_is_str(&event.kind, "tool_start") {
            proof {
                reveal_strlit("tool_start");
                reveal_strlit("tool_result");
                assert("tool_start"@[5] != "tool_result"@[5]);
            }
            self.manual_pending = atom_is_str(&event.tool, "skill_run") && atom_is_str(
                &event.argument_id,
                "manual-rag",
            );
        } else if atom_is_str(&event.kind, "tool_result") {
            let manual = self.manual_pending;
            self.manual_pending = false;
            let ok_true = match &event.ok {
                JsonAtom::Other(t) => str_eq(t.as_str(), "true"),
                _ => false,
            };
            if manual && atom_is_str(&event.tool, "skill_run") && ok_true && has_image_results(&event.hits) {
                return true;
            }
        }
        false
    }
}

impl Default for ImageEventTracker {
    fn default() -> (r: Self)
        ensures
            !r.pending(),
    {
        ImageEventTracker { manual_pending: false }
    }
}

/// `id` is the id of some catalog entry.
pub open spec fn is_catalog_id(catalog: Seq<CatalogItem>, id: Seq<char>) -> bool {
    exists|m: int| 0 <= m < catalog.len() && atom(#[trigger] catalog[m].id) == AtomView::Str(id)
}

/// An image shown under `id` from entry `e`: `id` is the entry's own id,
/// unless the entry has no valid id of its own.
pub open spec fn own_or_no_id(e: CatalogItem, id: Seq<char>) -> bool {
    atom(e.id) == AtomView::Str(id) || !(atom(e.id) matches AtomView::Str(s) && valid_id_seq(s))
}

/// What every gallery of shown images satisfies, against its catalog.
pub open spec fn gallery_ok(catalog: Seq<CatalogItem>, out: Seq<RefView>) -> bool {
    &&& forall|k: int| 0 <= k < out.len() ==> is_catalog_id(catalog, #[trigger] out[k].id)
    &&& out.len() <= 6
    &&& forall|k: int| 0 <= k < out.len() ==> valid_id_seq(#[trigger] out[k].id)
    &&& forall|k: int| 0 <= k < out.len() ==> (#[trigger] out[k]).url == "/api/manual-images/"@ + out[k].id
    &&& forall|i: int, j: int| 0 <= i < j < out.len() ==> (#[trigger] out[i]).id != (#[trigger] out[j]).id
    &&& forall|k: int|
        0 <= k < out.len() ==> exists|m: int|
            0 <= m < catalog.len() && (#[trigger] out[k]) == shown(out[k].id, #[trigger] catalog[m], out[k].role)
                && own_or_no_id(catalog[m], out[k].id)
    &&& role_count(out, "primary"@) <= 1
    &&& role_count(out, "supporting"@) <= 2
}

/// The entry found for an id is in the catalog.
proof fn lemma_catalog_find_in(catalog: Seq<CatalogItem>, id: AtomView)
    ensures
        catalog_find(catalog, id) matches Some(e) ==> atom(e.id) == id && exists|m: int|
            0 <= m < catalog.len() && catalog[m] == e,
    decreases catalog.len(),
{
    if catalog.len() > 0 && atom(catalog[0].id) != id {
        lemma_catalog_find_in(catalog.drop_first(), id);
        if let Some(e) = catalog_find(catalog, id) {
            let m = choose|m: int| 0 <= m < catalog.drop_first().len() && catalog.drop_first()[m] == e;
            assert(catalog[m + 1] == e);
        }
    }
}

/// The whole-page entry found for an item is in the catalog.
proof fn lemma_page_entry_in(catalog: Seq<CatalogItem>, item: CatalogItem)
    ensures
        page_entry(catalog, item) matches Some(e) ==> exists|m: int| 0 <= m < catalog.len() && catalog[m] == e,
    decreases catalog.len(),
{
    if catalog.len() > 0 && !same_page_kind(catalog[0], item, "source_page"@) {
        lemma_page_entry_in(catalog.drop_first(), item);
        if let Some(e) = page_entry(catalog, item) {
            let m = choose|m: int| 0 <= m < catalog.drop_first().len() && catalog.drop_first()[m] == e;
            assert(catalog[m + 1] == e);
        }
    }
}

/// Appending one image counts it under its role.
proof fn lemma_role_count_push(out: Seq<RefView>, x: RefView, role: Seq<char>)
    ensures
        role_count(out.push(x), role) == role_count(out, role) + if x.role == role { 1nat } else { 0nat },
{
    assert(out.push(x).drop_last() =~= out);
}

/// Appending a catalog entry's image under a fresh valid id keeps a
/// gallery well formed, when it stays within six and the role limits.
proof fn lemma_push_ok(catalog: Seq<CatalogItem>, out: Seq<RefView>, id: Seq<char>, m: int, role: Seq<char>)
    requires
        gallery_ok(catalog, out),
        out.len() < 6,
        valid_id_seq(id),
        !shows_id(out, id),
        0 <= m < catalog.len(),
        is_catalog_id(catalog, id),
        own_or_no_id(catalog[m], id),
        role == "primary"@ ==> role_count(out, role) < 1,
        role == "supporting"@ ==> role_count(out, role) < 2,
    ensures
        gallery_ok(catalog, out.push(shown(id, catalog[m], role))),
{
    let x = shown(id, catalog[m], role);
    let o2 = out.push(x);
    lemma_role_count_push(out, x, "primary"@);
    lemma_role_count_push(out, x, "supporting"@);
    assert forall|i: int, j: int| 0 <= i < j < o2.len() implies (#[trigger] o2[i]).id != (#[trigger] o2[j]).id by {
        if j == out.len() {
            if o2[i].id == id {
                assert(out[i].id == id);
            }
        } else {
            assert(o2[i] == out[i] && o2[j] == out[j]);
        }
    }
    assert forall|k: int| 0 <= k < o2.len() implies is_catalog_id(catalog, #[trigger] o2[k].id) by {
        if k < out.len() {
            assert(o2[k] == out[k]);
        }
    }
    assert forall|k: int| 0 <= k < o2.len() implies exists|n: int|
        0 <= n < catalog.len() && (#[trigger] o2[k]) == shown(o2[k].id, #[trigger] catalog[n], o2[k].role)
            && own_or_no_id(catalog[n], o2[k].id) by {
        if k == out.len() {
            assert(o2[k] == shown(o2[k].id, catalog[m], o2[k].role));
        } else {
            assert(o2[k] == out[k]);
        }
    }
    assert forall|k: int| 0 <= k < o2.len() implies valid_id_seq(#[trigger] o2[k].id) by {
        if k < out.len() {
            assert(o2[k] == out[k]);
        }
    }
    assert forall|k: int| 0 <= k < o2.len() implies (#[trigger] o2[k]).url == "/api/manual-images/"@ + o2[k].id by {
        if k < out.len() {
            assert(o2[k] == out[k]);
        }
    }
}

/// Considering one reference keeps a gallery well formed.
proof fn lemma_step_ok(catalog: Seq<CatalogItem>, out: Seq<RefView>, r: RefKey)
    requires
        gallery_ok(catalog, out),
    ensures
        gallery_ok(catalog, select_step(catalog, out, r)),
{
    if out.len() < 6 {
        if let AtomView::Str(id) = r.id {
            if valid_id_seq(id) {
                lemma_catalog_find_in(catalog, r.id);
                if let Some(item) = catalog_find(catalog, r.id) {
                    let m = choose|m: int| 0 <= m < catalog.len() && catalog[m] == item;
                    match named_role(r.role) {
                        Some(role) => {
                            if !(shows_id(out, id) || role_count(out, role) >= role_limit(role)) {
                                lemma_push_ok(catalog, out, id, m, role);
                            }
                        },
                        None => {
                            if !(atom(item.pdf_page) is UInt && atom(item.source_file) is Str && shows_page(
                                out,
                                atom(item.pdf_page),
                                atom(item.source_file),
                            )) {
                                let e = gallery_entry(catalog, item);
                                let id2 = entry_id(e, id);
                                lemma_page_entry_in(catalog, item);
                                let m2 = if illustrations_on_page(catalog, item) >= 2 && page_entry(
                                    catalog,
                                    item,
                                ) is Some {
                                    choose|n: int| 0 <= n < catalog.len() && catalog[n] == e
                                } else {
                                    m
                                };
                                assert(catalog[m2] == e);
                                if !shows_id(out, id2) {
                                    if id2 == id {
                                        assert(atom(catalog[m].id) == AtomView::Str(id));
                                    } else {
                                        assert(atom(catalog[m2].id) == AtomView::Str(id2));
                                    }
                                    assert("reference"@ != "primary"@ && "reference"@ != "supporting"@) by {
                                        reveal_strlit("reference");
                                        reveal_strlit("primary");
                                        reveal_strlit("supporting");
                                        assert("reference"@[0] != "primary"@[0]);
                                        assert("reference"@[0] != "supporting"@[0]);
                                    }
                                    lemma_push_ok(catalog, out, id2, m2, "reference"@);
                                }
                            }
                        },
                    }
                }
            }
        }
    }
}

/// Considering references in turn keeps a gallery well formed.
proof fn lemma_select_ok(catalog: Seq<CatalogItem>, out: Seq<RefView>, refs: Seq<RefKey>)
    requires
        gallery_ok(catalog, out),
    ensures
        gallery_ok(catalog, select_from(catalog, out, refs)),
    decreases refs.len(),
{
    if refs.len() > 0 {
        lemma_select_ok(catalog, out, refs.drop_last());
        lemma_step_ok(catalog, select_from(catalog, out, refs.drop_last()), refs.last());
    }
}

/// The images shown for any search result are at most six, each under a
/// valid id with its own URL, no id twice, each id the id of a catalog
/// entry, each image exactly as the catalog describes one of its entries
/// (caption, page, kind and source never come from the search) and under
/// that entry's own id unless the entry has no valid id, with at most one
/// primary and two supporting images.
pub proof fn lemma_references_well_formed(hits: Option<Vec<Hit>>, catalog: Seq<CatalogItem>)
    ensures
        gallery_ok(catalog, references_spec(hits, catalog)),
{
    assert(role_count(Seq::<RefView>::empty(), "primary"@) == 0);
    assert(role_count(Seq::<RefView>::empty(), "supporting"@) == 0);
    lemma_select_ok(catalog, Seq::empty(), ranked(flat_keys(hit_seq(hits))));
}

} // verus!
