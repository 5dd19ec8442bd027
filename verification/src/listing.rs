//! Directory-listing synthesis: the order of the listed entries and the
//! HTML page rendered from them.

use crate::bytes::push_bytes;
use crate::bytes::push_str_bytes;
use vstd::multiset::Multiset;
use vstd::prelude::*;
use vstd::relations::total_ordering;
use vstd::relations::sorted_by;
use vstd::seq_lib::lemma_sorted_unique;
use vstd::utf8::encode_utf8;
use vstd::utf8::is_ascii_chars;
use vstd::utf8::is_ascii_chars_encode_utf8;

verus! {

/// One direct child of the directory being listed: its file name, as the
/// bytes shown to the client, and whether it is itself a directory.
pub struct FsEntry {
    pub name: Vec<u8>,
    pub is_dir: bool,
}

impl View for FsEntry {
    type V = (Seq<u8>, bool);

    open spec fn view(&self) -> (Seq<u8>, bool) {
        (self.name@, self.is_dir)
    }
}

/// The views of a sequence of entries.
pub open spec fn entry_views(s: Seq<FsEntry>) -> Seq<(Seq<u8>, bool)> {
    s.map_values(|x: FsEntry| x@)
}

/// Byte-wise lexicographic order on file names.
pub open spec fn lex_le(a: Seq<u8>, b: Seq<u8>) -> bool
    decreases a.len(),
{
    if a.len() == 0 {
        true
    } else if b.len() == 0 {
        false
    } else if a.first() < b.first() {
        true
    } else if a.first() > b.first() {
        false
    } else {
        lex_le(a.drop_first(), b.drop_first())
    }
}

/// Listing order: directories strictly before non-directories, and within
/// each of the two groups lexicographically by name.
pub open spec fn entry_le(a: (Seq<u8>, bool), b: (Seq<u8>, bool)) -> bool {
    if a.1 != b.1 {
        a.1
    } else {
        lex_le(a.0, b.0)
    }
}

/// The listing order as a relation value, for `sort_by`.
pub open spec fn entry_order() -> spec_fn((Seq<u8>, bool), (Seq<u8>, bool)) -> bool {
    |a: (Seq<u8>, bool), b: (Seq<u8>, bool)| entry_le(a, b)
}

proof fn lemma_lex_le_refl(a: Seq<u8>)
    ensures
        lex_le(a, a),
    decreases a.len(),
{
    if a.len() != 0 {
        lemma_lex_le_refl(a.drop_first());
    }
}

proof fn lemma_lex_le_antisym(a: Seq<u8>, b: Seq<u8>)
    requires
        lex_le(a, b),
        lex_le(b, a),
    ensures
        a == b,
    decreases a.len(),
{
    if a.len() == 0 {
        assert(b.len() == 0);
        assert(a =~= b);
    } else {
        lemma_lex_le_antisym(a.drop_first(), b.drop_first());
        assert(a.len() == b.len());
        assert forall|i: int| 0 <= i < a.len() implies a[i] == b[i] by {
            if i > 0 {
                assert(a.drop_first()[i - 1] == a[i]);
                assert(b.drop_first()[i - 1] == b[i]);
            }
        }
        assert(a =~= b);
    }
}

proof fn lemma_lex_le_trans(a: Seq<u8>, b: Seq<u8>, c: Seq<u8>)
    requires
        lex_le(a, b),
        lex_le(b, c),
    ensures
        lex_le(a, c),
    decreases a.len(),
{
    if a.len() != 0 && a.first() == b.first() && b.first() == c.first() {
        lemma_lex_le_trans(a.drop_first(), b.drop_first(), c.drop_first());
    }
}

proof fn lemma_lex_le_total(a: Seq<u8>, b: Seq<u8>)
    ensures
        lex_le(a, b) || lex_le(b, a),
    decreases a.len(),
{
    if a.len() != 0 && b.len() != 0 && a.first() == b.first() {
        lemma_lex_le_total(a.drop_first(), b.drop_first());
    }
}

/// The listing order is a total order, so sorting by it is well defined
/// and has exactly one result.
pub proof fn lemma_entry_order_total()
    ensures
        total_ordering(entry_order()),
{
    let leq = entry_order();
    assert forall|x: (Seq<u8>, bool)| #[trigger] leq(x, x) by {
        lemma_lex_le_refl(x.0);
    }
    assert forall|x: (Seq<u8>, bool), y: (Seq<u8>, bool)|
        #[trigger] leq(x, y) && #[trigger] leq(y, x) implies x == y by {
        lemma_lex_le_antisym(x.0, y.0);
        lemma_lex_le_antisym(y.0, x.0);
    }
    assert forall|x: (Seq<u8>, bool), y: (Seq<u8>, bool), z: (Seq<u8>, bool)|
        #[trigger] leq(x, y) && #[trigger] leq(y, z) implies leq(x, z) by {
        if x.1 == y.1 && y.1 == z.1 {
            lemma_lex_le_trans(x.0, y.0, z.0);
        }
    }
    assert forall|x: (Seq<u8>, bool), y: (Seq<u8>, bool)|
        #[trigger] leq(x, y) || #[trigger] leq(y, x) by {
        if x.1 == y.1 {
            lemma_lex_le_total(x.0, y.0);
        }
    }
}

/// Does `a` come no later than `b` in byte-wise lexicographic order?
fn lex_le_bytes(a: &Vec<u8>, b: &Vec<u8>) -> (r: bool)
    ensures
        r == lex_le(a@, b@),
{
    let mut i: usize = 0;
    proof {
        assert(a@.skip(0) =~= a@);
        assert(b@.skip(0) =~= b@);
    }
    loop
        invariant
            i <= a.len(),
            i <= b.len(),
            lex_le(a@, b@) == lex_le(a@.skip(i as int), b@.skip(i as int)),
        decreases a.len() - i,
    {
        if i == a.len() {
            proof {
                assert(a@.skip(i as int) =~= Seq::<u8>::empty());
            }
            return true;
        }
        if i == b.len() {
            proof {
                assert(b@.skip(i as int) =~= Seq::<u8>::empty());
                assert(a@.skip(i as int).len() > 0);
            }
            return false;
        }
        let x = a[i];
        let y = b[i];
        proof {
            assert(a@.skip(i as int).first() == a@[i as int]);
            assert(b@.skip(i as int).first() == b@[i as int]);
        }
        if x < y {
            return true;
        }
        if x > y {
            return false;
        }
        proof {
            assert(a@.skip(i as int).drop_first() =~= a@.skip(i as int + 1));
            assert(b@.skip(i as int).drop_first() =~= b@.skip(i as int + 1));
        }
        i = i + 1;
    }
}

/// Does `a` come no later than `b` in listing order?
fn entry_before(a: &FsEntry, b: &FsEntry) -> (r: bool)
    ensures
        r == entry_le(a@, b@),
{
    if a.is_dir != b.is_dir {
        a.is_dir
    } else {
        lex_le_bytes(&a.name, &b.name)
    }
}

/// Insert one entry into a vector already in listing order, keeping it in
/// listing order and adding exactly that entry.
#[verifier::rlimit(60)]
fn insert_in_order(out: &mut Vec<FsEntry>, e: FsEntry)
    requires
        sorted_by(entry_views(old(out)@), entry_order()),
    ensures
        sorted_by(entry_views(final(out)@), entry_order()),
        entry_views(final(out)@).to_multiset() == entry_views(old(out)@).to_multiset().insert(
            e@,
        ),
{
    broadcast use vstd::seq_lib::group_to_multiset_ensures;

    let ghost prev = out@;
    let mut i: usize = 0;
    while i < out.len() && entry_before(&out[i], &e)
        invariant
            i <= out.len(),
            out@ == prev,
            sorted_by(entry_views(prev), entry_order()),
            forall|k: int| 0 <= k < i ==> entry_le(#[trigger] entry_views(prev)[k], e@),
        decreases out.len() - i,
    {
        proof {
            assert(entry_views(prev)[i as int] == prev[i as int]@);
        }
        i = i + 1;
    }
    out.insert(i, e);
    proof {
        lemma_entry_order_total();
        let leq = entry_order();
        let vw = entry_views(prev);
        let nw = entry_views(out@);
        assert(out@ == prev.insert(i as int, e));
        prev.insert_ensures(i as int, e);
        assert(nw.len() == vw.len() + 1);
        assert forall|j: int| 0 <= j < nw.len() implies nw[j] == (if j < i {
            vw[j]
        } else if j == i {
            e@
        } else {
            vw[j - 1]
        }) by {
            assert(nw[j] == out@[j]@);
            if j < i {
                assert(out@[j] == prev[j]);
                assert(vw[j] == prev[j]@);
            } else if j > i {
                assert(out@[j] == prev[j - 1]);
                assert(vw[j - 1] == prev[j - 1]@);
            }
        }
        if i < vw.len() {
            assert(!entry_le(vw[i as int], e@));
            assert(leq(e@, vw[i as int])) by {
                if vw[i as int].1 == e@.1 {
                    lemma_lex_le_total(e@.0, vw[i as int].0);
                }
            }
        }
        assert forall|p: int, q: int| 0 <= p < q < nw.len() implies #[trigger] leq(
            nw[p],
            nw[q],
        ) by {
            if q < i {
                assert(leq(vw[p], vw[q]));
            } else if p < i && q == i {
                assert(entry_le(vw[p], e@));
            } else if p < i && q > i {
                assert(leq(vw[p], vw[q - 1]));
            } else if p == i && q > i {
                assert(leq(e@, vw[i as int]));
                if q - 1 > i {
                    assert(leq(vw[i as int], vw[q - 1]));
                }
            } else {
                assert(leq(vw[p - 1], vw[q - 1]));
            }
        }
        assert(sorted_by(nw, leq));
        assert(nw.remove(i as int) =~= vw);
        assert(nw[i as int] == e@);
        assert(nw.to_multiset().remove(e@) =~= vw.to_multiset());
        assert(nw.contains(e@));
        assert(nw.to_multiset().count(e@) > 0);
        assert(nw.to_multiset() =~= vw.to_multiset().insert(e@)) by {
            assert(forall|y: (Seq<u8>, bool)|
                y != e@ ==> nw.to_multiset().count(y) == nw.to_multiset().remove(e@).count(y));
        }
    }
}

/// Sort entries into listing order. The result is the unique ordering of
/// the given entries by `entry_order`.
pub fn sort_entries(entries: Vec<FsEntry>) -> (r: Vec<FsEntry>)
    ensures
        entry_views(r@) == entry_views(entries@).sort_by(entry_order()),
{
    broadcast use vstd::seq_lib::group_to_multiset_ensures;

    let ghost orig = entry_views(entries@);
    let mut rest = entries;
    let mut out: Vec<FsEntry> = Vec::new();
    proof {
        assert(entry_views(out@) =~= Seq::<(Seq<u8>, bool)>::empty());
        assert(entry_views(out@).to_multiset().add(entry_views(rest@).to_multiset())
            =~= orig.to_multiset());
    }
    while rest.len() > 0
        invariant
            sorted_by(entry_views(out@), entry_order()),
            entry_views(out@).to_multiset().add(entry_views(rest@).to_multiset())
                =~= orig.to_multiset(),
        decreases rest.len(),
    {
        let ghost before = rest@;
        let e = rest.pop().unwrap();
        proof {
            assert(before =~= rest@.push(e));
            assert(entry_views(before) =~= entry_views(rest@).push(e@));
            entry_views(rest@).to_multiset_ensures();
            assert(entry_views(rest@).push(e@).to_multiset() =~= entry_views(
                rest@,
            ).to_multiset().insert(e@));
            assert(entry_views(before).to_multiset() == entry_views(rest@).push(
                e@,
            ).to_multiset());
        }
        let ghost out_before = entry_views(out@);
        insert_in_order(&mut out, e);
        proof {
            assert(entry_views(out@).to_multiset().add(entry_views(rest@).to_multiset())
                =~= orig.to_multiset()) by {
                assert(entry_views(out@).to_multiset() == out_before.to_multiset().insert(e@));
            }
        }
    }
    proof {
        assert(entry_views(rest@) =~= Seq::<(Seq<u8>, bool)>::empty());
        assert(entry_views(rest@).to_multiset() =~= Multiset::<(Seq<u8>, bool)>::empty());
        assert(entry_views(out@).to_multiset() =~= orig.to_multiset());
        lemma_entry_order_total();
        orig.lemma_sort_by_ensures(entry_order());
        lemma_sorted_unique(entry_views(out@), orig.sort_by(entry_order()), entry_order());
        assert(entry_views(out@) =~= orig.sort_by(entry_order()));
    }
    out
}

/// The text a listing shows for an entry, which is also its link target:
/// the file name, with `/` appended when the entry is a directory.
pub open spec fn entry_label(e: (Seq<u8>, bool)) -> Seq<u8> {
    if e.1 {
        e.0 + encode_utf8("/"@)
    } else {
        e.0
    }
}

/// The list item rendered for one entry: an anchor whose target and text
/// are both the entry's label.
pub open spec fn entry_anchor(e: (Seq<u8>, bool)) -> Seq<u8> {
    encode_utf8("<li><a href="@) + entry_label(e) + encode_utf8(">"@) + entry_label(e)
        + encode_utf8("</a></li>"@)
}

/// The anchors of all entries, in the order given.
pub open spec fn anchors(entries: Seq<(Seq<u8>, bool)>) -> Seq<u8>
    decreases entries.len(),
{
    if entries.len() == 0 {
        Seq::<u8>::empty()
    } else {
        anchors(entries.drop_last()) + entry_anchor(entries.last())
    }
}

/// The listing page's title: the request path after a fixed prefix.
pub open spec fn listing_title(path: Seq<char>) -> Seq<u8> {
    encode_utf8("Directory listing for "@) + encode_utf8(path)
}

/// Everything of the listing page before the anchors.
pub open spec fn listing_head(path: Seq<char>) -> Seq<u8> {
    encode_utf8("<!DOCTYPE HTML><html><head><title>"@) + listing_title(path) + encode_utf8(
        "</title></head><body><h1>"@,
    ) + listing_title(path) + encode_utf8("</h1><hr><ul>"@)
}

/// The complete listing page for the given request path and entries.
pub open spec fn listing_page(path: Seq<char>, entries: Seq<(Seq<u8>, bool)>) -> Seq<u8> {
    listing_head(path) + anchors(entries) + encode_utf8("</ul></body></html>"@)
}

/// Append an entry's label: its name, with `/` after a directory's.
fn push_label(page: &mut Vec<u8>, e: &FsEntry)
    ensures
        final(page)@ == old(page)@ + entry_label(e@),
{
    push_bytes(page, e.name.as_slice());
    if e.is_dir {
        push_str_bytes(page, "/");
        proof {
            assert(old(page)@ + entry_label(e@) =~= old(page)@ + e.name@ + encode_utf8("/"@));
        }
    }
}

/// Append the list item for one entry.
fn push_anchor(page: &mut Vec<u8>, e: &FsEntry)
    ensures
        final(page)@ == old(page)@ + entry_anchor(e@),
{
    push_str_bytes(page, "<li><a href=");
    push_label(page, e);
    push_str_bytes(page, ">");
    push_label(page, e);
    push_str_bytes(page, "</a></li>");
    proof {
        assert(final(page)@ =~= old(page)@ + entry_anchor(e@));
    }
}

/// Render the HTML listing for the directory a request path denotes: its
/// title names the request path, and its anchors are the given entries in
/// listing order, one anchor per entry.
pub fn render_listing(path: &str, entries: Vec<FsEntry>) -> (r: Vec<u8>)
    ensures
        r@ == listing_page(path@, entry_views(entries@).sort_by(entry_order())),
{
    let ghost orig = entry_views(entries@);
    let sorted = sort_entries(entries);
    let ghost sv = entry_views(sorted@);
    let mut page: Vec<u8> = Vec::new();
    push_str_bytes(&mut page, "<!DOCTYPE HTML><html><head><title>");
    push_str_bytes(&mut page, "Directory listing for ");
    push_str_bytes(&mut page, path);
    push_str_bytes(&mut page, "</title></head><body><h1>");
    push_str_bytes(&mut page, "Directory listing for ");
    push_str_bytes(&mut page, path);
    push_str_bytes(&mut page, "</h1><hr><ul>");
    proof {
        assert(page@ =~= listing_head(path@) + anchors(sv.take(0)));
    }
    let mut i: usize = 0;
    while i < sorted.len()
        invariant
            i <= sorted.len(),
            sv == entry_views(sorted@),
            sv == orig.sort_by(entry_order()),
            page@ == listing_head(path@) + anchors(sv.take(i as int)),
        decreases sorted.len() - i,
    {
        push_anchor(&mut page, &sorted[i]);
        proof {
            assert(sv.take(i as int + 1).drop_last() =~= sv.take(i as int));
            assert(sv.take(i as int + 1).last() == sv[i as int]);
            assert(sv[i as int] == sorted@[i as int]@);
            assert(page@ =~= listing_head(path@) + anchors(sv.take(i as int + 1)));
        }
        i = i + 1;
    }
    push_str_bytes(&mut page, "</ul></body></html>");
    proof {
        assert(sv.take(sorted.len() as int) =~= sv);
        assert(page@ =~= listing_page(path@, sv));
    }
    page
}

/// Rendering is a function of the path and the entries alone: resolving
/// the same unmodified directory twice yields byte-identical pages.
pub proof fn lemma_listing_deterministic(
    path: Seq<char>,
    entries: Seq<(Seq<u8>, bool)>,
    r1: Seq<u8>,
    r2: Seq<u8>,
)
    requires
        r1 == listing_page(path, entries.sort_by(entry_order())),
        r2 == listing_page(path, entries.sort_by(entry_order())),
    ensures
        r1 == r2,
{
}

/// The order of the rendered entries: sorting keeps exactly the given
/// entries, places every directory before every non-directory, and keeps
/// each of the two groups lexicographically sorted by name.
pub proof fn lemma_listing_order(entries: Seq<(Seq<u8>, bool)>)
    ensures
        entries.sort_by(entry_order()).to_multiset() == entries.to_multiset(),
        entries.sort_by(entry_order()).len() == entries.len(),
        forall|i: int, j: int|
            0 <= i < j < entries.sort_by(entry_order()).len() && (#[trigger] entries.sort_by(
                entry_order(),
            )[j]).1 ==> (#[trigger] entries.sort_by(entry_order())[i]).1,
        forall|i: int, j: int|
            0 <= i < j < entries.sort_by(entry_order()).len() && (#[trigger] entries.sort_by(
                entry_order(),
            )[i]).1 == (#[trigger] entries.sort_by(entry_order())[j]).1 ==> lex_le(
                entries.sort_by(entry_order())[i].0,
                entries.sort_by(entry_order())[j].0,
            ),
{
    broadcast use vstd::seq_lib::group_to_multiset_ensures;

    lemma_entry_order_total();
    entries.lemma_sort_by_ensures(entry_order());
    let s = entries.sort_by(entry_order());
    assert(s.to_multiset() =~= entries.to_multiset());
    assert(s.len() == s.to_multiset().len());
    assert(entries.len() == entries.to_multiset().len());
    let leq = entry_order();
    assert forall|i: int, j: int| 0 <= i < j < s.len() && (#[trigger] s[j]).1 implies (
    #[trigger] s[i]).1 by {
        assert(leq(s[i], s[j]));
    }
    assert forall|i: int, j: int|
        0 <= i < j < s.len() && (#[trigger] s[i]).1 == (#[trigger] s[j]).1 implies lex_le(
        s[i].0,
        s[j].0,
    ) by {
        assert(leq(s[i], s[j]));
    }
}

/// The anchors of a listing hold one anchor per entry: each entry's
/// anchor stands somewhere in them.
pub proof fn lemma_anchor_present(entries: Seq<(Seq<u8>, bool)>, k: int)
    requires
        0 <= k < entries.len(),
    ensures
        exists|i: int|
            0 <= i && i + entry_anchor(entries[k]).len() <= anchors(entries).len()
                && #[trigger] anchors(entries).subrange(
                i,
                i + entry_anchor(entries[k]).len() as int,
            ) == entry_anchor(entries[k]),
    decreases entries.len(),
{
    let a = entry_anchor(entries[k]);
    if k == entries.len() - 1 {
        let i = anchors(entries.drop_last()).len() as int;
        assert(anchors(entries).subrange(i, i + a.len() as int) =~= a);
    } else {
        let front = entries.drop_last();
        assert(front[k] == entries[k]);
        lemma_anchor_present(front, k);
        let i = choose|i: int|
            0 <= i && i + entry_anchor(front[k]).len() <= anchors(front).len()
                && #[trigger] anchors(front).subrange(
                i,
                i + entry_anchor(front[k]).len() as int,
            ) == entry_anchor(front[k]);
        assert(anchors(entries).subrange(i, i + a.len() as int) =~= anchors(front).subrange(
            i,
            i + a.len() as int,
        ));
    }
}

/// The rendered page holds one anchor per listed entry: each entry's
/// anchor stands somewhere in the page.
pub proof fn lemma_page_anchor(path: Seq<char>, entries: Seq<(Seq<u8>, bool)>, k: int)
    requires
        0 <= k < entries.len(),
    ensures
        exists|i: int|
            0 <= i && i + entry_anchor(entries[k]).len() <= listing_page(path, entries).len()
                && #[trigger] listing_page(path, entries).subrange(
                i,
                i + entry_anchor(entries[k]).len() as int,
            ) == entry_anchor(entries[k]),
{
    let a = entry_anchor(entries[k]);
    lemma_anchor_present(entries, k);
    let i = choose|i: int|
        0 <= i && i + a.len() <= anchors(entries).len() && #[trigger] anchors(entries).subrange(
            i,
            i + a.len() as int,
        ) == a;
    let j = listing_head(path).len() as int + i;
    assert(listing_page(path, entries).subrange(j, j + a.len() as int) =~= anchors(
        entries,
    ).subrange(i, i + a.len() as int));
}

/// A directory's label, and so both its link target and its text, ends in
/// the slash byte; a non-directory's is its bare name.
pub proof fn lemma_label_slash(e: (Seq<u8>, bool))
    ensures
        e.1 ==> entry_label(e).len() == e.0.len() + 1 && entry_label(e).last() == 47u8,
        !e.1 ==> entry_label(e) == e.0,
{
    if e.1 {
        reveal_strlit("/");
        assert(is_ascii_chars("/"@));
        is_ascii_chars_encode_utf8("/"@);
        assert(encode_utf8("/"@).len() == 1);
        assert(encode_utf8("/"@)[0] == '/' as u8);
        assert(entry_label(e).last() == 47u8);
    }
}

} // verus!
