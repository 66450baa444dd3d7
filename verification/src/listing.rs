use crate::order::{lemma_lex_le_antisym, lemma_lex_le_total, lemma_lex_le_trans, lex_le, str_le};
use vstd::prelude::*;
use vstd::relations::{sorted_by, total_ordering};
use vstd::seq_lib::lemma_sorted_unique;
use vstd::string::{StrSliceExecFns, StringExecFns};

verus! {

/// One immediate child of a directory, as the listing shows it: its name
/// and whether it is itself a directory.
pub struct Entry {
    pub name: String,
    pub is_dir: bool,
}

/// The ghost image of an `Entry`: the name's characters and the kind.
pub ghost struct EntryView {
    pub name: Seq<char>,
    pub is_dir: bool,
}

impl View for Entry {
    type V = EntryView;

    open spec fn view(&self) -> EntryView {
        EntryView { name: self.name@, is_dir: self.is_dir }
    }
}

/// Listing order: directories before files, then ascending by name.
pub open spec fn entry_le(a: EntryView, b: EntryView) -> bool {
    if a.is_dir != b.is_dir {
        a.is_dir
    } else {
        lex_le(a.name, b.name)
    }
}

/// The listing order as a relation value, for `sorted_by` and `sort_by`.
pub open spec fn entry_leq() -> spec_fn(EntryView, EntryView) -> bool {
    |a: EntryView, b: EntryView| entry_le(a, b)
}

/// The images of a sequence of entries.
pub open spec fn views_of(s: Seq<Entry>) -> Seq<EntryView> {
    s.map_values(|e: Entry| e@)
}

/// The listing order is a total order, so sorting under it has a unique
/// result.
pub proof fn lemma_entry_leq_total_ordering()
    ensures
        total_ordering(entry_leq()),
{
    let r = entry_leq();
    assert forall|x: EntryView| #[trigger] r(x, x) by {
        lemma_lex_le_total(x.name, x.name);
    }
    assert forall|x: EntryView, y: EntryView| #[trigger] r(x, y) && #[trigger] r(y, x) implies x
        == y by {
        lemma_lex_le_antisym(x.name, y.name);
    }
    assert forall|x: EntryView, y: EntryView, z: EntryView|
        #[trigger] r(x, y) && #[trigger] r(y, z) implies r(x, z) by {
        if x.is_dir == y.is_dir && y.is_dir == z.is_dir {
            lemma_lex_le_trans(x.name, y.name, z.name);
        }
    }
    assert forall|x: EntryView, y: EntryView| #[trigger] r(x, y) || #[trigger] r(y, x) by {
        lemma_lex_le_total(x.name, y.name);
    }
}

/// What listing order means, spelled out: in a sorted listing no file
/// ever precedes a directory, and within each group names ascend.
pub proof fn lemma_listing_order(rows: Seq<EntryView>, i: int, j: int)
    requires
        sorted_by(rows, entry_leq()),
        0 <= i < j < rows.len(),
    ensures
        rows[j].is_dir ==> rows[i].is_dir,
        rows[i].is_dir == rows[j].is_dir ==> lex_le(rows[i].name, rows[j].name),
{
    assert(entry_leq()(rows[i], rows[j]));
}

/// Decides the listing order on entries.
fn entry_le_exec(a: &Entry, b: &Entry) -> (r: bool)
    ensures
        r == entry_le(a@, b@),
{
    if a.is_dir != b.is_dir {
        a.is_dir
    } else {
        str_le(a.name.as_str(), b.name.as_str())
    }
}

/// Sorts entries into the listing order. The result is exactly the
/// (unique) sorted permutation of the input.
pub fn sort_entries(entries: Vec<Entry>) -> (r: Vec<Entry>)
    ensures
        views_of(r@) == views_of(entries@).sort_by(entry_leq()),
        sorted_by(views_of(r@), entry_leq()),
{
    proof {
        lemma_entry_leq_total_ordering();
        broadcast use vstd::seq_lib::group_to_multiset_ensures;
        broadcast use vstd::multiset::group_multiset_axioms;

    }
    let ghost total = views_of(entries@).to_multiset();
    let mut src = entries;
    let mut out: Vec<Entry> = Vec::new();
    loop
        invariant
            sorted_by(views_of(out@), entry_leq()),
            views_of(out@).to_multiset().add(views_of(src@).to_multiset()) =~= total,
            total == views_of(entries@).to_multiset(),
        ensures
            src@.len() == 0,
            sorted_by(views_of(out@), entry_leq()),
            views_of(out@).to_multiset().add(views_of(src@).to_multiset()) =~= total,
        decreases src.len(),
    {
        if src.len() == 0 {
            break ;
        }
        let ghost src_pre = src@;
        let e = src.remove(0);
        proof {
            broadcast use vstd::seq_lib::group_to_multiset_ensures;
            broadcast use vstd::multiset::group_multiset_axioms;

            assert(views_of(src@) =~= views_of(src_pre).remove(0));
            assert(views_of(src_pre)[0] == e@);
            assert(views_of(src_pre).to_multiset().count(e@) > 0) by {
                assert(views_of(src_pre).contains(e@));
            }
        }
        let ghost out_pre_ms = views_of(out@).to_multiset();
        let ghost src_ms = views_of(src@).to_multiset();
        insert_sorted(&mut out, e);
        proof {
            broadcast use vstd::seq_lib::group_to_multiset_ensures;
            broadcast use vstd::multiset::group_multiset_axioms;

            assert(views_of(out@).to_multiset().add(views_of(src@).to_multiset()) =~= total);
        }
    }
    proof {
        broadcast use vstd::seq_lib::group_to_multiset_ensures;
        broadcast use vstd::multiset::group_multiset_axioms;

        assert(views_of(src@).len() == 0);
        assert(views_of(src@).to_multiset().len() == 0);
        assert(views_of(out@).to_multiset() =~= total);
        views_of(entries@).lemma_sort_by_ensures(entry_leq());
        lemma_sorted_unique(views_of(out@), views_of(entries@).sort_by(entry_leq()), entry_leq());
        assert(views_of(out@) =~= views_of(entries@).sort_by(entry_leq()));
    }
    out
}

/// Places `e` at its position in an already sorted vector.
fn insert_sorted(out: &mut Vec<Entry>, e: Entry)
    requires
        sorted_by(views_of(old(out)@), entry_leq()),
    ensures
        sorted_by(views_of(final(out)@), entry_leq()),
        views_of(final(out)@).to_multiset() =~= views_of(old(out)@).to_multiset().insert(e@),
{
    proof {
        lemma_entry_leq_total_ordering();
    }
    let out_len = out.len();
    let mut k: usize = 0;
    loop
        invariant
            k <= out_len,
            out_len == out@.len(),
            out@ == old(out)@,
            sorted_by(views_of(out@), entry_leq()),
            forall|j: int| 0 <= j < k ==> #[trigger] entry_leq()(views_of(out@)[j], e@),
        ensures
            k <= out@.len(),
            forall|j: int| 0 <= j < k ==> #[trigger] entry_leq()(views_of(out@)[j], e@),
            k == out@.len() || !entry_leq()(views_of(out@)[k as int], e@),
        decreases out_len - k,
    {
        if k == out_len {
            break ;
        }
        if !entry_le_exec(&out[k], &e) {
            break ;
        }
        k = k + 1;
    }
    let ghost v = views_of(out@);
    out.insert(k, e);
    proof {
        broadcast use vstd::seq_lib::group_to_multiset_ensures;
        broadcast use vstd::multiset::group_multiset_axioms;

        let v2 = views_of(out@);
        assert(v2 =~= v.insert(k as int, e@));
        // multiset: removing the inserted element gives the old contents back
        assert(v2.remove(k as int) =~= v);
        assert(v2.to_multiset().remove(v2[k as int]) =~= v.to_multiset());
        assert(v2[k as int] == e@);
        assert(v2.to_multiset().count(e@) > 0) by {
            assert(v2.contains(e@));
        }
        assert(v2.to_multiset() =~= v.to_multiset().insert(e@));
        // sortedness: the prefix admits `e`, and `e` admits the suffix
        assert forall|i: int, j: int| 0 <= i < j < v2.len() implies #[trigger] entry_leq()(
            v2[i],
            v2[j],
        ) by {
            if j == k {
                assert(entry_leq()(v[i], e@));
            } else if i == k {
                // e goes before the first element it does not follow
                assert(k < v.len());
                assert(!entry_leq()(v[k as int], e@));
                assert(entry_leq()(e@, v[k as int]));
                if j - 1 > k {
                    assert(entry_leq()(v[k as int], v[j - 1]));
                }
                assert(entry_leq()(e@, v2[j]));
            } else if i < k && j > k {
                assert(entry_leq()(v[i], v[j - 1]));
            } else if i > k {
                assert(entry_leq()(v[i - 1], v[j - 1]));
            } else {
                assert(entry_leq()(v[i], v[j]));
            }
        }
    }
}

/// Opening half of the listing page; the generated list items are placed
/// between the two halves.
pub const LISTING_HEAD: &'static str = "<html><head><title>Directory listing</title></head><body><h1>Directory listing</h1><ul>";

/// Closing half of the listing page.
pub const LISTING_TAIL: &'static str = "</ul></body></html>";

/// `base` with a single trailing separator removed, if one is there.
pub open spec fn strip_trailing_slash(p: Seq<char>) -> Seq<char> {
    if p.len() > 0 && p[p.len() - 1] == '/' {
        p.drop_last()
    } else {
        p
    }
}

/// The markup of one listing row: an anchor whose target is
/// `{base}/{name}` and whose text is the name.
pub open spec fn item_html(base: Seq<char>, name: Seq<char>) -> Seq<char> {
    "<li><a href=\""@ + base + "/"@ + name + "\">"@ + name + "</a></li>"@
}

/// The concatenated rows for `entries`, in the order given.
pub open spec fn items_html(base: Seq<char>, entries: Seq<EntryView>) -> Seq<char>
    decreases entries.len(),
{
    if entries.len() == 0 {
        Seq::empty()
    } else {
        items_html(base, entries.drop_last()) + item_html(base, entries.last().name)
    }
}

/// The whole page for a directory at `dir_path` with children `entries`
/// (already in listing order): the rows substituted between the two fixed
/// template halves, the link base being the path without its trailing
/// separator.
pub open spec fn listing_html(dir_path: Seq<char>, entries: Seq<EntryView>) -> Seq<char> {
    LISTING_HEAD@ + items_html(strip_trailing_slash(dir_path), entries) + LISTING_TAIL@
}

/// Each listed entry contributes exactly its own row: the page's rows
/// split around the row of any chosen entry, whose link target is exactly
/// `{base}/{name}`.
pub proof fn lemma_items_html_decompose(base: Seq<char>, entries: Seq<EntryView>, i: int)
    requires
        0 <= i < entries.len(),
    ensures
        items_html(base, entries) =~= items_html(base, entries.take(i)) + item_html(
            base,
            entries[i].name,
        ) + items_html(base, entries.skip(i + 1)),
    decreases entries.len(),
{
    if i == entries.len() - 1 {
        assert(entries.take(i) =~= entries.drop_last());
        assert(items_html(base, entries.skip(i + 1)) =~= Seq::empty());
    } else {
        lemma_items_html_decompose(base, entries.drop_last(), i);
        assert(entries.drop_last().take(i) =~= entries.take(i));
        assert(entries.drop_last()[i] == entries[i]);
        assert(entries.drop_last().skip(i + 1).push(entries.last())
            =~= entries.skip(i + 1));
        lemma_items_html_snoc(base, entries.drop_last().skip(i + 1), entries.last());
    }
}

/// Appending one entry appends one row.
proof fn lemma_items_html_snoc(base: Seq<char>, entries: Seq<EntryView>, e: EntryView)
    ensures
        items_html(base, entries.push(e)) =~= items_html(base, entries) + item_html(base, e.name),
{
    assert(entries.push(e).drop_last() =~= entries);
    assert(entries.push(e).last() == e);
}

/// `p` without its trailing separator, if it carries one.
fn strip_slash_exec(p: &str) -> (r: &str)
    ensures
        r@ == strip_trailing_slash(p@),
{
    let n = p.unicode_len();
    if n > 0 && p.get_char(n - 1) == '/' {
        let r = p.substring_char(0, n - 1);
        proof {
            assert(p@.subrange(0, n - 1) =~= p@.drop_last());
        }
        r
    } else {
        p
    }
}

/// Renders the listing page for the directory at `dir_path` whose
/// immediate children are `entries`: one row per child, directories
/// first, each group ascending by name.
pub fn render_listing(dir_path: &str, entries: Vec<Entry>) -> (r: String)
    ensures
        r@ == listing_html(dir_path@, views_of(entries@).sort_by(entry_leq())),
{
    let sorted = sort_entries(entries);
    let base = strip_slash_exec(dir_path);
    let ghost rows = views_of(sorted@);
    let mut page = String::new();
    page.append(LISTING_HEAD);
    let mut i: usize = 0;
    while i < sorted.len()
        invariant
            i <= sorted@.len(),
            rows == views_of(sorted@),
            base@ == strip_trailing_slash(dir_path@),
            page@ =~= LISTING_HEAD@ + items_html(base@, rows.take(i as int)),
        decreases sorted@.len() - i,
    {
        let ghost page_pre = page@;
        page.append("<li><a href=\"");
        page.append(base);
        page.append("/");
        page.append(sorted[i].name.as_str());
        page.append("\">");
        page.append(sorted[i].name.as_str());
        page.append("</a></li>");
        proof {
            assert(page@ =~= page_pre + item_html(base@, rows[i as int].name));
            assert(rows.take(i + 1).drop_last() =~= rows.take(i as int));
            assert(rows.take(i + 1).last() == rows[i as int]);
            assert(page@ =~= LISTING_HEAD@ + items_html(base@, rows.take(i + 1)));
        }
        i = i + 1;
    }
    proof {
        assert(rows.take(rows.len() as int) =~= rows);
    }
    page.append(LISTING_TAIL);
    page
}

} // verus!
