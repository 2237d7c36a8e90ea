//! Page navigation inside an archive: which entries are pages, their
//! order, the page that a request names, and the links around it.
use vstd::prelude::*;
use crate::catalog::{File, exposable_count, strings_view};
use crate::order::{SortKey, key_before, keys_view, sort_indices};
use crate::text::{chars_cmp, chars_of, lemma_texts_cmp_single, ends_with, has_prefix, has_suffix, same_text, starts_with};

verus! {

pub open spec fn page_suffix() -> Seq<char> {
    seq!['.', 'j', 'p', 'g']
}

/// Whether an archive entry with this name is a page.
pub open spec fn is_exposable(name: Seq<char>) -> bool {
    ends_with(name, page_suffix())
}

/// Whether an archive entry with this name is a page: it ends in `.jpg`.
pub fn should_expose(filename: &str) -> (r: bool)
    ensures
        r == is_exposable(filename@),
{
    proof {
        reveal_strlit(".jpg");
        assert(".jpg"@ =~= page_suffix());
    }
    has_suffix(filename, ".jpg")
}

/// A path segment percent-encoded: every character but ASCII letters and
/// digits as the `%XX` escapes of its UTF-8 bytes.
pub uninterp spec fn path_segment_encoded(s: Seq<char>) -> Seq<char>;

/// Relies on `percent_encoding::utf8_percent_encode` with the
/// `NON_ALPHANUMERIC` set: the encoding of the string's bytes, a function
/// of them alone.
#[verifier::external_body]
pub(crate) fn encode_path_segment(s: &str) -> (r: String)
    ensures
        r@ == path_segment_encoded(s@),
{
    percent_encoding::utf8_percent_encode(s, percent_encoding::NON_ALPHANUMERIC).to_string()
}

/// The route of the reader view, `/view/`.
pub open spec fn view_prefix() -> Seq<char> {
    seq!['/', 'v', 'i', 'e', 'w', '/']
}


/// `order` lists the positions of the names that are pages, once each,
/// ordered by name, and equal names by position.
pub open spec fn is_page_order(names: Seq<Seq<char>>, order: Seq<usize>) -> bool {
    &&& order.no_duplicates()
    &&& forall|k: int| 0 <= k < order.len() ==> (#[trigger] order[k] as int) < names.len() && is_exposable(names[order[k] as int])
    &&& forall|j: int| 0 <= j < names.len() && is_exposable(#[trigger] names[j]) ==> order.contains(j as usize)
    &&& forall|k: int| 0 <= k < order.len() - 1 ==> {
        let c = chars_cmp(names[#[trigger] order[k] as int], names[order[k + 1] as int]);
        c < 0 || (c == 0 && order[k] < order[k + 1])
    }
}

/// The positions of the names that are pages, ordered by name (see
/// `is_page_order`).
pub fn page_order(names: &Vec<String>) -> (r: Vec<usize>)
    ensures
        is_page_order(strings_view(names@), r@),
        r@.len() == exposable_count(strings_view(names@)),
{
    let ghost nv = strings_view(names@);
    let mut idx: Vec<usize> = Vec::new();
    let mut keys: Vec<SortKey> = Vec::new();
    let mut i: usize = 0;
    while i < names.len()
        invariant
            nv == strings_view(names@),
            i <= names@.len(),
            keys@.len() == i,
            idx@.len() == exposable_count(nv.take(i as int)),
            forall|k: int| 0 <= k < i ==> (#[trigger] keys@[k])@ == (0int, seq![nv[k]]),
            forall|k: int| 0 <= k < idx@.len() ==> (#[trigger] idx@[k]) < i && is_exposable(nv[idx@[k] as int]),
            forall|a: int, b: int| 0 <= a < b < idx@.len() ==> idx@[a] < idx@[b],
            forall|j: int| 0 <= j < i && is_exposable(#[trigger] nv[j]) ==> idx@.contains(j as usize),
        decreases names.len() - i,
    {
        let key = SortKey { num: 0, text: vec![chars_of(names[i].as_str())] };
        assert(key@ =~~= (0int, seq![nv[i as int]]));
        keys.push(key);
        assert(nv.take(i + 1).drop_last() =~= nv.take(i as int));
        if should_expose(names[i].as_str()) {
            let ghost old_idx = idx@;
            idx.push(i);
            assert forall|j: int| 0 <= j < i + 1 && is_exposable(#[trigger] nv[j]) implies idx@.contains(j as usize) by {
                if j < i {
                    let k = choose|k: int| 0 <= k < old_idx.len() && old_idx[k] == j as usize;
                    assert(idx@[k] == j as usize);
                } else {
                    assert(idx@[old_idx.len() as int] == i);
                }
            }
        }
        i = i + 1;
    }
    assert(nv.take(i as int) =~= nv);
    let order = sort_indices(&keys, &idx);
    let ghost kv = keys_view(keys@);
    proof {
        let o = order@;
        assert forall|q: int| 0 <= q < o.len() implies (#[trigger] o[q] as int) < nv.len() && is_exposable(nv[o[q] as int]) by {
            let j = choose|j: int| 0 <= j < idx@.len() && idx@[j] == o[q];
        }
        assert forall|j: int| 0 <= j < nv.len() && is_exposable(#[trigger] nv[j]) implies o.contains(j as usize) by {
            let m = choose|m: int| 0 <= m < idx@.len() && idx@[m] == j as usize;
            assert(o.contains(idx@[m]));
        }
        assert forall|q: int| 0 <= q < o.len() - 1 implies {
            let c = chars_cmp(nv[#[trigger] o[q] as int], nv[o[q + 1] as int]);
            c < 0 || (c == 0 && o[q] < o[q + 1])
        } by {
            let a = o[q] as int;
            let b = o[q + 1] as int;
            assert(key_before(kv, a, b));
            let ja = choose|j: int| 0 <= j < idx@.len() && idx@[j] == o[q];
            let jb = choose|j: int| 0 <= j < idx@.len() && idx@[j] == o[q + 1];
            assert(kv[a] == keys@[a]@);
            assert(kv[b] == keys@[b]@);
            assert(kv[a] == (0int, seq![nv[a]]));
            assert(kv[b] == (0int, seq![nv[b]]));
            lemma_texts_cmp_single(nv[a], nv[b]);
        }
    }
    order
}

/// The pages of an archive: the names of its entries that are pages,
/// ordered by name (see `is_page_order`).
pub fn select_pages(names: &Vec<String>) -> (r: Vec<String>)
    ensures
        exists|order: Seq<usize>|
            is_page_order(strings_view(names@), order) && r@.len() == order.len()
                && forall|k: int| 0 <= k < r@.len() ==> (#[trigger] r@[k])@ == names@[order[k] as int]@,
        r@.len() == exposable_count(strings_view(names@)),
{
    let order = page_order(names);
    let ghost nv = strings_view(names@);
    let mut r: Vec<String> = Vec::new();
    let mut k: usize = 0;
    while k < order.len()
        invariant
            nv == strings_view(names@),
            is_page_order(nv, order@),
            k <= order@.len(),
            r@.len() == k,
            forall|q: int| 0 <= q < k ==> (#[trigger] r@[q])@ == names@[order@[q] as int]@,
        decreases order.len() - k,
    {
        let j = order[k];
        assert((j as int) < nv.len());
        r.push(names[j].clone());
        k = k + 1;
    }
    r
}

/// The entry that a request path is for: the first whose relative path is
/// a prefix of it.
pub fn find_file(files: &Vec<File>, path: &str) -> (r: Option<usize>)
    ensures
        match r {
            Some(i) => i < files@.len() && starts_with(path@, files@[i as int].relative_path@)
                && forall|j: int| 0 <= j < i ==> !starts_with(path@, #[trigger] files@[j].relative_path@),
            None => forall|j: int| 0 <= j < files@.len() ==> !starts_with(path@, #[trigger] files@[j].relative_path@),
        },
{
    let mut i: usize = 0;
    while i < files.len()
        invariant
            i <= files@.len(),
            forall|j: int| 0 <= j < i ==> !starts_with(path@, #[trigger] files@[j].relative_path@),
        decreases files.len() - i,
    {
        if has_prefix(path, files[i].relative_path.as_str()) {
            return Some(i);
        }
        i = i + 1;
    }
    None
}

/// What a request inside an archive's view comes to.
#[derive(Clone, Debug, PartialEq, Eq)]
pub enum PageResolution {
    NotFound,
    ShowPage(usize),
    ServeRawImage(String),
}

/// The position of the first page with this name.
pub open spec fn first_index(pages: Seq<Seq<char>>, name: Seq<char>) -> Option<int>
    decreases pages.len(),
{
    if pages.len() == 0 {
        None
    } else if pages[0] == name {
        Some(0)
    } else {
        match first_index(pages.drop_first(), name) {
            Some(i) => Some(i + 1),
            None => None,
        }
    }
}

/// The page that a request path names inside an archive, and whether it
/// names one explicitly: none where the archive has no page or what
/// follows the archive's path is not `/` and the name of one of its pages;
/// the first page where nothing follows.
pub open spec fn requested_page(rel: Seq<char>, path: Seq<char>, pages: Seq<Seq<char>>) -> Option<(int, bool)> {
    let sub = path.skip(rel.len() as int);
    if pages.len() == 0 {
        None
    } else if sub.len() == 0 {
        Some((0, false))
    } else if !(sub[0] == '/' && is_exposable(sub)) {
        None
    } else {
        match first_index(pages, sub.drop_first()) {
            Some(i) => Some((i, true)),
            None => None,
        }
    }
}

proof fn lemma_first_index_found(pages: Seq<Seq<char>>, name: Seq<char>)
    ensures
        first_index(pages, name) matches Some(i) ==> 0 <= i < pages.len() && pages[i] == name,
    decreases pages.len(),
{
    if pages.len() > 0 && pages[0] != name {
        lemma_first_index_found(pages.drop_first(), name);
    }
}

/// A request path that goes on after the archive's path with anything but
/// `/` and the name of one of its pages resolves to no page: in
/// particular one that does not end in `.jpg`, and one that names a page
/// the archive does not have.
pub proof fn lemma_unknown_page_not_found(rel: Seq<char>, path: Seq<char>, pages: Seq<Seq<char>>)
    requires
        path.len() > rel.len(),
        !is_exposable(path.skip(rel.len() as int)) || !pages.contains(path.skip(rel.len() as int).drop_first()),
    ensures
        requested_page(rel, path, pages) is None,
{
    let sub = path.skip(rel.len() as int);
    lemma_first_index_found(pages, sub.drop_first());
    if let Some(i) = first_index(pages, sub.drop_first()) {
        assert(pages.contains(sub.drop_first()));
    }
}

/// The page that a request path names inside an archive whose pages are
/// `pages` (see `requested_page`); a page named explicitly is served as
/// an image where `raw` is set.
pub fn resolve_page(relative_path: &str, path: &str, pages: &Vec<String>, raw: bool) -> (r: PageResolution)
    requires
        starts_with(path@, relative_path@),
    ensures
        match requested_page(relative_path@, path@, strings_view(pages@)) {
            None => r is NotFound,
            Some((i, named)) => if raw && named {
                r matches PageResolution::ServeRawImage(name) && name@ == pages@[i]@
            } else {
                r matches PageResolution::ShowPage(j) && j == i
            },
        },
{
    let ghost pv = strings_view(pages@);
    if pages.len() == 0 {
        return PageResolution::NotFound;
    }
    let n = path.unicode_len();
    let m = relative_path.unicode_len();
    let sub = path.substring_char(m, n);
    assert(sub@ =~= path@.skip(m as int));
    if sub.unicode_len() == 0 {
        return PageResolution::ShowPage(0);
    }
    if !(sub.get_char(0) == '/' && should_expose(sub)) {
        return PageResolution::NotFound;
    }
    let name = sub.substring_char(1, sub.unicode_len());
    assert(name@ =~= sub@.drop_first());
    let mut i: usize = 0;
    assert(pv.skip(0) =~= pv);
    while i < pages.len()
        invariant
            pv == strings_view(pages@),
            i <= pages@.len(),
            pages@.len() > 0,
            m == relative_path@.len(),
            path@.skip(m as int).len() > 0,
            path@.skip(m as int)[0] == '/',
            is_exposable(path@.skip(m as int)),
            name@ == path@.skip(m as int).drop_first(),
            first_index(pv, name@) == match first_index(pv.skip(i as int), name@) {
                Some(k) => Some(k + i),
                None => None,
            },
        decreases pages.len() - i,
    {
        assert(pv.skip(i as int)[0] == pages@[i as int]@);
        assert(pv.skip(i as int).len() > 0);
        if same_text(pages[i].as_str(), name) {
            assert(first_index(pv.skip(i as int), name@) == Some(0int));
            assert(first_index(pv, name@) == Some(i as int));
            if raw {
                return PageResolution::ServeRawImage(pages[i].clone());
            }
            return PageResolution::ShowPage(i);
        }
        assert(pv.skip(i as int).drop_first() =~= pv.skip(i + 1));
        i = i + 1;
    }
    PageResolution::NotFound
}

/// The links of a reader page.
#[derive(Clone, Debug, PartialEq, Eq)]
pub struct PageLinks {
    pub image_url: String,
    pub previous_url: Option<String>,
    pub next_url: Option<String>,
}

/// The URL of one page of an archive: the view route, then the archive's
/// path and the page's name, each percent-encoded.
pub open spec fn page_url(rel: Seq<char>, name: Seq<char>) -> Seq<char> {
    view_prefix() + path_segment_encoded(rel) + seq!['/'] + path_segment_encoded(name)
}

fn make_page_url(relative_path: &str, name: &str) -> (r: String)
    ensures
        r@ == page_url(relative_path@, name@),
{
    proof {
        reveal_strlit("/view/");
        reveal_strlit("/");
        assert("/view/"@ =~= view_prefix());
        assert("/"@ =~= seq!['/']);
    }
    let mut r = String::from_str("/view/");
    r.append(encode_path_segment(relative_path).as_str());
    r.append("/");
    r.append(encode_path_segment(name).as_str());
    r
}

/// The links around page `index`: the raw image of the page, and the
/// previous and next page where there is one.
pub fn page_links(relative_path: &str, pages: &Vec<String>, index: usize) -> (r: PageLinks)
    requires
        index < pages@.len(),
    ensures
        r.image_url@ == page_url(relative_path@, pages@[index as int]@) + seq!['?', 'r', 'a', 'w'],
        r.previous_url is Some <==> index > 0,
        r.previous_url matches Some(u) ==> u@ == page_url(relative_path@, pages@[index - 1]@),
        r.next_url is Some <==> index + 1 < pages@.len(),
        r.next_url matches Some(u) ==> u@ == page_url(relative_path@, pages@[index + 1]@),
{
    proof {
        reveal_strlit("?raw");
        assert("?raw"@ =~= seq!['?', 'r', 'a', 'w']);
    }
    let image_url = make_page_url(relative_path, pages[index].as_str()).concat("?raw");
    let previous_url = if index > 0 {
        Some(make_page_url(relative_path, pages[index - 1].as_str()))
    } else {
        None
    };
    let next_url = if index < pages.len() - 1 {
        Some(make_page_url(relative_path, pages[index + 1].as_str()))
    } else {
        None
    };
    PageLinks { image_url, previous_url, next_url }
}

} // verus!
