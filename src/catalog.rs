//! Catalog entries, their metadata, the facets of the catalog, and the
//! filtered and sorted listing.
use vstd::prelude::*;
use crate::order::{SortKey, key_before, keys_view, sort_indices, texts_view};
use crate::query::{Direction, FileField, FileSort, IndexQuery, QueryView};
use crate::text::{ascii_lower_seq, chars_cmp, chars_of, compare_chars, lemma_chars_cmp_antisym, lower_chars_of, same_text};
use crate::navigate::{encode_path_segment, path_segment_encoded, should_expose, is_exposable, view_prefix};

verus! {

pub open spec fn is_digit(c: char) -> bool {
    '0' <= c && c <= '9'
}

/// The length of the leading run of ASCII digits.
pub open spec fn digit_run(s: Seq<char>) -> nat
    decreases s.len(),
{
    if s.len() > 0 && is_digit(s[0]) {
        1 + digit_run(s.drop_first())
    } else {
        0
    }
}

/// The decimal value of a sequence of ASCII digits.
pub open spec fn digits_value(d: Seq<char>) -> nat
    decreases d.len(),
{
    if d.len() == 0 {
        0
    } else {
        digits_value(d.drop_last()) * 10 + ((d.last() as int) - ('0' as int)) as nat
    }
}

/// A number field split for ordering: the value of its leading digits and
/// the rest, or the largest `u32` and the whole field where it has no
/// leading digit or their value does not fit in a `u32`.
pub open spec fn split_number(s: Seq<char>) -> (u32, Seq<char>) {
    let k = digit_run(s);
    if k > 0 && digits_value(s.take(k as int)) <= u32::MAX {
        (digits_value(s.take(k as int)) as u32, s.skip(k as int))
    } else {
        (u32::MAX, s)
    }
}

proof fn lemma_digit_run(s: Seq<char>, i: int)
    requires
        0 <= i <= s.len(),
        forall|j: int| 0 <= j < i ==> is_digit(s[j]),
        i == s.len() || !is_digit(s[i]),
    ensures
        digit_run(s) == i,
    decreases i,
{
    if i > 0 {
        lemma_digit_run(s.drop_first(), i - 1);
    }
}

/// Splits a number field into the value of its leading digits and the rest
/// (see `split_number`).
pub fn split_name(name: &str) -> (r: (u32, &str))
    ensures
        r.0 == split_number(name@).0,
        r.1@ == split_number(name@).1,
{
    let n = name.unicode_len();
    let big: u64 = 0x1_0000_0000;
    let mut acc: u64 = 0;
    let mut i: usize = 0;
    while i < n && '0' <= name.get_char(i) && name.get_char(i) <= '9'
        invariant
            n == name@.len(),
            i <= n,
            forall|j: int| 0 <= j < i ==> is_digit(name@[j]),
            acc <= big,
            big == 0x1_0000_0000u64,
            acc as int == if digits_value(name@.take(i as int)) < big {
                digits_value(name@.take(i as int)) as int
            } else {
                big as int
            },
        decreases n - i,
    {
        let c = name.get_char(i);
        assert(is_digit(c));
        let d = (c as u32 - '0' as u32) as u64;
        assert(d <= 9);
        let ghost before = digits_value(name@.take(i as int));
        assert(name@.take(i + 1).drop_last() =~= name@.take(i as int));
        assert(digits_value(name@.take(i + 1)) == before * 10 + d);
        let next = acc * 10 + d;
        acc = if next < big { next } else { big };
        proof {
            if before >= big {
                assert(before * 10 + d >= big) by (nonlinear_arith)
                    requires before >= big, d >= 0;
            }
        }
        i = i + 1;
    }
    proof {
        lemma_digit_run(name@, i as int);
    }
    if i > 0 && acc < big {
        (acc as u32, name.substring_char(i, n))
    } else {
        (u32::MAX, name)
    }
}

/// The comma-separated parts of a field, without trimming; an empty field
/// is one empty part.
pub open spec fn split_commas(s: Seq<char>) -> Seq<Seq<char>>
    decreases s.len(),
{
    if s.len() == 0 {
        seq![Seq::empty()]
    } else {
        let parts = split_commas(s.drop_last());
        if s.last() == ',' {
            parts.push(Seq::empty())
        } else {
            parts.update(parts.len() - 1, parts.last().push(s.last()))
        }
    }
}

proof fn lemma_split_commas_len(s: Seq<char>)
    ensures
        split_commas(s).len() >= 1,
    decreases s.len(),
{
    if s.len() > 0 {
        lemma_split_commas_len(s.drop_last());
    }
}

pub open spec fn strings_view(v: Seq<String>) -> Seq<Seq<char>> {
    v.map_values(|s: String| s@)
}

/// Splits a comma-separated field into its parts (see `split_commas`).
pub fn split_genres(s: &str) -> (r: Vec<String>)
    ensures
        strings_view(r@) == split_commas(s@),
{
    let n = s.unicode_len();
    let mut parts: Vec<String> = Vec::new();
    let mut start: usize = 0;
    let mut i: usize = 0;
    assert(strings_view(parts@).push(s@.subrange(0, 0)) =~~= split_commas(s@.take(0)));
    while i < n
        invariant
            n == s@.len(),
            start <= i <= n,
            strings_view(parts@).push(s@.subrange(start as int, i as int)) == split_commas(s@.take(i as int)),
        decreases n - i,
    {
        let c = s.get_char(i);
        let ghost before = split_commas(s@.take(i as int));
        proof {
            lemma_split_commas_len(s@.take(i as int));
            assert(s@.take(i + 1).drop_last() =~= s@.take(i as int));
        }
        let ghost old_view = strings_view(parts@);
        if c == ',' {
            let piece = s.substring_char(start, i).to_owned();
            parts.push(piece);
            assert(strings_view(parts@) =~= old_view.push(s@.subrange(start as int, i as int)));
            start = i + 1;
            assert(s@.take(i + 1).last() == c);
            assert(strings_view(parts@).push(s@.subrange(start as int, i + 1)) =~~= before.push(Seq::empty()));
        } else {
            assert(s@.take(i + 1).last() == c);
            assert(s@.subrange(start as int, i + 1) =~= s@.subrange(start as int, i as int).push(c));
            assert(strings_view(parts@).push(s@.subrange(start as int, i + 1)) =~~= before.update(
                before.len() - 1,
                before.last().push(c),
            ));
        }
        i = i + 1;
    }
    let ghost old_view = strings_view(parts@);
    parts.push(s.substring_char(start, n).to_owned());
    assert(strings_view(parts@) =~= old_view.push(s@.subrange(start as int, n as int)));
    assert(s@.take(n as int) =~= s@);
    assert(strings_view(parts@) =~= split_commas(s@));
    parts
}


/// The metadata document of an archive.
#[derive(Clone, Debug, PartialEq, Eq)]
pub struct ComicInfo {
    pub title: String,
    pub series: String,
    pub number: String,
    pub year: String,
    pub publisher: String,
    pub genre: Vec<String>,
    pub web: String,
}

impl ComicInfo {
    /// A record from the document's fields; the genre field is split at
    /// its commas.
    pub fn new(
        title: String,
        series: String,
        number: String,
        year: String,
        publisher: String,
        genre: &str,
        web: String,
    ) -> (r: ComicInfo)
        ensures
            r.title@ == title@,
            r.series@ == series@,
            r.number@ == number@,
            r.year@ == year@,
            r.publisher@ == publisher@,
            strings_view(r.genre@) == split_commas(genre@),
            r.web@ == web@,
    {
        ComicInfo { title, series, number, year, publisher, genre: split_genres(genre), web }
    }
}

/// One archive of the catalog.
#[derive(Clone, Debug, PartialEq, Eq)]
pub struct File {
    pub title: String,
    pub relative_path: String,
    pub path: String,
    pub info: Option<ComicInfo>,
    pub pages: usize,
    pub size: u64,
}

/// How many of the names are exposable pages.
pub open spec fn exposable_count(names: Seq<Seq<char>>) -> nat
    decreases names.len(),
{
    if names.len() == 0 {
        0
    } else {
        exposable_count(names.drop_last()) + if is_exposable(names.last()) { 1nat } else { 0nat }
    }
}

/// The number of an entry: its metadata's, or empty.
pub open spec fn number_of(f: File) -> Seq<char> {
    match f.info {
        Some(i) => i.number@,
        None => Seq::empty(),
    }
}

/// The year of an entry: its metadata's, or empty.
pub open spec fn year_of(f: File) -> Seq<char> {
    match f.info {
        Some(i) => i.year@,
        None => Seq::empty(),
    }
}

/// The genres of an entry: its metadata's, or none.
pub open spec fn genres_of(f: File) -> Seq<Seq<char>> {
    match f.info {
        Some(i) => strings_view(i.genre@),
        None => Seq::empty(),
    }
}

impl File {
    /// The entry of an archive, from what was read of it: its path relative
    /// to the served directory, its full path, its file name without the
    /// extension, the names inside it, its metadata document if it has
    /// one, and its size on disk.
    pub fn from_archive(
        relative_path: String,
        path: String,
        file_stem: String,
        entry_names: &Vec<String>,
        info: Option<ComicInfo>,
        size: u64,
    ) -> (r: File)
        ensures
            r.relative_path@ == relative_path@,
            r.path@ == path@,
            r.info == info,
            r.size == size,
            r.pages == exposable_count(strings_view(entry_names@)),
            r.title@ == match info {
                Some(i) => i.title@,
                None => file_stem@,
            },
    {
        let mut pages: usize = 0;
        let mut i: usize = 0;
        while i < entry_names.len()
            invariant
                i <= entry_names@.len(),
                pages == exposable_count(strings_view(entry_names@.take(i as int))),
                pages <= i,
            decreases entry_names.len() - i,
        {
            assert(strings_view(entry_names@.take(i + 1)).drop_last() =~= strings_view(entry_names@.take(i as int)));
            if should_expose(entry_names[i].as_str()) {
                pages = pages + 1;
            }
            i = i + 1;
        }
        assert(entry_names@.take(i as int) =~= entry_names@);
        let title = match &info {
            Some(i) => i.title.clone(),
            None => file_stem,
        };
        File { title, relative_path, path, info, pages, size }
    }

    /// The number and the title, separated by a space.
    pub fn name(&self) -> (r: String)
        ensures
            r@ == number_of(*self) + seq![' '] + self.title@,
    {
        proof {
            reveal_strlit(" ");
            assert(" "@ =~= seq![' ']);
        }
        let mut r = String::from_str(self.number());
        r.append(" ");
        r.append(self.title.as_str());
        r
    }

    /// The number of the metadata, or empty.
    pub fn number(&self) -> (r: &str)
        ensures
            r@ == number_of(*self),
    {
        match &self.info {
            Some(i) => i.number.as_str(),
            None => {
                proof { reveal_strlit(""); }
                ""
            },
        }
    }

    /// The genres of the metadata, or none.
    pub fn genres(&self) -> (r: &[String])
        ensures
            strings_view(r@) == genres_of(*self),
    {
        match &self.info {
            Some(info) => info.genre.as_slice(),
            None => {
                let r: &[String] = &[];
                assert(strings_view(r@) =~= Seq::<Seq<char>>::empty());
                r
            },
        }
    }

    /// The year of the metadata, or empty.
    pub fn year(&self) -> (r: &str)
        ensures
            r@ == year_of(*self),
    {
        match &self.info {
            Some(i) => i.year.as_str(),
            None => {
                proof { reveal_strlit(""); }
                ""
            },
        }
    }

    /// The URL of the entry's reader view.
    pub fn view_url(&self) -> (r: String)
        ensures
            r@ == view_prefix() + path_segment_encoded(self.relative_path@),
    {
        proof {
            reveal_strlit("/view/");
            assert("/view/"@ =~= view_prefix());
        }
        let e = encode_path_segment(self.relative_path.as_str());
        String::from_str("/view/").concat(e.as_str())
    }
}


/// Whether an entry passes a query's filters: each present filter needs
/// metadata, with the genre among its genres and the same year.
pub open spec fn passes(f: File, q: QueryView) -> bool {
    &&& match q.genre {
        Some(g) => f.info is Some && strings_view(f.info->Some_0.genre@).contains(g),
        None => true,
    }
    &&& match q.year {
        Some(y) => f.info is Some && f.info->Some_0.year@ == y,
        None => true,
    }
}

/// The sort of a query, ascending by number where it has none.
pub open spec fn effective_sort(q: QueryView) -> FileSort {
    match q.sort {
        Some(s) => s,
        None => FileSort { direction: Direction::Ascending, field: FileField::Number },
    }
}

/// What entries are ordered by for each field: the split number field;
/// the title in ASCII lower case; the year; the genres; the page count;
/// the size.
pub open spec fn order_key(f: File, field: FileField) -> (int, Seq<Seq<char>>) {
    match field {
        FileField::Number => (split_number(number_of(f)).0 as int, seq![split_number(number_of(f)).1]),
        FileField::Name => (0, seq![ascii_lower_seq(f.title@)]),
        FileField::Year => (0, seq![year_of(f)]),
        FileField::Genre => (0, genres_of(f)),
        FileField::Pages => (f.pages as int, Seq::empty()),
        FileField::Size => (f.size as int, Seq::empty()),
    }
}

pub open spec fn file_keys(files: Seq<File>, field: FileField) -> Seq<(int, Seq<Seq<char>>)> {
    files.map_values(|f: File| order_key(f, field))
}

/// Whether entry `i` is listed right before entry `j` may be: a stable sort
/// by the field, turned around for descending order.
pub open spec fn listed_before(files: Seq<File>, s: FileSort, i: int, j: int) -> bool {
    match s.direction {
        Direction::Ascending => key_before(file_keys(files, s.field), i, j),
        Direction::Descending => key_before(file_keys(files, s.field), j, i),
    }
}

/// The sort key of an entry for a field (see `order_key`).
fn make_key(f: &File, field: FileField) -> (r: SortKey)
    ensures
        r@ == order_key(*f, field),
{
    match field {
        FileField::Number => {
            let (n, rest) = split_name(f.number());
            let r = SortKey { num: n as u64, text: vec![chars_of(rest)] };
            assert(r@ =~~= order_key(*f, field));
            r
        },
        FileField::Name => {
            let r = SortKey { num: 0, text: vec![lower_chars_of(f.title.as_str())] };
            assert(r@ =~~= order_key(*f, field));
            r
        },
        FileField::Year => {
            let r = SortKey { num: 0, text: vec![chars_of(f.year())] };
            assert(r@ =~~= order_key(*f, field));
            r
        },
        FileField::Genre => {
            let g = f.genres();
            let mut text: Vec<Vec<char>> = Vec::new();
            let mut i: usize = 0;
            while i < g.len()
                invariant
                    i <= g@.len(),
                    strings_view(g@) == genres_of(*f),
                    texts_view(text@) =~~= strings_view(g@).take(i as int),
                decreases g.len() - i,
            {
                let ghost before = texts_view(text@);
                text.push(chars_of(g[i].as_str()));
                assert(texts_view(text@) =~= before.push(g@[i as int]@));
                assert(strings_view(g@).take(i + 1) =~= strings_view(g@).take(i as int).push(g@[i as int]@));
                i = i + 1;
            }
            let r = SortKey { num: 0, text };
            assert(strings_view(g@).take(i as int) =~= strings_view(g@));
            assert(r@ =~~= order_key(*f, field));
            r
        },
        FileField::Pages => {
            let r = SortKey { num: f.pages as u64, text: Vec::new() };
            assert(r@ =~~= order_key(*f, field));
            r
        },
        FileField::Size => {
            let r = SortKey { num: f.size, text: Vec::new() };
            assert(r@ =~~= order_key(*f, field));
            r
        },
    }
}

/// Whether an entry passes a query's filters (see `passes`).
pub fn matches_query(f: &File, q: &IndexQuery) -> (r: bool)
    ensures
        r == passes(*f, q@),
{
    if let Some(g) = &q.genre {
        match &f.info {
            None => {
                return false;
            },
            Some(info) => {
                let mut found = false;
                let mut i: usize = 0;
                while i < info.genre.len()
                    invariant
                        i <= info.genre@.len(),
                        found == strings_view(info.genre@).take(i as int).contains(g@),
                    decreases info.genre.len() - i,
                {
                    let ghost before = strings_view(info.genre@).take(i as int);
                    assert(strings_view(info.genre@).take(i + 1) =~= before.push(info.genre@[i as int]@));
                    if info.genre[i] == *g {
                        found = true;
                        assert(strings_view(info.genre@).take(i + 1)[i as int] == g@);
                    } else if found {
                        proof {
                            let k = choose|k: int| 0 <= k < before.len() && before[k] == g@;
                            assert(strings_view(info.genre@).take(i + 1)[k] == g@);
                        }
                    }
                    i = i + 1;
                }
                assert(strings_view(info.genre@).take(i as int) =~= strings_view(info.genre@));
                if !found {
                    return false;
                }
            },
        }
    }
    if let Some(y) = &q.year {
        match &f.info {
            None => {
                return false;
            },
            Some(info) => {
                if !(info.year == *y) {
                    return false;
                }
            },
        }
    }
    true
}

/// `r` lists the positions of exactly the entries that pass the query's
/// filters, once each, in the order of its sort.
pub open spec fn is_listing(files: Seq<File>, q: QueryView, r: Seq<usize>) -> bool {
    &&& r.no_duplicates()
    &&& forall|k: int| 0 <= k < r.len() ==> (#[trigger] r[k] as int) < files.len() && passes(files[r[k] as int], q)
    &&& forall|i: int| 0 <= i < files.len() && passes(#[trigger] files[i], q) ==> r.contains(i as usize)
    &&& forall|k: int| 0 <= k < r.len() - 1 ==> listed_before(files, effective_sort(q), #[trigger] r[k] as int, r[k + 1] as int)
}

/// A genre filter that no entry has leaves nothing to list.
pub proof fn lemma_absent_genre_lists_nothing(files: Seq<File>, q: QueryView, r: Seq<usize>)
    requires
        is_listing(files, q, r),
        q.genre matches Some(g) && forall|i: int| 0 <= i < files.len() ==> !(#[trigger] genres_of(files[i])).contains(g),
    ensures
        r.len() == 0,
{
    if r.len() > 0 {
        let i = r[0] as int;
        let g = q.genre->Some_0;
        assert(!genres_of(files[i]).contains(g));
        assert(passes(files[i], q));
    }
}

/// A query without filters lists every entry (once each, as every
/// listing does).
pub proof fn lemma_no_filter_lists_all(files: Seq<File>, q: QueryView, r: Seq<usize>)
    requires
        is_listing(files, q, r),
        q.genre is None,
        q.year is None,
    ensures
        forall|i: int| 0 <= i < files.len() ==> r.contains(#[trigger] (i as usize)),
{
    assert forall|i: int| 0 <= i < files.len() implies r.contains(#[trigger] (i as usize)) by {
        assert(passes(files[i], q));
    }
}

/// An entry without metadata passes no query that filters by genre or by
/// year.
pub proof fn lemma_no_metadata_fails_filters(f: File, q: QueryView)
    requires
        f.info is None,
        q.genre is Some || q.year is Some,
    ensures
        !passes(f, q),
{
}

/// The positions of the entries that pass a query's filters, in the order
/// of its sort (ascending by number where it has none); entries with equal
/// keys keep their order, and descending order turns the whole list round.
pub fn select_files(files: &Vec<File>, query: &IndexQuery) -> (r: Vec<usize>)
    ensures
        is_listing(files@, query@, r@),
{
    let sort = match query.sort {
        Some(s) => s,
        None => FileSort { direction: Direction::Ascending, field: FileField::Number },
    };
    let mut idx: Vec<usize> = Vec::new();
    let mut keys: Vec<SortKey> = Vec::new();
    let mut i: usize = 0;
    while i < files.len()
        invariant
            i <= files@.len(),
            keys@.len() == i,
            forall|k: int| 0 <= k < i ==> (#[trigger] keys@[k])@ == order_key(files@[k], sort.field),
            forall|k: int| 0 <= k < idx@.len() ==> (#[trigger] idx@[k]) < i && passes(files@[idx@[k] as int], query@),
            forall|a: int, b: int| 0 <= a < b < idx@.len() ==> idx@[a] < idx@[b],
            forall|j: int| 0 <= j < i && passes(#[trigger] files@[j], query@) ==> idx@.contains(j as usize),
        decreases files.len() - i,
    {
        keys.push(make_key(&files[i], sort.field));
        if matches_query(&files[i], query) {
            let ghost old_idx = idx@;
            idx.push(i);
            assert forall|j: int| 0 <= j < i + 1 && passes(#[trigger] files@[j], query@) implies idx@.contains(j as usize) by {
                if j < i {
                    let k = choose|k: int| 0 <= k < old_idx.len() && old_idx[k] == j as usize;
                    assert(idx@[k] == j as usize);
                } else {
                    assert(idx@[old_idx.len() as int] == i);
                }
            }
        }
        i = i + 1;
    }
    assert(keys_view(keys@) =~= file_keys(files@, sort.field));
    let sorted = sort_indices(&keys, &idx);
    assert forall|k: int| 0 <= k < sorted@.len() implies (#[trigger] sorted@[k] as int) < files@.len() && passes(files@[sorted@[k] as int], query@) by {
        let j = choose|j: int| 0 <= j < idx@.len() && idx@[j] == sorted@[k];
        assert(idx@[j] < files@.len());
    }
    match sort.direction {
        Direction::Ascending => sorted,
        Direction::Descending => {
            let n = sorted.len();
            let mut r: Vec<usize> = Vec::new();
            let mut k: usize = 0;
            while k < n
                invariant
                    n == sorted@.len(),
                    k <= n,
                    r@.len() == k,
                    forall|j: int| 0 <= j < k ==> r@[j] == sorted@[n - 1 - j],
                decreases n - k,
            {
                r.push(sorted[n - 1 - k]);
                k = k + 1;
            }
            assert(r@.no_duplicates()) by {
                assert forall|a: int, b: int| 0 <= a < b < r@.len() implies r@[a] != r@[b] by {
                    assert(sorted@[n - 1 - a] != sorted@[n - 1 - b]);
                }
            }
            assert forall|j: int| 0 <= j < files@.len() && passes(#[trigger] files@[j], query@) implies r@.contains(j as usize) by {
                let p = choose|p: int| 0 <= p < sorted@.len() && sorted@[p] == j as usize;
                assert(r@[n - 1 - p] == j as usize);
            }
            assert forall|j: int| 0 <= j < r@.len() - 1 implies listed_before(files@, effective_sort(query@), #[trigger] r@[j] as int, r@[j + 1] as int) by {
                assert(r@[j + 1] == sorted@[n - 1 - (j + 1)]);
                assert(key_before(keys_view(keys@), sorted@[n - 1 - (j + 1)] as int, sorted@[(n - 1 - (j + 1)) + 1] as int));
            }
            r
        },
    }
}


/// The years of the entries in their order, the empty ones left out.
pub open spec fn all_years_of(files: Seq<File>) -> Seq<Seq<char>>
    decreases files.len(),
{
    if files.len() == 0 {
        Seq::empty()
    } else {
        all_years_of(files.drop_last()) + if year_of(files.last()).len() > 0 {
            seq![year_of(files.last())]
        } else {
            Seq::empty()
        }
    }
}

/// The genres of the entries in their order, the empty string included.
pub open spec fn all_genres_of(files: Seq<File>) -> Seq<Seq<char>>
    decreases files.len(),
{
    if files.len() == 0 {
        Seq::empty()
    } else {
        all_genres_of(files.drop_last()) + genres_of(files.last())
    }
}

/// Each string comes before the next: sorted, without repeats.
pub open spec fn strictly_sorted(v: Seq<Seq<char>>) -> bool {
    forall|k: int| 0 <= k < v.len() - 1 ==> chars_cmp(#[trigger] v[k], v[k + 1]) < 0
}

/// A facet: the distinct values of a sequence, in order.
pub open spec fn is_facet_of(facet: Seq<Seq<char>>, values: Seq<Seq<char>>) -> bool {
    &&& strictly_sorted(facet)
    &&& forall|y: Seq<char>| facet.contains(y) <==> values.contains(y)
}

/// The catalog: the entries, and the distinct years and genres over them.
#[derive(Debug)]
pub struct AppState {
    pub files: Vec<File>,
    pub all_years: Vec<String>,
    pub all_genres: Vec<String>,
}

proof fn lemma_push_contains<A>(s: Seq<A>, x: A, y: A)
    ensures
        s.push(x).contains(y) <==> (s.contains(y) || y == x),
{
    if s.contains(y) {
        let k = choose|k: int| 0 <= k < s.len() && s[k] == y;
        assert(s.push(x)[k] == y);
    }
    if y == x {
        assert(s.push(x)[s.len() as int] == y);
    }
    if s.push(x).contains(y) {
        let k = choose|k: int| 0 <= k < s.len() + 1 && s.push(x)[k] == y;
        if k < s.len() {
            assert(s[k] == y);
        }
    }
}

proof fn lemma_insert_contains<A>(s: Seq<A>, p: int, x: A, y: A)
    requires
        0 <= p <= s.len(),
    ensures
        s.insert(p, x).contains(y) <==> (s.contains(y) || y == x),
{
    let t = s.insert(p, x);
    if s.contains(y) {
        let k = choose|k: int| 0 <= k < s.len() && s[k] == y;
        if k < p {
            assert(t[k] == y);
        } else {
            assert(t[k + 1] == y);
        }
    }
    if y == x {
        assert(t[p] == y);
    }
    if t.contains(y) {
        let k = choose|k: int| 0 <= k < t.len() && t[k] == y;
        if k < p {
            assert(s[k] == y);
        } else if k > p {
            assert(s[k - 1] == y);
        }
    }
}

/// Adds a string to a sorted list of distinct strings, where it is not
/// there yet.
fn insert_sorted(set: &mut Vec<String>, s: &str)
    requires
        strictly_sorted(strings_view(old(set)@)),
    ensures
        strictly_sorted(strings_view(final(set)@)),
        forall|y: Seq<char>| strings_view(final(set)@).contains(y) <==> (strings_view(old(set)@).contains(y) || y == s@),
{
    let ghost sv = strings_view(set@);
    let mut i: usize = 0;
    while i < set.len()
        invariant
            sv == strings_view(set@),
            sv == strings_view(old(set)@),
            strictly_sorted(sv),
            i <= set@.len(),
            forall|k: int| 0 <= k < i ==> sv[k] != s@,
        decreases set.len() - i,
    {
        if same_text(set[i].as_str(), s) {
            proof {
                assert(sv[i as int] == s@);
                assert forall|y: Seq<char>| sv.contains(y) <==> (sv.contains(y) || y == s@) by {}
            }
            return;
        }
        i = i + 1;
    }
    let sc = chars_of(s);
    let mut p: usize = set.len();
    while p > 0 && compare_chars(&sc, &chars_of(set[p - 1].as_str())) < 0
        invariant
            sv == strings_view(set@),
            sv == strings_view(old(set)@),
            strictly_sorted(sv),
            sc@ == s@,
            p <= set@.len(),
            forall|k: int| p <= k < set@.len() ==> chars_cmp(s@, #[trigger] sv[k]) < 0,
        decreases p,
    {
        p = p - 1;
    }
    proof {
        if p > 0 {
            lemma_chars_cmp_antisym(s@, sv[p - 1]);
            assert(sv[p - 1] != s@);
        }
    }
    set.insert(p, s.to_owned());
    proof {
        let nv = strings_view(set@);
        assert(nv =~= sv.insert(p as int, s@));
        assert forall|k: int| 0 <= k < nv.len() - 1 implies chars_cmp(#[trigger] nv[k], nv[k + 1]) < 0 by {
            if k + 1 < p {
                assert(chars_cmp(sv[k], sv[k + 1]) < 0);
            } else if k > p {
                assert(chars_cmp(sv[k - 1], sv[k]) < 0);
            }
        }
        assert forall|y: Seq<char>| nv.contains(y) <==> (sv.contains(y) || y == s@) by {
            lemma_insert_contains(sv, p as int, s@, y);
        }
    }
}

impl AppState {
    /// The catalog of these entries, with their distinct non-empty years and
    /// their distinct genres, each in order.
    pub fn from_files(files: Vec<File>) -> (r: AppState)
        ensures
            r.files@ == files@,
            is_facet_of(strings_view(r.all_years@), all_years_of(files@)),
            is_facet_of(strings_view(r.all_genres@), all_genres_of(files@)),
    {
        let mut all_years: Vec<String> = Vec::new();
        let mut all_genres: Vec<String> = Vec::new();
        let mut i: usize = 0;
        while i < files.len()
            invariant
                i <= files@.len(),
                strictly_sorted(strings_view(all_years@)),
                strictly_sorted(strings_view(all_genres@)),
                forall|y: Seq<char>| strings_view(all_years@).contains(y) <==> all_years_of(files@.take(i as int)).contains(y),
                forall|y: Seq<char>| strings_view(all_genres@).contains(y) <==> all_genres_of(files@.take(i as int)).contains(y),
            decreases files.len() - i,
        {
            let f = &files[i];
            let ghost prefix = files@.take(i as int);
            assert(files@.take(i + 1).drop_last() =~= prefix);
            assert(files@.take(i + 1).last() == files@[i as int]);
            let y = f.year();
            if y.unicode_len() > 0 {
                insert_sorted(&mut all_years, y);
                assert(all_years_of(files@.take(i + 1)) =~= all_years_of(prefix).push(y@));
                assert forall|z: Seq<char>| strings_view(all_years@).contains(z) <==> all_years_of(files@.take(i + 1)).contains(z) by {
                    lemma_push_contains(all_years_of(prefix), y@, z);
                }
            } else {
                assert(all_years_of(files@.take(i + 1)) =~= all_years_of(prefix));
            }
            let g = f.genres();
            let mut k: usize = 0;
            while k < g.len()
                invariant
                    k <= g@.len(),
                    strings_view(g@) == genres_of(files@[i as int]),
                    strictly_sorted(strings_view(all_genres@)),
                    forall|z: Seq<char>| strings_view(all_genres@).contains(z) <==> (all_genres_of(prefix) + strings_view(g@).take(k as int)).contains(z),
                decreases g.len() - k,
            {
                insert_sorted(&mut all_genres, g[k].as_str());
                let ghost before = all_genres_of(prefix) + strings_view(g@).take(k as int);
                assert(all_genres_of(prefix) + strings_view(g@).take(k + 1) =~= before.push(g@[k as int]@));
                assert forall|z: Seq<char>| strings_view(all_genres@).contains(z) <==> (all_genres_of(prefix) + strings_view(g@).take(k + 1)).contains(z) by {
                    lemma_push_contains(before, g@[k as int]@, z);
                }
                k = k + 1;
            }
            assert(strings_view(g@).take(k as int) =~= strings_view(g@));
            assert(all_genres_of(files@.take(i + 1)) =~= all_genres_of(prefix) + genres_of(files@[i as int]));
            i = i + 1;
        }
        assert(files@.take(i as int) =~= files@);
        AppState { files, all_years, all_genres }
    }
}

/// Every genre of every entry is in the genre facet; in particular the
/// empty string, where an entry's genre field was empty and so split into
/// one empty part.
pub proof fn lemma_empty_genre_in_facet(files: Seq<File>, i: int)
    requires
        0 <= i < files.len(),
        files[i].info is Some,
        genres_of(files[i]) == split_commas(Seq::empty()),
    ensures
        all_genres_of(files).contains(Seq::empty()),
    decreases files.len(),
{
    if i == files.len() - 1 {
        let g = genres_of(files.last());
        assert((all_genres_of(files.drop_last()) + g)[all_genres_of(files.drop_last()).len() as int] == g[0]);
    } else {
        lemma_empty_genre_in_facet(files.drop_last(), i);
        let k = choose|k: int| 0 <= k < all_genres_of(files.drop_last()).len() && all_genres_of(files.drop_last())[k] == Seq::<char>::empty();
        assert((all_genres_of(files.drop_last()) + genres_of(files.last()))[k] == Seq::<char>::empty());
    }
}

} // verus!
