//! The filter and sort query: its fields, the sort token, the pairs of the
//! canonical query string, and parsing them back.
use vstd::prelude::*;
use crate::text::{same_text, starts_with};

verus! {

#[derive(Clone, Copy, PartialEq, Eq, Debug, Structural)]
pub enum Direction {
    Ascending,
    Descending,
}

#[derive(Clone, Copy, PartialEq, Eq, Debug, Structural)]
pub enum FileField {
    Number,
    Name,
    Year,
    Genre,
    Pages,
    Size,
}

#[derive(Clone, Copy, PartialEq, Eq, Debug, Structural)]
pub struct FileSort {
    pub direction: Direction,
    pub field: FileField,
}

/// A sort field token that names no field.
#[derive(Clone, PartialEq, Eq, Debug)]
pub struct InvalidQuery {
    pub token: String,
}

/// Which entries to list and in which order.
#[derive(Clone, PartialEq, Eq, Debug)]
pub struct IndexQuery {
    pub genre: Option<String>,
    pub year: Option<String>,
    pub sort: Option<FileSort>,
}

/// The mathematical value of an `IndexQuery`.
pub struct QueryView {
    pub genre: Option<Seq<char>>,
    pub year: Option<Seq<char>>,
    pub sort: Option<FileSort>,
}

pub open spec fn opt_view(o: Option<String>) -> Option<Seq<char>> {
    match o {
        Some(s) => Some(s@),
        None => None,
    }
}

impl View for IndexQuery {
    type V = QueryView;

    open spec fn view(&self) -> QueryView {
        QueryView { genre: opt_view(self.genre), year: opt_view(self.year), sort: self.sort }
    }
}

/// The token of each field in a query string.
pub open spec fn field_name(f: FileField) -> Seq<char> {
    match f {
        FileField::Number => seq!['n', 'u', 'm', 'b', 'e', 'r'],
        FileField::Name => seq!['n', 'a', 'm', 'e'],
        FileField::Year => seq!['y', 'e', 'a', 'r'],
        FileField::Genre => seq!['g', 'e', 'n', 'r', 'e'],
        FileField::Pages => seq!['p', 'a', 'g', 'e', 's'],
        FileField::Size => seq!['s', 'i', 'z', 'e'],
    }
}

/// The field that a token names, if any.
pub open spec fn field_named(s: Seq<char>) -> Option<FileField> {
    if s == field_name(FileField::Number) {
        Some(FileField::Number)
    } else if s == field_name(FileField::Name) {
        Some(FileField::Name)
    } else if s == field_name(FileField::Year) {
        Some(FileField::Year)
    } else if s == field_name(FileField::Genre) {
        Some(FileField::Genre)
    } else if s == field_name(FileField::Pages) {
        Some(FileField::Pages)
    } else if s == field_name(FileField::Size) {
        Some(FileField::Size)
    } else {
        None
    }
}

/// The token of a sort: the field's name, after a `-` when descending.
pub open spec fn sort_token(s: FileSort) -> Seq<char> {
    match s.direction {
        Direction::Ascending => field_name(s.field),
        Direction::Descending => seq!['-'] + field_name(s.field),
    }
}

/// What must name a field in a sort token: the token without a leading `-`.
pub open spec fn sort_field_part(t: Seq<char>) -> Seq<char> {
    if starts_with(t, seq!['-']) { t.drop_first() } else { t }
}

/// The sort that a token stands for, if its field part names a field.
pub open spec fn sort_named(t: Seq<char>) -> Option<FileSort> {
    match field_named(sort_field_part(t)) {
        Some(field) => Some(FileSort {
            direction: if starts_with(t, seq!['-']) { Direction::Descending } else { Direction::Ascending },
            field,
        }),
        None => None,
    }
}

impl FileField {
    /// The field's token.
    pub fn as_str(&self) -> (r: &'static str)
        ensures
            r@ == field_name(*self),
    {
        match self {
            FileField::Number => {
                proof { reveal_strlit("number"); }
                "number"
            },
            FileField::Name => {
                proof { reveal_strlit("name"); }
                "name"
            },
            FileField::Year => {
                proof { reveal_strlit("year"); }
                "year"
            },
            FileField::Genre => {
                proof { reveal_strlit("genre"); }
                "genre"
            },
            FileField::Pages => {
                proof { reveal_strlit("pages"); }
                "pages"
            },
            FileField::Size => {
                proof { reveal_strlit("size"); }
                "size"
            },
        }
    }

    /// Reads a field token; an unknown token is an error that carries it.
    pub fn from_str(s: &str) -> (r: Result<FileField, InvalidQuery>)
        ensures
            r is Ok <==> field_named(s@) is Some,
            r is Ok ==> field_named(s@) == Some(r->Ok_0),
            r is Err ==> r->Err_0.token@ == s@,
    {
        let fields = [
            FileField::Number,
            FileField::Name,
            FileField::Year,
            FileField::Genre,
            FileField::Pages,
            FileField::Size,
        ];
        let mut i: usize = 0;
        while i < 6
            invariant
                i <= 6,
                fields@ == seq![FileField::Number, FileField::Name, FileField::Year, FileField::Genre, FileField::Pages, FileField::Size],
                forall|k: int| 0 <= k < i ==> s@ != field_name(#[trigger] fields@[k]),
            decreases 6 - i,
        {
            let f = fields[i];
            if same_text(s, f.as_str()) {
                return Ok(f);
            }
            i = i + 1;
        }
        assert(s@ != field_name(fields@[0]));
        assert(s@ != field_name(fields@[5]));
        Err(InvalidQuery { token: s.to_owned() })
    }
}

impl FileSort {
    /// The sort's token in a query string.
    pub fn to_query(&self) -> (r: String)
        ensures
            r@ == sort_token(*self),
    {
        match self.direction {
            Direction::Ascending => String::from_str(self.field.as_str()),
            Direction::Descending => {
                proof { reveal_strlit("-"); }
                String::from_str("-").concat(self.field.as_str())
            },
        }
    }

    /// Reads a sort token: a field token, after a `-` for descending order.
    pub fn from_str(s: &str) -> (r: Result<FileSort, InvalidQuery>)
        ensures
            r is Ok <==> sort_named(s@) is Some,
            r is Ok ==> sort_named(s@) == Some(r->Ok_0),
            r is Err ==> r->Err_0.token@ == sort_field_part(s@),
    {
        proof {
            reveal_strlit("-");
            assert("-"@ =~= seq!['-']);
        }
        let descending = crate::text::has_prefix(s, "-");
        let n = s.unicode_len();
        let rest = if descending { s.substring_char(1, n) } else { s };
        assert(descending ==> rest@ =~= s@.drop_first());
        assert(rest@ == sort_field_part(s@));
        let field = FileField::from_str(rest);
        match field {
            Ok(field) => {
                let direction = if descending { Direction::Descending } else { Direction::Ascending };
                Ok(FileSort { direction, field })
            },
            Err(e) => Err(e),
        }
    }
}


pub open spec fn genre_key() -> Seq<char> {
    seq!['g', 'e', 'n', 'r', 'e']
}

pub open spec fn year_key() -> Seq<char> {
    seq!['y', 'e', 'a', 'r']
}

pub open spec fn sort_key() -> Seq<char> {
    seq!['s', 'o', 'r', 't']
}

/// The name/value pairs of a query string, as plain sequences.
pub open spec fn pairs_view(v: Seq<(String, String)>) -> Seq<(Seq<char>, Seq<char>)> {
    v.map_values(|p: (String, String)| (p.0@, p.1@))
}

/// The pairs of the canonical query string of a query: `genre`, `year` and
/// `sort` in this order, each only where it is present.
pub open spec fn query_pairs(q: QueryView) -> Seq<(Seq<char>, Seq<char>)> {
    let g = match q.genre {
        Some(v) => seq![(genre_key(), v)],
        None => Seq::empty(),
    };
    let y = match q.year {
        Some(v) => seq![(year_key(), v)],
        None => Seq::empty(),
    };
    let s = match q.sort {
        Some(s) => seq![(sort_key(), sort_token(s))],
        None => Seq::empty(),
    };
    g + y + s
}

/// The value of the first pair with this name.
pub open spec fn first_value(ps: Seq<(Seq<char>, Seq<char>)>, key: Seq<char>) -> Option<Seq<char>>
    decreases ps.len(),
{
    if ps.len() == 0 {
        None
    } else if ps[0].0 == key {
        Some(ps[0].1)
    } else {
        first_value(ps.drop_first(), key)
    }
}

/// An empty value counts as absent.
pub open spec fn present(v: Option<Seq<char>>) -> Option<Seq<char>> {
    match v {
        Some(x) => if x.len() > 0 { Some(x) } else { None },
        None => None,
    }
}

/// The query that a list of pairs stands for, or `None` where its sort
/// token names no field. Pairs with other names are ignored; of two pairs
/// with one name the first counts.
pub open spec fn query_of_pairs(ps: Seq<(Seq<char>, Seq<char>)>) -> Option<QueryView> {
    let genre = present(first_value(ps, genre_key()));
    let year = present(first_value(ps, year_key()));
    match present(first_value(ps, sort_key())) {
        None => Some(QueryView { genre, year, sort: None }),
        Some(t) => match sort_named(t) {
            Some(s) => Some(QueryView { genre, year, sort: Some(s) }),
            None => None,
        },
    }
}

/// A query that its canonical query string can carry: a present filter
/// is not empty, since an empty value reads as absent.
pub open spec fn representable(q: QueryView) -> bool {
    &&& (q.genre matches Some(g) ==> g.len() > 0)
    &&& (q.year matches Some(y) ==> y.len() > 0)
}

/// Reading the pairs of a query's canonical query string gives the query
/// back, for every query that a query string can carry.
pub proof fn lemma_query_round_trip(q: QueryView)
    requires
        representable(q),
    ensures
        query_of_pairs(query_pairs(q)) == Some(q),
{
    let ps = query_pairs(q);
    assert(genre_key()[0] != year_key()[0]);
    assert(genre_key()[0] != sort_key()[0]);
    assert(year_key()[0] != sort_key()[0]);
    lemma_first_value_of_pairs(q);
    if let Some(s) = q.sort {
        lemma_sort_round_trip(s);
    }
}

proof fn lemma_first_value_of_pairs(q: QueryView)
    ensures
        first_value(query_pairs(q), genre_key()) == q.genre,
        first_value(query_pairs(q), year_key()) == q.year,
        first_value(query_pairs(q), sort_key()) == (match q.sort {
            Some(s) => Some(sort_token(s)),
            None => None,
        }),
{
    assert(genre_key() != year_key()) by { assert(genre_key()[0] != year_key()[0]); }
    assert(genre_key() != sort_key()) by { assert(genre_key()[0] != sort_key()[0]); }
    assert(year_key() != sort_key()) by { assert(year_key()[0] != sort_key()[0]); }
    let s = match q.sort {
        Some(s) => seq![(sort_key(), sort_token(s))],
        None => Seq::<(Seq<char>, Seq<char>)>::empty(),
    };
    let y = match q.year {
        Some(v) => seq![(year_key(), v)],
        None => Seq::<(Seq<char>, Seq<char>)>::empty(),
    };
    let ys = y + s;
    if let Some(t) = q.sort {
        lemma_first_value_cons((sort_key(), sort_token(t)), Seq::empty(), genre_key());
        lemma_first_value_cons((sort_key(), sort_token(t)), Seq::empty(), year_key());
        lemma_first_value_cons((sort_key(), sort_token(t)), Seq::empty(), sort_key());
        assert(s =~= seq![(sort_key(), sort_token(t))] + Seq::empty());
    }
    if let Some(v) = q.year {
        lemma_first_value_cons((year_key(), v), s, genre_key());
        lemma_first_value_cons((year_key(), v), s, year_key());
        lemma_first_value_cons((year_key(), v), s, sort_key());
    } else {
        assert(ys =~= s);
    }
    if let Some(v) = q.genre {
        lemma_first_value_cons((genre_key(), v), ys, genre_key());
        lemma_first_value_cons((genre_key(), v), ys, year_key());
        lemma_first_value_cons((genre_key(), v), ys, sort_key());
        assert(query_pairs(q) =~= seq![(genre_key(), v)] + ys);
    } else {
        assert(query_pairs(q) =~= ys);
    }
}

proof fn lemma_first_value_cons(
    p: (Seq<char>, Seq<char>),
    rest: Seq<(Seq<char>, Seq<char>)>,
    key: Seq<char>,
)
    ensures
        first_value(seq![p] + rest, key) == if p.0 == key {
            Some(p.1)
        } else {
            first_value(rest, key)
        },
{
    assert((seq![p] + rest).drop_first() =~= rest);
}

/// Reading a sort's token gives the sort back.
pub proof fn lemma_sort_round_trip(s: FileSort)
    ensures
        sort_named(sort_token(s)) == Some(s),
        sort_token(s).len() > 0,
{
    let t = sort_token(s);
    let n = field_name(s.field);
    assert(n[0] != '-');
    if s.direction == Direction::Descending {
        assert(t.drop_first() =~= n);
        assert(t.take(1) =~= seq!['-']);
    } else {
        assert(t.take(1) != seq!['-']) by { assert(t.take(1)[0] != '-'); }
    }
    assert(sort_field_part(t) == n);
    let numb = field_name(FileField::Number);
    let name = field_name(FileField::Name);
    let year = field_name(FileField::Year);
    let genre = field_name(FileField::Genre);
    let pages = field_name(FileField::Pages);
    let size = field_name(FileField::Size);
    assert(numb != name) by { assert(numb.len() != name.len()); }
    assert(numb != year) by { assert(numb.len() != year.len()); }
    assert(numb != genre) by { assert(numb[0] != genre[0]); }
    assert(numb != pages) by { assert(numb[0] != pages[0]); }
    assert(numb != size) by { assert(numb.len() != size.len()); }
    assert(name != year) by { assert(name[0] != year[0]); }
    assert(name != genre) by { assert(name[0] != genre[0]); }
    assert(name != pages) by { assert(name[0] != pages[0]); }
    assert(name != size) by { assert(name[0] != size[0]); }
    assert(year != genre) by { assert(year[0] != genre[0]); }
    assert(year != pages) by { assert(year[0] != pages[0]); }
    assert(year != size) by { assert(year[0] != size[0]); }
    assert(genre != pages) by { assert(genre[0] != pages[0]); }
    assert(genre != size) by { assert(genre[0] != size[0]); }
    assert(pages != size) by { assert(pages[0] != size[0]); }
}

/// `"genre"`, `"year"` or `"sort"` as a string, by the pair's key.
fn key_string(key: u8) -> (r: String)
    requires
        key < 3,
    ensures
        key == 0 ==> r@ == genre_key(),
        key == 1 ==> r@ == year_key(),
        key == 2 ==> r@ == sort_key(),
{
    proof {
        reveal_strlit("genre");
        reveal_strlit("year");
        reveal_strlit("sort");
        assert("genre"@ =~= genre_key());
        assert("year"@ =~= year_key());
        assert("sort"@ =~= sort_key());
    }
    if key == 0 {
        String::from_str("genre")
    } else if key == 1 {
        String::from_str("year")
    } else {
        String::from_str("sort")
    }
}

/// Finds the value of the first pair whose name is `key`.
fn find_value<'a>(pairs: &'a Vec<(String, String)>, key: &str) -> (r: Option<&'a String>)
    ensures
        first_value(pairs_view(pairs@), key@) == (match r {
            Some(v) => Some(v@),
            None => None,
        }),
{
    let ghost ps = pairs_view(pairs@);
    let mut i: usize = 0;
    assert(ps.skip(0) =~= ps);
    while i < pairs.len()
        invariant
            ps == pairs_view(pairs@),
            i <= pairs@.len(),
            first_value(ps, key@) == first_value(ps.skip(i as int), key@),
        decreases pairs.len() - i,
    {
        assert(ps.skip(i as int)[0] == ps[i as int]);
        if same_text(pairs[i].0.as_str(), key) {
            return Some(&pairs[i].1);
        }
        assert(ps.skip(i as int).drop_first() =~= ps.skip(i + 1));
        i = i + 1;
    }
    None
}

/// A copy of an optional string.
fn copy_opt(o: &Option<String>) -> (r: Option<String>)
    ensures
        opt_view(r) == opt_view(*o),
{
    match o {
        Some(s) => Some(s.clone()),
        None => None,
    }
}

/// A copy of the value where it is present and not empty.
fn present_value(v: Option<&String>) -> (r: Option<String>)
    ensures
        opt_view(r) == present(match v {
            Some(s) => Some(s@),
            None => None,
        }),
{
    match v {
        Some(s) => if s.as_str().unicode_len() > 0 { Some(s.clone()) } else { None },
        None => None,
    }
}

impl Default for IndexQuery {
    fn default() -> (r: IndexQuery)
        ensures
            r@ == (QueryView { genre: None, year: None, sort: None }),
    {
        IndexQuery { genre: None, year: None, sort: None }
    }
}

impl IndexQuery {
    /// The same query with another sort.
    pub fn with_sort(self, sort: Option<FileSort>) -> (r: IndexQuery)
        ensures
            r@ == (QueryView { sort, ..self@ }),
    {
        IndexQuery { sort, ..self }
    }

    /// The same query with another genre filter.
    pub fn with_genre_filter(self, genre: Option<String>) -> (r: IndexQuery)
        ensures
            r@ == (QueryView { genre: opt_view(genre), ..self@ }),
    {
        IndexQuery { genre, ..self }
    }

    /// The same query with another year filter.
    pub fn with_year_filter(self, year: Option<String>) -> (r: IndexQuery)
        ensures
            r@ == (QueryView { year: opt_view(year), ..self@ }),
    {
        IndexQuery { year, ..self }
    }

    /// The pairs of the canonical query string.
    pub fn to_pairs(&self) -> (r: Vec<(String, String)>)
        ensures
            pairs_view(r@) == query_pairs(self@),
    {
        let mut r: Vec<(String, String)> = Vec::new();
        if let Some(g) = &self.genre {
            r.push((key_string(0), g.clone()));
        }
        if let Some(y) = &self.year {
            r.push((key_string(1), y.clone()));
        }
        if let Some(s) = &self.sort {
            r.push((key_string(2), s.to_query()));
        }
        assert(pairs_view(r@) =~= query_pairs(self@));
        r
    }

    /// Reads a query from the pairs of a query string. An empty value is
    /// absent; a sort token that names no field is an error.
    pub fn from_pairs(pairs: &Vec<(String, String)>) -> (r: Result<IndexQuery, InvalidQuery>)
        ensures
            r is Ok <==> query_of_pairs(pairs_view(pairs@)) is Some,
            r is Ok ==> query_of_pairs(pairs_view(pairs@)) == Some(r->Ok_0@),
            r is Err ==> r->Err_0.token@ == sort_field_part(
                first_value(pairs_view(pairs@), sort_key())->Some_0,
            ),
    {
        let gk = key_string(0);
        let yk = key_string(1);
        let sk = key_string(2);
        let genre = present_value(find_value(pairs, gk.as_str()));
        let year = present_value(find_value(pairs, yk.as_str()));
        let sort_value = find_value(pairs, sk.as_str());
        match present_value(sort_value) {
            None => Ok(IndexQuery { genre, year, sort: None }),
            Some(t) => match FileSort::from_str(t.as_str()) {
                Ok(s) => Ok(IndexQuery { genre, year, sort: Some(s) }),
                Err(e) => Err(e),
            },
        }
    }
}


/// What `application/x-www-form-urlencoded` makes of one name or value.
pub uninterp spec fn form_encoded(s: Seq<char>) -> Seq<char>;

/// The pairs that `application/x-www-form-urlencoded` parsing reads from a
/// query string.
pub uninterp spec fn form_decoded(s: Seq<char>) -> Seq<(Seq<char>, Seq<char>)>;

/// Relies on `form_urlencoded::byte_serialize`: the urlencoded form of the
/// string's bytes, a function of them alone.
#[verifier::external_body]
fn form_encode(s: &str) -> (r: String)
    ensures
        r@ == form_encoded(s@),
{
    form_urlencoded::byte_serialize(s.as_bytes()).collect()
}

/// Relies on `form_urlencoded::parse`: the percent-decoded name/value pairs
/// of a query string in their order, a function of its bytes alone.
#[verifier::external_body]
fn form_decode(s: &str) -> (r: Vec<(String, String)>)
    ensures
        pairs_view(r@) == form_decoded(s@),
{
    form_urlencoded::parse(s.as_bytes()).into_owned().collect()
}

/// One pair of a query string: the name, `=`, the encoded value.
pub open spec fn encoded_pair(p: (Seq<char>, Seq<char>)) -> Seq<char> {
    p.0 + seq!['='] + form_encoded(p.1)
}

/// Parts joined by `&`.
pub open spec fn join_amp(parts: Seq<Seq<char>>) -> Seq<char>
    decreases parts.len(),
{
    if parts.len() == 0 {
        Seq::empty()
    } else if parts.len() == 1 {
        parts[0]
    } else {
        join_amp(parts.drop_last()) + seq!['&'] + parts.last()
    }
}

/// The canonical URL of the index under a query: `/?` and the encoded
/// pairs joined by `&`.
pub open spec fn url_of(q: QueryView) -> Seq<char> {
    seq!['/', '?'] + join_amp(query_pairs(q).map_values(|p: (Seq<char>, Seq<char>)| encoded_pair(p)))
}

/// A query with only a genre filter.
pub open spec fn genre_query(genre: Seq<char>) -> QueryView {
    QueryView { genre: Some(genre), year: None, sort: None }
}

/// A query with only a year filter.
pub open spec fn year_query(year: Seq<char>) -> QueryView {
    QueryView { genre: None, year: Some(year), sort: None }
}

pub open spec fn flipped(d: Direction) -> Direction {
    match d {
        Direction::Ascending => Direction::Descending,
        Direction::Descending => Direction::Ascending,
    }
}

/// The arrow that marks the current sort direction.
pub open spec fn arrow(d: Direction) -> Seq<char> {
    match d {
        Direction::Ascending => seq!['\u{2191}'],
        Direction::Descending => seq!['\u{2193}'],
    }
}

/// The sort that a column's link sets: the column ascending, or the
/// other direction where the column is sorted already.
pub open spec fn link_sort(q: QueryView, field: FileField) -> FileSort {
    match q.sort {
        Some(s) => if s.field == field {
            FileSort { direction: flipped(s.direction), field }
        } else {
            FileSort { direction: Direction::Ascending, field }
        },
        None => FileSort { direction: Direction::Ascending, field },
    }
}

pub open spec fn anchor_open() -> Seq<char> {
    seq!['<', 'a', ' ', 'h', 'r', 'e', 'f', '=', '"']
}

pub open spec fn anchor_mid() -> Seq<char> {
    seq!['"', '>']
}

pub open spec fn anchor_close() -> Seq<char> {
    seq!['<', '/', 'a', '>']
}

/// The HTML of a column's sort link: an anchor to the query with the
/// column's next sort and, where the column is sorted already, the arrow
/// of its current direction.
pub open spec fn sort_link_html(q: QueryView, field: FileField, title: Seq<char>) -> Seq<char> {
    let a = anchor_open() + url_of(QueryView { sort: Some(link_sort(q, field)), ..q })
        + anchor_mid() + title + anchor_close();
    match q.sort {
        Some(s) => if s.field == field {
            a + seq!['<', 's', 'p', 'a', 'n', '>'] + arrow(s.direction) + seq![
                '<',
                '/',
                's',
                'p',
                'a',
                'n',
                '>',
            ]
        } else {
            a
        },
        None => a,
    }
}

impl IndexQuery {
    /// The canonical URL of the index under this query.
    pub fn to_url(&self) -> (r: String)
        ensures
            r@ == url_of(self@),
    {
        let pairs = self.to_pairs();
        let ghost parts = query_pairs(self@).map_values(|p: (Seq<char>, Seq<char>)| encoded_pair(p));
        proof {
            reveal_strlit("/?");
            reveal_strlit("&");
            reveal_strlit("=");
        }
        let mut url = String::from_str("/?");
        let mut i: usize = 0;
        assert(parts.take(0) =~= Seq::<Seq<char>>::empty());
        while i < pairs.len()
            invariant
                pairs_view(pairs@) == query_pairs(self@),
                parts == query_pairs(self@).map_values(|p: (Seq<char>, Seq<char>)| encoded_pair(p)),
                i <= pairs@.len(),
                url@ == seq!['/', '?'] + join_amp(parts.take(i as int)),
            decreases pairs.len() - i,
        {
            proof {
                reveal_strlit("&");
                reveal_strlit("=");
            }
            if i > 0 {
                url.append("&");
            }
            url.append(pairs[i].0.as_str());
            url.append("=");
            let v = form_encode(pairs[i].1.as_str());
            url.append(v.as_str());
            assert(pairs_view(pairs@)[i as int] == (pairs@[i as int].0@, pairs@[i as int].1@));
            assert(parts[i as int] == encoded_pair(query_pairs(self@)[i as int]));
            assert("&"@ =~= seq!['&']);
            assert("="@ =~= seq!['=']);
            assert(parts.take(i + 1).drop_last() =~= parts.take(i as int));
            assert(url@ =~= seq!['/', '?'] + join_amp(parts.take(i + 1)));
            i = i + 1;
        }
        assert(parts.take(i as int) =~= parts);
        url
    }

    /// Reads a query from the part of a URL after `?`.
    pub fn parse(s: &str) -> (r: Result<IndexQuery, InvalidQuery>)
        ensures
            r is Ok <==> query_of_pairs(form_decoded(s@)) is Some,
            r is Ok ==> query_of_pairs(form_decoded(s@)) == Some(r->Ok_0@),
            r is Err ==> r->Err_0.token@ == sort_field_part(
                first_value(form_decoded(s@), sort_key())->Some_0,
            ),
    {
        let pairs = form_decode(s);
        IndexQuery::from_pairs(&pairs)
    }
}

/// The URL of the index filtered by one genre.
pub fn genre_search_url(genre: &str) -> (r: String)
    ensures
        r@ == url_of(genre_query(genre@)),
{
    IndexQuery::default().with_genre_filter(Some(genre.to_owned())).to_url()
}

/// The URL of the index filtered by one year.
pub fn year_search_url(year: &str) -> (r: String)
    ensures
        r@ == url_of(year_query(year@)),
{
    IndexQuery::default().with_year_filter(Some(year.to_owned())).to_url()
}

/// The HTML link of a sortable column's title.
pub fn render_sort_link(query: &IndexQuery, field: FileField, title: &str) -> (r: String)
    ensures
        r@ == sort_link_html(query@, field, title@),
{
    proof {
        reveal_strlit("<a href=\"");
        reveal_strlit("\">");
        reveal_strlit("</a>");
        reveal_strlit("<span>");
        reveal_strlit("</span>");
        reveal_strlit("\u{2191}");
        reveal_strlit("\u{2193}");
        assert("<a href=\""@ =~= anchor_open());
        assert("\">"@ =~= anchor_mid());
        assert("</a>"@ =~= anchor_close());
        assert("<span>"@ =~= seq!['<', 's', 'p', 'a', 'n', '>']);
        assert("</span>"@ =~= seq!['<', '/', 's', 'p', 'a', 'n', '>']);
    }
    let (sort, current) = match query.sort {
        Some(s) => if s.field == field {
            let arrow_text = match s.direction {
                Direction::Ascending => "\u{2191}",
                Direction::Descending => "\u{2193}",
            };
            assert(arrow_text@ =~= arrow(s.direction));
            let next = match s.direction {
                Direction::Ascending => Direction::Descending,
                Direction::Descending => Direction::Ascending,
            };
            (FileSort { direction: next, field }, Some(arrow_text))
        } else {
            (FileSort { direction: Direction::Ascending, field }, None)
        },
        None => (FileSort { direction: Direction::Ascending, field }, None),
    };
    let linked = IndexQuery {
        genre: copy_opt(&query.genre),
        year: copy_opt(&query.year),
        sort: Some(sort),
    };
    let url = linked.to_url();
    assert(linked@ == (QueryView { sort: Some(link_sort(query@, field)), ..query@ }));
    let mut r = String::from_str("<a href=\"");
    r.append(url.as_str());
    r.append("\">");
    r.append(title);
    r.append("</a>");
    if let Some(a) = current {
        r.append("<span>");
        r.append(a);
        r.append("</span>");
    }
    assert(r@ =~= sort_link_html(query@, field, title@));
    r
}

} // verus!
