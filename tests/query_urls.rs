use cbz_server::{
    genre_search_url, render_sort_link, year_search_url, Direction, FileField, FileSort, IndexQuery,
    InvalidQuery,
};

fn q(genre: Option<&str>, year: Option<&str>, sort: Option<FileSort>) -> IndexQuery {
    IndexQuery { genre: genre.map(|s| s.to_string()), year: year.map(|s| s.to_string()), sort }
}

fn sort(direction: Direction, field: FileField) -> FileSort {
    FileSort { direction, field }
}

#[test]
fn field_tokens() {
    assert_eq!(FileField::Number.as_str(), "number");
    assert_eq!(FileField::Name.as_str(), "name");
    assert_eq!(FileField::Year.as_str(), "year");
    assert_eq!(FileField::Genre.as_str(), "genre");
    assert_eq!(FileField::Pages.as_str(), "pages");
    assert_eq!(FileField::Size.as_str(), "size");
    assert_eq!(FileField::from_str("pages"), Ok(FileField::Pages));
    assert_eq!(FileField::from_str("Pages"), Err(InvalidQuery { token: "Pages".to_string() }));
}

#[test]
fn sort_tokens() {
    assert_eq!(sort(Direction::Ascending, FileField::Size).to_query(), "size");
    assert_eq!(sort(Direction::Descending, FileField::Name).to_query(), "-name");
    assert_eq!(FileSort::from_str("-year"), Ok(sort(Direction::Descending, FileField::Year)));
    assert_eq!(FileSort::from_str("genre"), Ok(sort(Direction::Ascending, FileField::Genre)));
    assert_eq!(FileSort::from_str("-bogus"), Err(InvalidQuery { token: "bogus".to_string() }));
    assert_eq!(FileSort::from_str("--name"), Err(InvalidQuery { token: "-name".to_string() }));
}

#[test]
fn to_url_omits_absent_parameters() {
    assert_eq!(IndexQuery::default().to_url(), "/?");
    assert_eq!(q(Some("Sci Fi"), None, None).to_url(), "/?genre=Sci+Fi");
    assert_eq!(q(None, Some("1999"), None).to_url(), "/?year=1999");
    assert_eq!(
        q(Some("a&b"), Some("2001"), Some(sort(Direction::Descending, FileField::Pages))).to_url(),
        "/?genre=a%26b&year=2001&sort=-pages"
    );
    assert_eq!(q(None, None, Some(sort(Direction::Ascending, FileField::Number))).to_url(), "/?sort=number");
}

#[test]
fn parse_reads_query_strings() {
    assert_eq!(IndexQuery::parse(""), Ok(IndexQuery::default()));
    assert_eq!(IndexQuery::parse("genre=Sci+Fi&year=1999"), Ok(q(Some("Sci Fi"), Some("1999"), None)));
    assert_eq!(
        IndexQuery::parse("sort=-size&other=1"),
        Ok(q(None, None, Some(sort(Direction::Descending, FileField::Size))))
    );
    assert_eq!(IndexQuery::parse("genre=&year=&sort="), Ok(IndexQuery::default()));
    assert_eq!(IndexQuery::parse("genre=a%26b"), Ok(q(Some("a&b"), None, None)));
    assert_eq!(IndexQuery::parse("genre=x&genre=y"), Ok(q(Some("x"), None, None)));
}

#[test]
fn parse_rejects_unknown_sort_field() {
    assert_eq!(IndexQuery::parse("sort=colour"), Err(InvalidQuery { token: "colour".to_string() }));
    assert_eq!(IndexQuery::parse("genre=x&sort=-colour"), Err(InvalidQuery { token: "colour".to_string() }));
}

#[test]
fn url_round_trip() {
    let queries = vec![
        IndexQuery::default(),
        q(Some("Action"), None, None),
        q(Some("Sci Fi & Fantasy"), Some("2020"), Some(sort(Direction::Descending, FileField::Genre))),
        q(None, Some("1987"), Some(sort(Direction::Ascending, FileField::Name))),
        q(Some("Été+hiver"), None, Some(sort(Direction::Descending, FileField::Number))),
    ];
    for query in queries {
        let url = query.to_url();
        let rest = url.strip_prefix("/?").unwrap();
        assert_eq!(IndexQuery::parse(rest), Ok(query.clone()));
        assert_eq!(IndexQuery::from_pairs(&query.to_pairs()), Ok(query));
    }
}

#[test]
fn builders_leave_the_base_query_alone() {
    let base = q(Some("Drama"), Some("2000"), None);
    let sorted = base.clone().with_sort(Some(sort(Direction::Ascending, FileField::Size)));
    assert_eq!(sorted, q(Some("Drama"), Some("2000"), Some(sort(Direction::Ascending, FileField::Size))));
    assert_eq!(base.clone().with_genre_filter(None), q(None, Some("2000"), None));
    assert_eq!(base.clone().with_year_filter(Some("1990".to_string())), q(Some("Drama"), Some("1990"), None));
    assert_eq!(base, q(Some("Drama"), Some("2000"), None));
}

#[test]
fn search_urls() {
    assert_eq!(genre_search_url("Slice of Life"), "/?genre=Slice+of+Life");
    assert_eq!(year_search_url("2010"), "/?year=2010");
}

#[test]
fn sort_links() {
    let plain = q(Some("Drama"), None, None);
    assert_eq!(
        render_sort_link(&plain, FileField::Name, "Name"),
        "<a href=\"/?genre=Drama&sort=name\">Name</a>"
    );
    let by_name = q(None, None, Some(sort(Direction::Ascending, FileField::Name)));
    assert_eq!(
        render_sort_link(&by_name, FileField::Name, "Name"),
        "<a href=\"/?sort=-name\">Name</a><span>↑</span>"
    );
    assert_eq!(
        render_sort_link(&by_name, FileField::Size, "Size"),
        "<a href=\"/?sort=size\">Size</a>"
    );
    let by_name_desc = q(None, None, Some(sort(Direction::Descending, FileField::Name)));
    assert_eq!(
        render_sort_link(&by_name_desc, FileField::Name, "Name"),
        "<a href=\"/?sort=name\">Name</a><span>↓</span>"
    );
}
