use cbz_server::{
    matches_query, select_files, AppState, ComicInfo, Direction, FileField, FileSort, File, IndexQuery,
};

fn info(title: &str, number: &str, year: &str, genre: &str) -> ComicInfo {
    ComicInfo::new(
        title.to_string(),
        "Series".to_string(),
        number.to_string(),
        year.to_string(),
        "Publisher".to_string(),
        genre,
        "https://example.org".to_string(),
    )
}

fn entry(name: &str, info: Option<ComicInfo>, pages: usize, size: u64) -> File {
    let names: Vec<String> = (0..pages).map(|i| format!("p{:02}.jpg", i)).collect();
    File::from_archive(
        format!("{}.cbz", name),
        format!("/srv/{}.cbz", name),
        name.to_string(),
        &names,
        info,
        size,
    )
}

fn query(genre: Option<&str>, year: Option<&str>, sort: Option<(Direction, FileField)>) -> IndexQuery {
    IndexQuery {
        genre: genre.map(|s| s.to_string()),
        year: year.map(|s| s.to_string()),
        sort: sort.map(|(direction, field)| FileSort { direction, field }),
    }
}

fn numbered(numbers: &[&str]) -> Vec<File> {
    numbers
        .iter()
        .map(|n| entry(&format!("c{}", n), Some(info("T", n, "2000", "Action")), 1, 1))
        .collect()
}

fn numbers_of(files: &[File], order: &[usize]) -> Vec<String> {
    order.iter().map(|&i| files[i].number().to_string()).collect()
}

#[test]
fn number_sort_puts_non_numeric_last() {
    let files = numbered(&["10", "2", "9a", "abc"]);
    let order = select_files(&files, &IndexQuery::default());
    assert_eq!(numbers_of(&files, &order), vec!["2", "9a", "10", "abc"]);
}

#[test]
fn number_sort_descending_reverses() {
    let files = numbered(&["10", "2", "9a", "abc"]);
    let order = select_files(&files, &query(None, None, Some((Direction::Descending, FileField::Number))));
    assert_eq!(numbers_of(&files, &order), vec!["abc", "10", "9a", "2"]);
}

#[test]
fn number_sort_is_stable_and_compares_rest() {
    let files = numbered(&["3b", "x", "3a", "x", "3a"]);
    let order = select_files(&files, &IndexQuery::default());
    assert_eq!(order, vec![2, 4, 0, 1, 3]);
}

#[test]
fn name_sort_ignores_ascii_case() {
    let files = vec![
        entry("a", Some(info("beta", "1", "", "")), 1, 1),
        entry("b", Some(info("Alpha", "2", "", "")), 1, 1),
        entry("c", Some(info("alpha", "3", "", "")), 1, 1),
        entry("Gamma", None, 1, 1),
    ];
    let order = select_files(&files, &query(None, None, Some((Direction::Ascending, FileField::Name))));
    assert_eq!(order, vec![1, 2, 0, 3]);
}

#[test]
fn pages_size_year_and_genre_sorts() {
    let files = vec![
        entry("a", Some(info("A", "1", "2001", "Drama,Action")), 3, 300),
        entry("b", Some(info("B", "2", "1999", "Drama")), 1, 500),
        entry("c", None, 2, 100),
    ];
    let by = |field| select_files(&files, &query(None, None, Some((Direction::Ascending, field))));
    assert_eq!(by(FileField::Pages), vec![1, 2, 0]);
    assert_eq!(by(FileField::Size), vec![2, 0, 1]);
    assert_eq!(by(FileField::Year), vec![2, 1, 0]);
    assert_eq!(by(FileField::Genre), vec![2, 1, 0]);
    let desc = select_files(&files, &query(None, None, Some((Direction::Descending, FileField::Size))));
    assert_eq!(desc, vec![1, 0, 2]);
}

#[test]
fn absent_genre_filters_everything_out() {
    let files = vec![
        entry("a", Some(info("A", "1", "2001", "Drama")), 1, 1),
        entry("b", Some(info("B", "2", "2002", "Action,Drama")), 1, 1),
        entry("c", None, 1, 1),
    ];
    assert!(select_files(&files, &query(Some("Horror"), None, None)).is_empty());
    let mut all = select_files(&files, &IndexQuery::default());
    all.sort();
    assert_eq!(all, vec![0, 1, 2]);
    assert_eq!(select_files(&files, &query(Some("Drama"), None, None)), vec![0, 1]);
    assert_eq!(select_files(&files, &query(Some("Action"), Some("2002"), None)), vec![1]);
    assert_eq!(select_files(&files, &query(Some("Action"), Some("2001"), None)), Vec::<usize>::new());
}

#[test]
fn archive_without_metadata_uses_file_stem() {
    let names = vec!["p01.jpg".to_string(), "notes.txt".to_string(), "p02.jpg".to_string()];
    let f = File::from_archive(
        "dir/My Comic.cbz".to_string(),
        "/srv/dir/My Comic.cbz".to_string(),
        "My Comic".to_string(),
        &names,
        None,
        4096,
    );
    assert_eq!(f.title, "My Comic");
    assert!(f.info.is_none());
    assert_eq!(f.pages, 2);
    assert_eq!(f.size, 4096);
    assert_eq!(f.number(), "");
    assert_eq!(f.year(), "");
    assert!(f.genres().is_empty());
    assert_eq!(f.name(), " My Comic");
    assert!(matches_query(&f, &IndexQuery::default()));
    assert!(!matches_query(&f, &query(Some(""), None, None)));
    assert!(!matches_query(&f, &query(None, Some(""), None)));
    assert!(!matches_query(&f, &query(Some("Drama"), None, None)));
}

#[test]
fn archive_with_metadata_uses_its_title() {
    let names = vec!["ComicInfo.xml".to_string(), "a.jpg".to_string()];
    let f = File::from_archive(
        "x.cbz".to_string(),
        "/srv/x.cbz".to_string(),
        "x".to_string(),
        &names,
        Some(info("The Title", "12", "1990", "Drama")),
        10,
    );
    assert_eq!(f.title, "The Title");
    assert_eq!(f.pages, 1);
    assert_eq!(f.name(), "12 The Title");
    assert_eq!(f.genres(), &["Drama".to_string()][..]);
    assert_eq!(f.view_url(), "/view/x%2Ecbz");
}

#[test]
fn facets_are_sorted_and_distinct() {
    let files = vec![
        entry("a", Some(info("A", "1", "2001", "Drama,Action")), 1, 1),
        entry("b", Some(info("B", "2", "", "Drama")), 1, 1),
        entry("c", None, 1, 1),
        entry("d", Some(info("D", "3", "1999", "Comedy")), 1, 1),
        entry("e", Some(info("E", "4", "2001", "Action")), 1, 1),
    ];
    let state = AppState::from_files(files);
    assert_eq!(state.files.len(), 5);
    assert_eq!(state.all_years, vec!["1999".to_string(), "2001".to_string()]);
    assert_eq!(
        state.all_genres,
        vec!["Action".to_string(), "Comedy".to_string(), "Drama".to_string()]
    );
}

#[test]
fn empty_genre_field_puts_empty_string_in_facet() {
    let files = vec![
        entry("a", Some(info("A", "1", "2001", "")), 1, 1),
        entry("b", Some(info("B", "2", "2002", "Drama")), 1, 1),
    ];
    let state = AppState::from_files(files);
    assert_eq!(state.all_genres, vec!["".to_string(), "Drama".to_string()]);
    assert_eq!(select_files(&state.files, &query(Some(""), None, None)), vec![0]);
}

#[test]
fn empty_catalog() {
    let state = AppState::from_files(Vec::new());
    assert!(state.all_years.is_empty());
    assert!(state.all_genres.is_empty());
    assert!(select_files(&state.files, &IndexQuery::default()).is_empty());
}
