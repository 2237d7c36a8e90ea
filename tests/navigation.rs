use cbz_server::{find_file, page_links, page_order, resolve_page, select_pages, File, PageResolution};

fn names(v: &[&str]) -> Vec<String> {
    v.iter().map(|s| s.to_string()).collect()
}

fn three_pages() -> Vec<String> {
    select_pages(&names(&["p02.jpg", "ComicInfo.xml", "p03.jpg", "p01.jpg"]))
}

#[test]
fn pages_are_sorted_jpg_entries() {
    assert_eq!(three_pages(), names(&["p01.jpg", "p02.jpg", "p03.jpg"]));
    assert_eq!(select_pages(&names(&["b.png", "a.txt"])), Vec::<String>::new());
    assert_eq!(select_pages(&names(&["b.jpg", "B.jpg", "a/c.jpg", "b.jpg"])), names(&["B.jpg", "a/c.jpg", "b.jpg", "b.jpg"]));
}

#[test]
fn base_path_shows_first_page() {
    let pages = three_pages();
    let r = resolve_page("comics/x.cbz", "comics/x.cbz", &pages, false);
    assert_eq!(r, PageResolution::ShowPage(0));
    let links = page_links("comics/x.cbz", &pages, 0);
    assert_eq!(links.image_url, "/view/comics%2Fx%2Ecbz/p01%2Ejpg?raw");
    assert_eq!(links.previous_url, None);
    assert_eq!(links.next_url, Some("/view/comics%2Fx%2Ecbz/p02%2Ejpg".to_string()));
    // the raw flag only applies to a named page
    assert_eq!(resolve_page("comics/x.cbz", "comics/x.cbz", &pages, true), PageResolution::ShowPage(0));
}

#[test]
fn middle_and_last_pages_link_to_neighbours() {
    let pages = three_pages();
    assert_eq!(resolve_page("x.cbz", "x.cbz/p02.jpg", &pages, false), PageResolution::ShowPage(1));
    let links = page_links("x.cbz", &pages, 1);
    assert_eq!(links.previous_url, Some("/view/x%2Ecbz/p01%2Ejpg".to_string()));
    assert_eq!(links.next_url, Some("/view/x%2Ecbz/p03%2Ejpg".to_string()));
    assert_eq!(resolve_page("x.cbz", "x.cbz/p03.jpg", &pages, false), PageResolution::ShowPage(2));
    let links = page_links("x.cbz", &pages, 2);
    assert_eq!(links.previous_url, Some("/view/x%2Ecbz/p02%2Ejpg".to_string()));
    assert_eq!(links.next_url, None);
}

#[test]
fn raw_request_serves_the_named_page() {
    let pages = three_pages();
    assert_eq!(
        resolve_page("x.cbz", "x.cbz/p03.jpg", &pages, true),
        PageResolution::ServeRawImage("p03.jpg".to_string())
    );
}

#[test]
fn unknown_or_non_page_sub_paths_are_not_found() {
    let pages = three_pages();
    assert_eq!(resolve_page("x.cbz", "x.cbz/ComicInfo.xml", &pages, false), PageResolution::NotFound);
    assert_eq!(resolve_page("x.cbz", "x.cbz/p04.jpg", &pages, false), PageResolution::NotFound);
    assert_eq!(resolve_page("x.cbz", "x.cbz/p04.jpg", &pages, true), PageResolution::NotFound);
    assert_eq!(resolve_page("x.cbz", "x.cbzp01.jpg", &pages, false), PageResolution::NotFound);
    assert_eq!(resolve_page("x.cbz", "x.cbz/", &pages, false), PageResolution::NotFound);
    assert_eq!(resolve_page("x.cbz", "x.cbz", &Vec::new(), false), PageResolution::NotFound);
}

#[test]
fn request_path_selects_first_prefix_match() {
    let entry = |rel: &str| File::from_archive(rel.to_string(), format!("/srv/{}", rel), "s".to_string(), &Vec::new(), None, 0);
    let files = vec![entry("a/one.cbz"), entry("b/two.cbz"), entry("b/two.cbz.cbz")];
    assert_eq!(find_file(&files, "b/two.cbz/p01.jpg"), Some(1));
    assert_eq!(find_file(&files, "b/two.cbz.cbz"), Some(1));
    assert_eq!(find_file(&files, "a/one.cbz"), Some(0));
    assert_eq!(find_file(&files, "c/three.cbz"), None);
    assert_eq!(find_file(&Vec::new(), "a"), None);
}

#[test]
fn page_order_lists_page_positions_by_name() {
    let list = names(&["p02.jpg", "ComicInfo.xml", "p01.jpg", "p02.jpg", "cover.png"]);
    assert_eq!(page_order(&list), vec![2, 0, 3]);
    assert_eq!(page_order(&Vec::new()), Vec::<usize>::new());
}
