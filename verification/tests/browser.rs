use dunnopc::browser::brave;
use dunnopc::browser::chromium::{
    find_page_target, list_pages, PageInfo, PageInfoError, PageLookupError, TargetRecord,
};

fn target(id: &str, kind: &str, title: &str, url: &str) -> TargetRecord {
    TargetRecord {
        target_id: id.to_string(),
        target_type: kind.to_string(),
        title: title.to_string(),
        url: url.to_string(),
    }
}

fn targets() -> Vec<TargetRecord> {
    vec![
        target("sw", "service_worker", "Docs", "https://docs.example/sw.js"),
        target("A", "page", "Docs", "https://docs.example/"),
        target("B", "page", "Mail", "https://mail.example/"),
        target("C", "iframe", "Mail", "https://mail.example/frame"),
        target("D", "page", "Mail", "https://mail.example/inbox"),
    ]
}

fn some(s: &str) -> Option<String> {
    Some(s.to_string())
}

fn info(id: Option<&str>, url: Option<&str>, title: Option<&str>) -> PageInfo {
    PageInfo {
        id: id.map(|s| s.to_string()),
        url: url.map(|s| s.to_string()),
        title: title.map(|s| s.to_string()),
    }
}

#[test]
fn page_info_needs_at_least_one_part() {
    let err = PageInfo::new(None, None, None).unwrap_err();
    assert_eq!(err, PageInfoError::NoPageInfo);
    assert_eq!(err.message(), "No page info provided");
    let p = PageInfo::new(None, None, some("Mail")).unwrap();
    assert_eq!(p.title, some("Mail"));
    assert_eq!(p.id, None);
    assert_eq!(p.url, None);
    let p = PageInfo::new(some("A"), some("u"), None).unwrap();
    assert_eq!(p.id, some("A"));
    assert_eq!(p.url, some("u"));
    assert_eq!(p.title, None);
}

#[test]
fn list_pages_keeps_page_targets_in_order() {
    let pages = list_pages(&targets());
    assert_eq!(pages.len(), 3);
    assert_eq!(pages[0].id, some("A"));
    assert_eq!(pages[0].url, some("https://docs.example/"));
    assert_eq!(pages[0].title, some("Docs"));
    assert_eq!(pages[1].id, some("B"));
    assert_eq!(pages[2].id, some("D"));
    assert_eq!(pages[2].url, some("https://mail.example/inbox"));
    assert_eq!(pages[2].title, some("Mail"));
}

#[test]
fn list_pages_of_no_targets_is_empty() {
    assert!(list_pages(&vec![]).is_empty());
    assert!(brave::list_pages(&vec![target("x", "iframe", "t", "u")]).is_empty());
}

#[test]
fn brave_list_pages_gives_id_title_url() {
    let pages = brave::list_pages(&targets());
    assert_eq!(
        pages,
        vec![
            ("A".to_string(), "Docs".to_string(), "https://docs.example/".to_string()),
            ("B".to_string(), "Mail".to_string(), "https://mail.example/".to_string()),
            ("D".to_string(), "Mail".to_string(), "https://mail.example/inbox".to_string()),
        ]
    );
}

#[test]
fn find_by_id_wins_over_url_and_title() {
    let t = targets();
    // the id names D although the url names B
    assert_eq!(find_page_target(&t, &info(Some("D"), Some("https://mail.example/"), None)), Ok(4));
    // a service worker is not a page, even when its id matches
    assert_eq!(
        find_page_target(&t, &info(Some("sw"), None, None)),
        Err(PageLookupError::NoMatchingPage)
    );
}

#[test]
fn find_by_url_when_no_id() {
    let t = targets();
    assert_eq!(find_page_target(&t, &info(None, Some("https://mail.example/"), Some("Docs"))), Ok(2));
    // the iframe has this url but is not a page
    assert_eq!(
        find_page_target(&t, &info(None, Some("https://mail.example/frame"), None)),
        Err(PageLookupError::NoMatchingPage)
    );
}

#[test]
fn find_by_title_takes_the_first_page() {
    let t = targets();
    assert_eq!(find_page_target(&t, &info(None, None, Some("Mail"))), Ok(2));
    // the service worker titled "Docs" comes first but is not a page
    assert_eq!(find_page_target(&t, &info(None, None, Some("Docs"))), Ok(1));
}

#[test]
fn find_with_an_empty_description_fails() {
    assert_eq!(
        find_page_target(&targets(), &info(None, None, None)),
        Err(PageLookupError::NoMatchingPage)
    );
}

#[test]
fn every_listed_page_is_found_again() {
    let t = targets();
    for p in list_pages(&t) {
        let i = find_page_target(&t, &p).unwrap();
        assert_eq!(Some(t[i].target_id.clone()), p.id);
    }
}
