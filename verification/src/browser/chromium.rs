//! Pages of a Chromium-based browser: describing them, listing them, and
//! selecting the one that a description names.

use vstd::prelude::*;

verus! {

/// A browser target as the DevTools endpoint reports it.
#[derive(Debug)]
pub struct TargetRecord {
    pub target_id: String,
    /// The target's kind, such as `page`, `iframe` or `service_worker`.
    pub target_type: String,
    pub title: String,
    pub url: String,
}

/// The target is a page (a tab).
pub open spec fn is_page(t: TargetRecord) -> bool {
    t.target_type@ == "page"@
}

/// A description of a page: any of its id, its URL and its title.
#[derive(Debug)]
pub struct PageInfo {
    pub id: Option<String>,
    pub url: Option<String>,
    pub title: Option<String>,
}

/// Why a page description was refused.
#[derive(Debug, PartialEq, Eq, Structural)]
pub enum PageInfoError {
    /// None of id, URL and title was given.
    NoPageInfo,
}

impl PageInfoError {
    /// The error's message.
    pub fn message(&self) -> (text: String)
        ensures
            match self {
                PageInfoError::NoPageInfo => text@ == "No page info provided"@,
            },
    {
        match self {
            PageInfoError::NoPageInfo => String::from_str("No page info provided"),
        }
    }
}

/// Why no page could be selected.
#[derive(Debug, PartialEq, Eq, Structural)]
pub enum PageLookupError {
    /// No page target matches the description.
    NoMatchingPage,
}

impl PageInfo {
    /// Describes a page by any of its id, URL and title; at least one must
    /// be given.
    pub fn new(id: Option<String>, url: Option<String>, title: Option<String>) -> (info: Result<
        Self,
        PageInfoError,
    >)
        ensures
            match info {
                Ok(p) => p == (PageInfo { id, url, title }) && !(id is None && url is None
                    && title is None),
                Err(e) => e == PageInfoError::NoPageInfo && id is None && url is None
                    && title is None,
            },
    {
        match (&id, &url, &title) {
            (None, None, None) => Err(PageInfoError::NoPageInfo),
            _ => Ok(PageInfo { id, url, title }),
        }
    }
}

/// The description names the target: by id if an id is given, else by URL if
/// a URL is given, else by title if a title is given; a description with
/// none of them names no target.
pub open spec fn page_matches(info: PageInfo, t: TargetRecord) -> bool {
    match info.id {
        Some(id) => id@ == t.target_id@,
        None => match info.url {
            Some(url) => url@ == t.url@,
            None => match info.title {
                Some(title) => title@ == t.title@,
                None => false,
            },
        },
    }
}

/// The target is a page that the description names.
pub open spec fn selects(info: PageInfo, t: TargetRecord) -> bool {
    is_page(t) && page_matches(info, t)
}

/// The description of a page target, with all three parts given.
pub open spec fn page_info_of(t: TargetRecord) -> PageInfo {
    PageInfo { id: Some(t.target_id), url: Some(t.url), title: Some(t.title) }
}

/// The descriptions of the page targets of `s`, in order.
pub open spec fn page_infos(s: Seq<TargetRecord>) -> Seq<PageInfo>
    decreases s.len(),
{
    if s.len() == 0 {
        Seq::empty()
    } else if is_page(s.last()) {
        page_infos(s.drop_last()).push(page_info_of(s.last()))
    } else {
        page_infos(s.drop_last())
    }
}

/// The string `page`.
fn page_type() -> (s: String)
    ensures
        s@ == "page"@,
{
    String::from_str("page")
}

fn target_matches(info: &PageInfo, t: &TargetRecord) -> (b: bool)
    ensures
        b == page_matches(*info, *t),
{
    match (&info.id, &info.url, &info.title) {
        (Some(id), _, _) => *id == t.target_id,
        (None, Some(url), _) => *url == t.url,
        (None, None, Some(title)) => *title == t.title,
        (None, None, None) => false,
    }
}

/// Describes every page target, in order; other targets are left out.
pub fn list_pages(targets: &Vec<TargetRecord>) -> (pages: Vec<PageInfo>)
    ensures
        pages@ == page_infos(targets@),
{
    let page = page_type();
    let mut pages: Vec<PageInfo> = Vec::new();
    let mut i: usize = 0;
    while i < targets.len()
        invariant
            i <= targets@.len(),
            page@ == "page"@,
            pages@ == page_infos(targets@.take(i as int)),
        decreases targets@.len() - i,
    {
        let t = &targets[i];
        proof {
            assert(targets@.take(i + 1).drop_last() =~= targets@.take(i as int));
            assert(targets@.take(i + 1).last() == *t);
        }
        if t.target_type == page {
            match PageInfo::new(
                Some(t.target_id.clone()),
                Some(t.url.clone()),
                Some(t.title.clone()),
            ) {
                Ok(p) => pages.push(p),
                Err(_) => {},
            }
        }
        i = i + 1;
    }
    assert(targets@.take(i as int) =~= targets@);
    pages
}

/// The position of the first page target that the description names.
pub fn find_page_target(targets: &Vec<TargetRecord>, page_info: &PageInfo) -> (found: Result<
    usize,
    PageLookupError,
>)
    ensures
        match found {
            Ok(i) => i < targets@.len() && selects(*page_info, targets@[i as int]) && forall|
                j: int,
            |
                0 <= j < i ==> !selects(*page_info, #[trigger] targets@[j]),
            Err(e) => e == PageLookupError::NoMatchingPage && forall|j: int|
                0 <= j < targets@.len() ==> !selects(*page_info, #[trigger] targets@[j]),
        },
{
    let page = page_type();
    let mut i: usize = 0;
    while i < targets.len()
        invariant
            i <= targets@.len(),
            page@ == "page"@,
            forall|j: int| 0 <= j < i ==> !selects(*page_info, #[trigger] targets@[j]),
        decreases targets@.len() - i,
    {
        if targets[i].target_type == page && target_matches(page_info, &targets[i]) {
            return Ok(i);
        }
        i = i + 1;
    }
    Err(PageLookupError::NoMatchingPage)
}

/// Every page that [`list_pages`] describes is selected again by its
/// description: some page target, with that very id, matches it, so
/// [`find_page_target`] succeeds on it.
pub proof fn law_listed_page_found(targets: Seq<TargetRecord>, k: int)
    requires
        0 <= k < page_infos(targets).len(),
    ensures
        exists|j: int|
            0 <= j < targets.len() && #[trigger] selects(page_infos(targets)[k], targets[j])
                && Some(targets[j].target_id) == page_infos(targets)[k].id,
    decreases targets.len(),
{
    let p = targets.drop_last();
    let j = targets.len() - 1;
    if k < page_infos(p).len() {
        law_listed_page_found(p, k);
        let i = choose|i: int|
            0 <= i < p.len() && #[trigger] selects(page_infos(p)[k], p[i]) && Some(p[i].target_id)
                == page_infos(p)[k].id;
        assert(targets[i] == p[i]);
        assert(selects(page_infos(targets)[k], targets[i]));
    } else {
        assert(selects(page_infos(targets)[k], targets[j]));
    }
}

/// Every description that [`list_pages`] gives names a page: it has an id,
/// a URL and a title, so [`PageInfo::new`] accepts it.
pub proof fn law_listed_pages_complete(targets: Seq<TargetRecord>, k: int)
    requires
        0 <= k < page_infos(targets).len(),
    ensures
        page_infos(targets)[k].id is Some,
        page_infos(targets)[k].url is Some,
        page_infos(targets)[k].title is Some,
    decreases targets.len(),
{
    if k < page_infos(targets.drop_last()).len() {
        law_listed_pages_complete(targets.drop_last(), k);
    }
}

/// A description with neither id, URL nor title selects no target.
pub proof fn law_empty_description_selects_nothing(info: PageInfo, t: TargetRecord)
    requires
        info.id is None,
        info.url is None,
        info.title is None,
    ensures
        !selects(info, t),
{
}

/// A description that gives an id selects exactly the page targets with
/// that id, whatever URL and title it also gives.
pub proof fn law_id_selects_by_id(info: PageInfo, t: TargetRecord, id: String)
    requires
        info.id == Some(id),
    ensures
        selects(info, t) <==> (t.target_type@ == "page"@ && t.target_id@ == id@),
{
}

/// A description without an id that gives a URL selects exactly the page
/// targets at that URL, whatever title it also gives.
pub proof fn law_url_selects_by_url(info: PageInfo, t: TargetRecord, url: String)
    requires
        info.id is None,
        info.url == Some(url),
    ensures
        selects(info, t) <==> (t.target_type@ == "page"@ && t.url@ == url@),
{
}

/// A description that gives only a title selects exactly the page targets
/// with that title.
pub proof fn law_title_selects_by_title(info: PageInfo, t: TargetRecord, title: String)
    requires
        info.id is None,
        info.url is None,
        info.title == Some(title),
    ensures
        selects(info, t) <==> (t.target_type@ == "page"@ && t.title@ == title@),
{
}

/// [`list_pages`] keeps every target of type `page`, in order, and nothing
/// else, each described by its id, URL and title.
pub proof fn law_list_pages_keeps_every_page(targets: Seq<TargetRecord>)
    ensures
        page_infos(targets) == targets.filter(|t: TargetRecord| t.target_type@ == "page"@).map_values(
            |t: TargetRecord| PageInfo { id: Some(t.target_id), url: Some(t.url), title: Some(t.title) },
        ),
        page_infos(targets).len() == targets.filter(|t: TargetRecord| t.target_type@ == "page"@).len(),
    decreases targets.len(),
{
    reveal(Seq::filter);
    let pred = |t: TargetRecord| t.target_type@ == "page"@;
    let f = |t: TargetRecord| PageInfo { id: Some(t.target_id), url: Some(t.url), title: Some(t.title) };
    if targets.len() > 0 {
        law_list_pages_keeps_every_page(targets.drop_last());
        assert(page_infos(targets) =~= targets.filter(pred).map_values(f));
    } else {
        assert(page_infos(targets) =~= targets.filter(pred).map_values(f));
    }
}

/// Every target of type `page` is listed by [`list_pages`], with its id, URL
/// and title.
pub proof fn law_every_page_listed(targets: Seq<TargetRecord>, j: int)
    requires
        0 <= j < targets.len(),
        targets[j].target_type@ == "page"@,
    ensures
        exists|k: int|
            0 <= k < page_infos(targets).len() && #[trigger] page_infos(targets)[k] == (PageInfo {
                id: Some(targets[j].target_id),
                url: Some(targets[j].url),
                title: Some(targets[j].title),
            }),
    decreases targets.len(),
{
    let p = targets.drop_last();
    if j < targets.len() - 1 {
        assert(p[j] == targets[j]);
        law_every_page_listed(p, j);
        let k = choose|k: int|
            0 <= k < page_infos(p).len() && #[trigger] page_infos(p)[k] == (PageInfo {
                id: Some(p[j].target_id),
                url: Some(p[j].url),
                title: Some(p[j].title),
            });
        assert(page_infos(targets)[k] == page_infos(p)[k]);
    } else {
        let k = page_infos(p).len() as int;
        assert(page_infos(targets)[k] == page_info_of(targets[j]));
    }
}

} // verus!
