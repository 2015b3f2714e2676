//! Pages of the Brave browser as `(target id, title, url)` tuples.

use vstd::prelude::*;
use crate::browser::chromium::{TargetRecord, PageInfo, is_page, page_infos};

verus! {

/// The `(target id, title, url)` of a target.
pub open spec fn page_tuple_of(t: TargetRecord) -> (String, String, String) {
    (t.target_id, t.title, t.url)
}

/// The tuples of the page targets of `s`, in order.
pub open spec fn page_tuples(s: Seq<TargetRecord>) -> Seq<(String, String, String)>
    decreases s.len(),
{
    if s.len() == 0 {
        Seq::empty()
    } else if is_page(s.last()) {
        page_tuples(s.drop_last()).push(page_tuple_of(s.last()))
    } else {
        page_tuples(s.drop_last())
    }
}

/// Keeps the targets of type `page` and returns tuples of
/// `(target_id, title, url)`, in order.
pub fn list_pages(targets: &Vec<TargetRecord>) -> (pages: Vec<(String, String, String)>)
    ensures
        pages@ == page_tuples(targets@),
{
    let page = String::from_str("page");
    let mut pages: Vec<(String, String, String)> = Vec::new();
    let mut i: usize = 0;
    while i < targets.len()
        invariant
            i <= targets@.len(),
            page@ == "page"@,
            pages@ == page_tuples(targets@.take(i as int)),
        decreases targets@.len() - i,
    {
        let t = &targets[i];
        proof {
            assert(targets@.take(i + 1).drop_last() =~= targets@.take(i as int));
            assert(targets@.take(i + 1).last() == *t);
        }
        if t.target_type == page {
            pages.push((t.target_id.clone(), t.title.clone(), t.url.clone()));
        }
        i = i + 1;
    }
    assert(targets@.take(i as int) =~= targets@);
    pages
}

/// The Brave tuples and the Chromium page descriptions list the same pages
/// in the same order: the `k`-th tuple `(id, title, url)` is the `k`-th
/// description with that id, URL and title.
pub proof fn law_tuples_agree_with_page_infos(targets: Seq<TargetRecord>, k: int)
    ensures
        page_tuples(targets).len() == page_infos(targets).len(),
        0 <= k < page_tuples(targets).len() ==> page_infos(targets)[k] == (PageInfo {
            id: Some(page_tuples(targets)[k].0),
            url: Some(page_tuples(targets)[k].2),
            title: Some(page_tuples(targets)[k].1),
        }),
    decreases targets.len(),
{
    if targets.len() > 0 {
        law_tuples_agree_with_page_infos(targets.drop_last(), k);
    }
}

/// [`list_pages`] keeps every target of type `page`, in order, and nothing
/// else, each as its `(target_id, title, url)`.
pub proof fn law_list_pages_keeps_every_page(targets: Seq<TargetRecord>)
    ensures
        page_tuples(targets) == targets.filter(|t: TargetRecord| t.target_type@ == "page"@).map_values(
            |t: TargetRecord| (t.target_id, t.title, t.url),
        ),
        page_tuples(targets).len() == targets.filter(|t: TargetRecord| t.target_type@ == "page"@).len(),
    decreases targets.len(),
{
    reveal(Seq::filter);
    let pred = |t: TargetRecord| t.target_type@ == "page"@;
    let f = |t: TargetRecord| (t.target_id, t.title, t.url);
    if targets.len() > 0 {
        law_list_pages_keeps_every_page(targets.drop_last());
    }
    assert(page_tuples(targets) =~= targets.filter(pred).map_values(f));
}

} // verus!
