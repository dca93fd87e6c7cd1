use vstd::prelude::*;

use crate::WorkErr;
use crate::text::{concatenated, same_text};

verus! {

/// A link shown with a category: its text and where it points.
#[derive(Debug)]
pub struct Link {
    pub text: String,
    pub url: String,
}

pub struct LinkView {
    pub text: Seq<char>,
    pub url: Seq<char>,
}

impl View for Link {
    type V = LinkView;

    open spec fn view(&self) -> LinkView {
        LinkView { text: self.text@, url: self.url@ }
    }
}

impl Clone for Link {
    fn clone(&self) -> (r: Self)
        ensures
            r@ == self@,
    {
        Link { text: self.text.clone(), url: self.url.clone() }
    }
}

pub open spec fn links_view(v: Seq<Link>) -> Seq<LinkView> {
    v.map_values(|l: Link| l@)
}

/// A tab as configured: the top-level grouping shown to users.
#[derive(Clone, Debug)]
pub struct Tab {
    pub id: String,
    pub title: String,
    pub description: String,
}

/// A category as configured: a unit of work backed by one upstream repository.
#[derive(Clone, Debug)]
pub struct Category {
    pub id: String,
    pub title: String,
    pub description: String,
    pub repository: String,
    pub labels: Vec<String>,
    pub links: Vec<Link>,
    pub tags: Vec<String>,
}

/// The association of a category with a tab, with its own query filters.
#[derive(Clone, Debug)]
pub struct TabCategory {
    pub tab: String,
    pub category: String,
    pub labels: Vec<String>,
    pub negative_labels: Option<Vec<String>>,
    pub milestone: Option<String>,
    pub link: Option<Link>,
}

/// The configuration that shapes the output: tabs in their declared order, categories,
/// and the associations between them in their declared order.
///
/// A category id that is declared twice names the later declaration.
#[derive(Clone, Debug)]
pub struct StructuralData {
    pub tabs: Vec<Tab>,
    pub categories: Vec<Category>,
    pub tab_category: Vec<TabCategory>,
}

/// Loads the contents of a configuration file from somewhere.
pub trait FetchFile {
    fn fetch_file(&self, filename: &str) -> Result<String, WorkErr>;
}

/// The category that `id` names: the last one declared with that id.
pub open spec fn category_of(cats: Seq<Category>, id: Seq<char>) -> Option<Category>
    decreases cats.len(),
{
    if cats.len() == 0 {
        None
    } else if cats.last().id@ == id {
        Some(cats.last())
    } else {
        category_of(cats.drop_last(), id)
    }
}

pub open spec fn tab_declared(tabs: Seq<Tab>, id: Seq<char>) -> bool {
    exists|i: int| 0 <= i < tabs.len() && (#[trigger] tabs[i]).id@ == id
}

/// Every association names a declared tab and a declared category.
pub open spec fn references_resolve(
    tabs: Seq<Tab>,
    cats: Seq<Category>,
    tcs: Seq<TabCategory>,
) -> bool {
    forall|j: int|
        0 <= j < tcs.len() ==> tab_declared(tabs, (#[trigger] tcs[j]).tab@) && category_of(
            cats,
            tcs[j].category@,
        ) is Some
}

/// Where the category that `id` names stands in `cats`, if any is declared.
pub fn category_index(cats: &Vec<Category>, id: &str) -> (r: Option<usize>)
    ensures
        r is None <==> category_of(cats@, id@) is None,
        r matches Some(k) ==> k < cats@.len() && category_of(cats@, id@) == Some(cats@[k as int]),
{
    let mut k = cats.len();
    assert(cats@.subrange(0, k as int) =~= cats@);
    while k > 0
        invariant
            k <= cats@.len(),
            category_of(cats@, id@) == category_of(cats@.subrange(0, k as int), id@),
        decreases k,
    {
        let ghost prefix = cats@.subrange(0, k as int);
        if same_text(cats[k - 1].id.as_str(), id) {
            return Some(k - 1);
        }
        assert(prefix.drop_last() =~= cats@.subrange(0, k - 1));
        k = k - 1;
    }
    None
}

fn tab_index_exists(tabs: &Vec<Tab>, id: &str) -> (r: bool)
    ensures
        r == tab_declared(tabs@, id@),
{
    let mut i: usize = 0;
    while i < tabs.len()
        invariant
            i <= tabs@.len(),
            forall|m: int| 0 <= m < i ==> (#[trigger] tabs@[m]).id@ != id@,
        decreases tabs@.len() - i,
    {
        if same_text(tabs[i].id.as_str(), id) {
            return true;
        }
        i = i + 1;
    }
    false
}

impl StructuralData {
    /// Assembles structural data from its three declared lists. Fails when an association
    /// names a tab or a category that is not declared.
    pub fn from_parts(
        tabs: Vec<Tab>,
        categories: Vec<Category>,
        tab_category: Vec<TabCategory>,
    ) -> (r: Result<StructuralData, WorkErr>)
        ensures
            r is Ok <==> references_resolve(tabs@, categories@, tab_category@),
            r matches Ok(d) ==> d.tabs@ == tabs@ && d.categories@ == categories@
                && d.tab_category@ == tab_category@,
    {
        let mut j: usize = 0;
        while j < tab_category.len()
            invariant
                j <= tab_category@.len(),
                references_resolve(tabs@, categories@, tab_category@.subrange(0, j as int)),
            decreases tab_category@.len() - j,
        {
            let tc = &tab_category[j];
            if !tab_index_exists(&tabs, tc.tab.as_str()) {
                return Err(WorkErr(concatenated("unknown tab: ", tc.tab.as_str())));
            }
            if category_index(&categories, tc.category.as_str()).is_none() {
                return Err(WorkErr(concatenated("unknown category: ", tc.category.as_str())));
            }
            proof {
                let next = tab_category@.subrange(0, j + 1);
                assert forall|m: int| 0 <= m < next.len() implies tab_declared(
                    tabs@,
                    (#[trigger] next[m]).tab@,
                ) && category_of(categories@, next[m].category@) is Some by {
                    if m < j {
                        assert(next[m] == tab_category@.subrange(0, j as int)[m]);
                    }
                }
            }
            j = j + 1;
        }
        assert(tab_category@.subrange(0, j as int) =~= tab_category@);
        Ok(StructuralData { tabs, categories, tab_category })
    }
}

} // verus!
