use vstd::prelude::*;

use crate::data::{category_index, category_of, links_view, Link, LinkView, StructuralData, TabCategory};
use crate::github::{clone_issues, issues_view, Issue, IssueView};
use crate::data::references_resolve;
use crate::issues::{lemma_no_empty_entry, IssueData};
use crate::text::{clone_strs, concatenated, insert_sorted, same_text, sorted_strict, strs};
use crate::WorkErr;

verus! {

/// The served document: one entry per configured tab, in the configured order.
#[derive(Debug)]
pub struct Blob {
    pub tabs: Vec<Tab>,
}

/// A tab of the served document.
#[derive(Debug)]
pub struct Tab {
    pub id: String,
    pub title: String,
    pub description: String,
    pub categories: Vec<Category>,
    pub tags: Vec<String>,
}

/// A category as shown under a tab, with the issues fetched for it.
#[derive(Debug)]
pub struct Category {
    pub id: String,
    pub title: String,
    pub description: String,
    pub links: Vec<Link>,
    pub tags: Vec<String>,
    pub issues: Vec<Issue>,
}

pub struct CategoryView {
    pub id: Seq<char>,
    pub title: Seq<char>,
    pub description: Seq<char>,
    pub links: Seq<LinkView>,
    pub tags: Seq<Seq<char>>,
    pub issues: Seq<IssueView>,
}

pub struct TabView {
    pub id: Seq<char>,
    pub title: Seq<char>,
    pub description: Seq<char>,
    pub categories: Seq<CategoryView>,
    pub tags: Seq<Seq<char>>,
}

impl View for Category {
    type V = CategoryView;

    open spec fn view(&self) -> CategoryView {
        CategoryView {
            id: self.id@,
            title: self.title@,
            description: self.description@,
            links: links_view(self.links@),
            tags: strs(self.tags@),
            issues: issues_view(self.issues@),
        }
    }
}

pub open spec fn categories_view(v: Seq<Category>) -> Seq<CategoryView> {
    v.map_values(|c: Category| c@)
}

impl View for Tab {
    type V = TabView;

    open spec fn view(&self) -> TabView {
        TabView {
            id: self.id@,
            title: self.title@,
            description: self.description@,
            categories: categories_view(self.categories@),
            tags: strs(self.tags@),
        }
    }
}

impl View for Blob {
    type V = Seq<TabView>;

    open spec fn view(&self) -> Seq<TabView> {
        self.tabs@.map_values(|t: Tab| t@)
    }
}

impl Clone for Category {
    fn clone(&self) -> (r: Self)
        ensures
            r@ == self@,
    {
        let links = self.links.clone();
        assert(links_view(links@) =~= links_view(self.links@));
        Category {
            id: self.id.clone(),
            title: self.title.clone(),
            description: self.description.clone(),
            links,
            tags: clone_strs(&self.tags),
            issues: clone_issues(&self.issues),
        }
    }
}

impl Clone for Tab {
    fn clone(&self) -> (r: Self)
        ensures
            r@ == self@,
    {
        let categories = self.categories.clone();
        assert(categories_view(categories@) =~= categories_view(self.categories@));
        Tab {
            id: self.id.clone(),
            title: self.title.clone(),
            description: self.description.clone(),
            categories,
            tags: clone_strs(&self.tags),
        }
    }
}

/// The link to a category's upstream repository.
pub open spec fn repository_link(repository: Seq<char>) -> LinkView {
    LinkView { text: "repository"@, url: "https://github.com/"@ + repository }
}

/// The links of a shown category: the association's own link if it has one, then the
/// repository link, then the category's links.
pub open spec fn merged_links(tc: TabCategory, cat: crate::data::Category) -> Seq<LinkView> {
    let own = match tc.link {
        Some(l) => seq![l@],
        None => Seq::empty(),
    };
    own + seq![repository_link(cat.repository@)] + links_view(cat.links@)
}

/// How association `tc`, whose category is `cat`, is shown with `issues`.
pub open spec fn category_view_of(
    tc: TabCategory,
    cat: crate::data::Category,
    issues: Seq<IssueView>,
) -> CategoryView {
    CategoryView {
        id: cat.id@,
        title: cat.title@,
        description: cat.description@,
        links: merged_links(tc, cat),
        tags: strs(cat.tags@),
        issues,
    }
}

/// The union of the tags of `cats`.
pub open spec fn tag_set(cats: Seq<CategoryView>) -> Set<Seq<char>>
    decreases cats.len(),
{
    if cats.len() == 0 {
        Set::empty()
    } else {
        tag_set(cats.drop_last()).union(cats.last().tags.to_set())
    }
}

/// Whether association `tc` is shown under tab `tab`: it is one of the tab's, and issues
/// are stored for it.
pub open spec fn shows(data: IssueData, tab: Seq<char>) -> spec_fn(TabCategory) -> bool {
    |tc: TabCategory| tc.tab@ == tab && data.lookup(tc.tab@, tc.category@) is Some
}

/// The associations shown under tab `tab`, in their declared order.
pub open spec fn shown(sd: StructuralData, data: IssueData, tab: Seq<char>) -> Seq<TabCategory> {
    sd.tab_category@.filter(shows(data, tab))
}

/// An association that stops the build: its category is not declared, or an empty list of
/// issues is stored for it.
pub open spec fn breaks(sd: StructuralData, data: IssueData, tc: TabCategory) -> bool {
    category_of(sd.categories@, tc.category@) is None || data.lookup(tc.tab@, tc.category@)
        == Some(Seq::<IssueView>::empty())
}

/// Some association of tab `tab` stops the build.
pub open spec fn tab_breaks(sd: StructuralData, data: IssueData, tab: Seq<char>) -> bool {
    exists|j: int|
        0 <= j < sd.tab_category@.len() && (#[trigger] sd.tab_category@[j]).tab@ == tab && breaks(
            sd,
            data,
            sd.tab_category@[j],
        )
}

/// Some association of a declared tab stops the build.
pub open spec fn make_fails(sd: StructuralData, data: IssueData) -> bool {
    exists|i: int| 0 <= i < sd.tabs@.len() && tab_breaks(sd, data, (#[trigger] sd.tabs@[i]).id@)
}

/// Structural data whose associations all resolve, joined with well-formed issue data (as
/// `fetch_issues` makes it), always builds, whatever issues are stored: `make` then gives
/// one tab per configured tab.
pub proof fn lemma_make_succeeds(sd: StructuralData, data: IssueData)
    requires
        references_resolve(sd.tabs@, sd.categories@, sd.tab_category@),
        data.wf(),
    ensures
        !make_fails(sd, data),
{
    assert forall|j: int| 0 <= j < sd.tab_category@.len() implies !breaks(
        sd,
        data,
        #[trigger] sd.tab_category@[j],
    ) by {
        let tc = sd.tab_category@[j];
        lemma_no_empty_entry(data, tc.tab@, tc.category@);
    }
}

/// The tags are the union of the categories' tags, sorted and without repeats.
pub open spec fn tags_are_union(v: TabView) -> bool {
    sorted_strict(v.tags) && v.tags.to_set() == tag_set(v.categories)
}

/// `v` is how tab `t` is shown.
pub open spec fn tab_built(v: TabView, sd: StructuralData, data: IssueData, t: crate::data::Tab) -> bool {
    let s = shown(sd, data, t.id@);
    &&& v.id == t.id@
    &&& v.title == t.title@
    &&& v.description == t.description@
    &&& v.categories.len() == s.len()
    &&& forall|k: int|
        0 <= k < s.len() ==> #[trigger] v.categories[k] == category_view_of(
            s[k],
            category_of(sd.categories@, s[k].category@)->Some_0,
            data.lookup(s[k].tab@, s[k].category@)->Some_0,
        )
    &&& tags_are_union(v)
}

/// Tab `v` with its categories and tags taken out.
pub open spec fn cleared(v: TabView) -> TabView {
    TabView {
        id: v.id,
        title: v.title,
        description: v.description,
        categories: Seq::empty(),
        tags: Seq::empty(),
    }
}

fn merge_links(tc: &TabCategory, cat: &crate::data::Category) -> (r: Vec<Link>)
    ensures
        links_view(r@) == merged_links(*tc, *cat),
{
    let mut links: Vec<Link> = Vec::new();
    if let Some(l) = &tc.link {
        links.push(l.clone());
    }
    links.push(
        Link {
            text: String::from_str("repository"),
            url: concatenated("https://github.com/", cat.repository.as_str()),
        },
    );
    let ghost base = links_view(links@);
    let mut i: usize = 0;
    while i < cat.links.len()
        invariant
            i <= cat.links@.len(),
            links_view(links@) == base + links_view(cat.links@).subrange(0, i as int),
        decreases cat.links@.len() - i,
    {
        let ghost prev = links@;
        let l = cat.links[i].clone();
        links.push(l);
        assert(links@ == prev.push(l));
        assert(links_view(prev.push(l)) =~= links_view(prev).push(l@));
        assert(links_view(links@) =~= base + links_view(cat.links@).subrange(0, i + 1));
        i = i + 1;
    }
    assert(links_view(cat.links@).subrange(0, i as int) =~= links_view(cat.links@));
    assert(links_view(links@) =~= merged_links(*tc, *cat));
    links
}

fn add_tags(tags: &mut Vec<String>, new: &Vec<String>)
    requires
        sorted_strict(strs(old(tags)@)),
    ensures
        sorted_strict(strs(final(tags)@)),
        strs(final(tags)@).to_set() == strs(old(tags)@).to_set().union(strs(new@).to_set()),
{
    let ghost start = strs(tags@).to_set();
    let mut i: usize = 0;
    while i < new.len()
        invariant
            i <= new@.len(),
            sorted_strict(strs(tags@)),
            strs(tags@).to_set() == start.union(strs(new@).subrange(0, i as int).to_set()),
        decreases new@.len() - i,
    {
        insert_sorted(tags, &new[i]);
        proof {
            let a = strs(new@).subrange(0, i as int);
            let b = strs(new@).subrange(0, i + 1);
            assert(b =~= a.push(new@[i as int]@));
            assert(b.to_set() =~= a.to_set().insert(new@[i as int]@)) by {
                assert forall|x: Seq<char>| b.to_set().contains(x) <==> a.to_set().insert(
                    new@[i as int]@,
                ).contains(x) by {
                    if b.contains(x) {
                        let k = choose|k: int| 0 <= k < b.len() && b[k] == x;
                        if k < i {
                            assert(a[k] == x);
                        }
                    }
                    if a.contains(x) {
                        let k = choose|k: int| 0 <= k < a.len() && a[k] == x;
                        assert(b[k] == x);
                    }
                    if x == new@[i as int]@ {
                        assert(b[i as int] == x);
                    }
                }
            }
            assert(strs(tags@).to_set() =~= start.union(b.to_set()));
        }
        i = i + 1;
    }
    assert(strs(new@).subrange(0, i as int) =~= strs(new@));
}

/// Builds the shown form of tab `t`, or fails when one of its associations stops the build.
fn build_tab(sd: &StructuralData, data: &IssueData, t: &crate::data::Tab) -> (r: Result<Tab, WorkErr>)
    ensures
        r is Err <==> tab_breaks(*sd, *data, t.id@),
        r matches Ok(v) ==> tab_built(v@, *sd, *data, *t),
{
    let tcs = &sd.tab_category;
    let mut cats: Vec<Category> = Vec::new();
    let mut tags: Vec<String> = Vec::new();
    let mut j: usize = 0;
    while j < tcs.len()
        invariant
            tcs == sd.tab_category,
            j <= tcs@.len(),
            forall|m: int|
                0 <= m < j ==> (#[trigger] tcs@[m]).tab@ == t.id@ ==> !breaks(*sd, *data, tcs@[m]),
            categories_view(cats@).len() == tcs@.subrange(0, j as int).filter(shows(*data, t.id@)).len(),
            forall|k: int|
                0 <= k < cats@.len() ==> #[trigger] categories_view(cats@)[k] == category_view_of(
                    tcs@.subrange(0, j as int).filter(shows(*data, t.id@))[k],
                    category_of(sd.categories@, tcs@.subrange(0, j as int).filter(shows(*data, t.id@))[k].category@)->Some_0,
                    data.lookup(
                        tcs@.subrange(0, j as int).filter(shows(*data, t.id@))[k].tab@,
                        tcs@.subrange(0, j as int).filter(shows(*data, t.id@))[k].category@,
                    )->Some_0,
                ),
            sorted_strict(strs(tags@)),
            strs(tags@).to_set() == tag_set(categories_view(cats@)),
        decreases tcs@.len() - j,
    {
        let tc = &tcs[j];
        let ghost pre = tcs@.subrange(0, j as int);
        let ghost next = tcs@.subrange(0, j + 1);
        proof {
            reveal(Seq::filter);
            assert(next.drop_last() =~= pre);
            assert(next.last() == tc);
        }
        if same_text(tc.tab.as_str(), t.id.as_str()) {
            let k = match category_index(&sd.categories, tc.category.as_str()) {
                Some(k) => k,
                None => {
                    return Err(WorkErr(concatenated("unknown category: ", tc.category.as_str())));
                },
            };
            let cat = &sd.categories[k];
            match data.entry_index(tc.tab.as_str(), tc.category.as_str()) {
                None => {
                    assert(!shows(*data, t.id@)(*tc));
                    assert(next.filter(shows(*data, t.id@)) == pre.filter(shows(*data, t.id@)));
                },
                Some(e) => {
                    let list = &data.issues[e].1;
                    if list.len() == 0 {
                        assert(issues_view(list@) =~= Seq::<IssueView>::empty());
                        return Err(WorkErr(concatenated("no issues stored for category: ", tc.category.as_str())));
                    }
                    let c = Category {
                        id: cat.id.clone(),
                        title: cat.title.clone(),
                        description: cat.description.clone(),
                        links: merge_links(tc, cat),
                        tags: clone_strs(&cat.tags),
                        issues: clone_issues(list),
                    };
                    let ghost before = categories_view(cats@);
                    assert(shows(*data, t.id@)(*tc));
                    assert(next.filter(shows(*data, t.id@)) == pre.filter(shows(*data, t.id@)).push(*tc));
                    assert(c@ == category_view_of(
                        *tc,
                        category_of(sd.categories@, tc.category@)->Some_0,
                        data.lookup(tc.tab@, tc.category@)->Some_0,
                    ));
                    add_tags(&mut tags, &cat.tags);
                    cats.push(c);
                    proof {
                        let after = categories_view(cats@);
                        assert(after =~= before.push(c@));
                        assert(after.drop_last() =~= before);
                        assert(strs(tags@).to_set() =~= tag_set(after));
                    }
                },
            }
        } else {
            assert(!shows(*data, t.id@)(*tc));
            assert(next.filter(shows(*data, t.id@)) == pre.filter(shows(*data, t.id@)));
        }
        j = j + 1;
    }
    assert(tcs@.subrange(0, j as int) =~= tcs@);
    let v = Tab {
        id: t.id.clone(),
        title: t.title.clone(),
        description: t.description.clone(),
        categories: cats,
        tags,
    };
    Ok(v)
}

impl Blob {
    /// Joins the structural data with the fetched issues: one tab per configured tab, in
    /// the configured order, each showing the associations that have issues stored.
    /// Fails when an association of a configured tab names an unknown category or has an
    /// empty list of issues stored.
    pub fn make(struct_data: &StructuralData, issues: &IssueData) -> (r: Result<Blob, WorkErr>)
        ensures
            r is Err <==> make_fails(*struct_data, *issues),
            r matches Ok(b) ==> b@.len() == struct_data.tabs@.len() && forall|i: int|
                0 <= i < b@.len() ==> tab_built(
                    #[trigger] b@[i],
                    *struct_data,
                    *issues,
                    struct_data.tabs@[i],
                ),
    {
        let mut tabs: Vec<Tab> = Vec::new();
        let mut i: usize = 0;
        while i < struct_data.tabs.len()
            invariant
                i <= struct_data.tabs@.len(),
                tabs@.len() == i,
                forall|m: int|
                    0 <= m < i ==> !tab_breaks(*struct_data, *issues, (#[trigger] struct_data.tabs@[m]).id@),
                forall|m: int|
                    0 <= m < i ==> tab_built(
                        (#[trigger] tabs@[m])@,
                        *struct_data,
                        *issues,
                        struct_data.tabs@[m],
                    ),
            decreases struct_data.tabs@.len() - i,
        {
            match build_tab(struct_data, issues, &struct_data.tabs[i]) {
                Ok(t) => tabs.push(t),
                Err(e) => {
                    return Err(e);
                },
            }
            i = i + 1;
        }
        let b = Blob { tabs };
        assert forall|m: int| 0 <= m < b@.len() implies tab_built(
            #[trigger] b@[m],
            *struct_data,
            *issues,
            struct_data.tabs@[m],
        ) by {
            assert(b@[m] == b.tabs@[m]@);
        }
        Ok(b)
    }

    /// The same tabs, where only tab `tab` keeps its categories and tags. Fails when no tab
    /// has that id.
    pub fn by_tab(&self, tab: &str) -> (r: Result<Blob, WorkErr>)
        ensures
            r is Err <==> !(exists|i: int| 0 <= i < self@.len() && (#[trigger] self@[i]).id == tab@),
            r matches Ok(b) ==> b@.len() == self@.len() && forall|i: int|
                0 <= i < b@.len() ==> #[trigger] b@[i] == if self@[i].id == tab@ {
                    self@[i]
                } else {
                    cleared(self@[i])
                },
    {
        let mut found = false;
        let mut tabs: Vec<Tab> = Vec::new();
        let mut i: usize = 0;
        while i < self.tabs.len()
            invariant
                i <= self.tabs@.len(),
                tabs@.len() == i,
                found <==> exists|m: int| 0 <= m < i && (#[trigger] self@[m]).id == tab@,
                forall|m: int|
                    0 <= m < i ==> #[trigger] tabs@[m]@ == if self@[m].id == tab@ {
                        self@[m]
                    } else {
                        cleared(self@[m])
                    },
            decreases self.tabs@.len() - i,
        {
            let t = &self.tabs[i];
            assert(self@[i as int] == t@);
            if same_text(t.id.as_str(), tab) {
                found = true;
                tabs.push(t.clone());
            } else {
                let c = Tab {
                    id: t.id.clone(),
                    title: t.title.clone(),
                    description: t.description.clone(),
                    categories: Vec::new(),
                    tags: Vec::new(),
                };
                assert(c@.categories =~= Seq::<CategoryView>::empty());
                assert(c@.tags =~= Seq::<Seq<char>>::empty());
                tabs.push(c);
            }
            i = i + 1;
        }
        if !found {
            return Err(WorkErr(concatenated("tab not found: ", tab)));
        }
        let b = Blob { tabs };
        assert forall|m: int| 0 <= m < b@.len() implies #[trigger] b@[m] == if self@[m].id == tab@ {
            self@[m]
        } else {
            cleared(self@[m])
        } by {
            assert(b@[m] == b.tabs@[m]@);
        }
        Ok(b)
    }
}

} // verus!
