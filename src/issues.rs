use vstd::prelude::*;

use crate::data::{category_index, category_of, StructuralData, TabCategory};
use crate::github::{clone_issues, issues_view, Issue, IssueView};
use crate::text::{clone_opt, clone_strs, join, joined, opt_text, strs};
use crate::WorkErr;

verus! {

/// The issues fetched for each (tab id, category id) pair that has any.
#[derive(Debug)]
pub struct IssueData {
    pub issues: Vec<((String, String), Vec<Issue>)>,
}

/// The text of an entry's key.
pub open spec fn key_of(e: ((String, String), Vec<Issue>)) -> (Seq<char>, Seq<char>) {
    (e.0.0@, e.0.1@)
}

/// The issues stored for `(tab, cat)`: those of the last entry with that key.
pub open spec fn issues_for(
    entries: Seq<((String, String), Vec<Issue>)>,
    tab: Seq<char>,
    cat: Seq<char>,
) -> Option<Seq<IssueView>>
    decreases entries.len(),
{
    if entries.len() == 0 {
        None
    } else if key_of(entries.last()) == (tab, cat) {
        Some(issues_view(entries.last().1@))
    } else {
        issues_for(entries.drop_last(), tab, cat)
    }
}

proof fn lemma_issues_for_absent(
    entries: Seq<((String, String), Vec<Issue>)>,
    tab: Seq<char>,
    cat: Seq<char>,
)
    requires
        forall|m: int| 0 <= m < entries.len() ==> key_of(#[trigger] entries[m]) != (tab, cat),
    ensures
        issues_for(entries, tab, cat) is None,
    decreases entries.len(),
{
    if entries.len() > 0 {
        let rest = entries.drop_last();
        assert forall|m: int| 0 <= m < rest.len() implies key_of(#[trigger] rest[m]) != (
            tab,
            cat,
        ) by {
            assert(rest[m] == entries[m]);
        }
        lemma_issues_for_absent(rest, tab, cat);
    }
}

proof fn lemma_issues_for_at(
    entries: Seq<((String, String), Vec<Issue>)>,
    k: int,
    tab: Seq<char>,
    cat: Seq<char>,
)
    requires
        0 <= k < entries.len(),
        key_of(entries[k]) == (tab, cat),
        forall|m: int| k < m < entries.len() ==> key_of(#[trigger] entries[m]) != (tab, cat),
    ensures
        issues_for(entries, tab, cat) == Some(issues_view(entries[k].1@)),
    decreases entries.len(),
{
    if k < entries.len() - 1 {
        let rest = entries.drop_last();
        assert forall|m: int| k < m < rest.len() implies key_of(#[trigger] rest[m]) != (
            tab,
            cat,
        ) by {
            assert(rest[m] == entries[m]);
        }
        lemma_issues_for_at(rest, k, tab, cat);
    }
}

proof fn lemma_issues_for_update(
    entries: Seq<((String, String), Vec<Issue>)>,
    k: int,
    e: ((String, String), Vec<Issue>),
    tab: Seq<char>,
    cat: Seq<char>,
)
    requires
        0 <= k < entries.len(),
        key_of(entries[k]) == key_of(e),
    ensures
        key_of(e) != (tab, cat) ==> issues_for(entries.update(k, e), tab, cat) == issues_for(
            entries,
            tab,
            cat,
        ),
    decreases entries.len(),
{
    let next = entries.update(k, e);
    if k == entries.len() - 1 {
        assert(next.drop_last() =~= entries.drop_last());
    } else {
        assert(next.drop_last() =~= entries.drop_last().update(k, e));
        lemma_issues_for_update(entries.drop_last(), k, e, tab, cat);
    }
}

proof fn lemma_issues_for_nonempty(
    entries: Seq<((String, String), Vec<Issue>)>,
    tab: Seq<char>,
    cat: Seq<char>,
)
    requires
        forall|i: int| 0 <= i < entries.len() ==> (#[trigger] entries[i]).1@.len() > 0,
    ensures
        issues_for(entries, tab, cat) matches Some(v) ==> v.len() > 0,
    decreases entries.len(),
{
    if entries.len() > 0 {
        let rest = entries.drop_last();
        assert forall|i: int| 0 <= i < rest.len() implies (#[trigger] rest[i]).1@.len() > 0 by {
            assert(rest[i] == entries[i]);
        }
        lemma_issues_for_nonempty(rest, tab, cat);
    }
}

/// Well-formed issue data never stores an empty list of issues under a key.
pub proof fn lemma_no_empty_entry(data: IssueData, tab: Seq<char>, cat: Seq<char>)
    requires
        data.wf(),
    ensures
        data.lookup(tab, cat) matches Some(v) ==> v.len() > 0,
{
    lemma_issues_for_nonempty(data.issues@, tab, cat);
}

impl IssueData {
    /// Keys are distinct and no list is empty.
    pub open spec fn wf(&self) -> bool {
        &&& forall|i: int, j: int|
            0 <= i < j < self.issues@.len() ==> key_of(#[trigger] self.issues@[i]) != key_of(
                #[trigger] self.issues@[j],
            )
        &&& forall|i: int| 0 <= i < self.issues@.len() ==> (#[trigger] self.issues@[i]).1@.len() > 0
    }

    pub open spec fn lookup(&self, tab: Seq<char>, cat: Seq<char>) -> Option<Seq<IssueView>> {
        issues_for(self.issues@, tab, cat)
    }

    /// An empty collection.
    pub fn new() -> (r: IssueData)
        ensures
            r.issues@.len() == 0,
            r.wf(),
    {
        IssueData { issues: Vec::new() }
    }

    /// Where the entry for `(tab, category)` stands, if there is one.
    pub fn entry_index(&self, tab: &str, category: &str) -> (r: Option<usize>)
        ensures
            r is None <==> self.lookup(tab@, category@) is None,
            r matches Some(k) ==> k < self.issues@.len() && self.lookup(tab@, category@) == Some(
                issues_view(self.issues@[k as int].1@),
            ) && key_of(self.issues@[k as int]) == (tab@, category@) && forall|m: int|
                k < m < self.issues@.len() ==> key_of(#[trigger] self.issues@[m]) != (
                    tab@,
                    category@,
                ),
            r is None ==> forall|m: int|
                0 <= m < self.issues@.len() ==> key_of(#[trigger] self.issues@[m]) != (
                    tab@,
                    category@,
                ),
    {
        let mut k = self.issues.len();
        while k > 0
            invariant
                k <= self.issues@.len(),
                forall|m: int|
                    k <= m < self.issues@.len() ==> key_of(#[trigger] self.issues@[m]) != (
                        tab@,
                        category@,
                    ),
            decreases k,
        {
            let e = &self.issues[k - 1];
            if crate::text::same_text(e.0.0.as_str(), tab) && crate::text::same_text(
                e.0.1.as_str(),
                category,
            ) {
                proof {
                    lemma_issues_for_at(self.issues@, k - 1, tab@, category@);
                }
                return Some(k - 1);
            }
            k = k - 1;
        }
        proof {
            lemma_issues_for_absent(self.issues@, tab@, category@);
        }
        None
    }

    /// Stores `issues` under `(tab, category)`, in place of what was stored there.
    pub fn insert(&mut self, tab: String, category: String, issues: Vec<Issue>)
        ensures
            forall|t: Seq<char>, c: Seq<char>|
                #[trigger] final(self).lookup(t, c) == if t == tab@ && c == category@ {
                    Some(issues_view(issues@))
                } else {
                    old(self).lookup(t, c)
                },
            old(self).wf() && issues@.len() > 0 ==> final(self).wf(),
    {
        let found = self.entry_index(tab.as_str(), category.as_str());
        let ghost key = (tab@, category@);
        let ghost before = self.issues@;
        match found {
            Some(k) => {
                let ghost e = ((tab, category), issues);
                self.issues.set(k, ((tab, category), issues));
                proof {
                    assert(self.issues@ == before.update(k as int, e));
                    assert forall|t: Seq<char>, c: Seq<char>|
                        #[trigger] self.lookup(t, c) == if t == key.0 && c == key.1 {
                            Some(issues_view(e.1@))
                        } else {
                            issues_for(before, t, c)
                        } by {
                        lemma_issues_for_update(before, k as int, e, t, c);
                        if t == key.0 && c == key.1 {
                            lemma_issues_for_at(self.issues@, k as int, t, c);
                        }
                    }
                }
            },
            None => {
                self.issues.push(((tab, category), issues));
                proof {
                    assert(self.issues@.drop_last() =~= before);
                }
            },
        }
    }
}

/// The issue carries a label whose name is one of `names`.
pub open spec fn carries_any(i: IssueView, names: Seq<Seq<char>>) -> bool {
    exists|m: int| 0 <= m < i.labels.len() && names.contains(#[trigger] i.labels[m].name)
}

/// Whether an issue passes an association's negative-label filter.
pub open spec fn passes(negative: Option<Vec<String>>, i: IssueView) -> bool {
    match negative {
        Some(names) => !carries_any(i, strs(names@)),
        None => true,
    }
}

/// The fetched issues that an association keeps, in their fetched order.
pub open spec fn kept(negative: Option<Vec<String>>, fetched: Seq<IssueView>) -> Seq<IssueView> {
    fetched.filter(|i: IssueView| passes(negative, i))
}

fn carries_any_label(issue: &Issue, names: &Vec<String>) -> (r: bool)
    ensures
        r == carries_any(issue@, strs(names@)),
{
    let mut m: usize = 0;
    while m < issue.labels.len()
        invariant
            m <= issue.labels@.len(),
            forall|p: int| 0 <= p < m ==> !strs(names@).contains(#[trigger] issue@.labels[p].name),
        decreases issue.labels@.len() - m,
    {
        let mut n: usize = 0;
        while n < names.len()
            invariant
                m < issue.labels@.len(),
                n <= names@.len(),
                forall|q: int| 0 <= q < n ==> (#[trigger] names@[q])@ != issue.labels@[m as int].name@,
            decreases names@.len() - n,
        {
            if names[n] == issue.labels[m].name {
                assert(strs(names@)[n as int] == issue@.labels[m as int].name);
                return true;
            }
            n = n + 1;
        }
        assert(!strs(names@).contains(issue@.labels[m as int].name)) by {
            if strs(names@).contains(issue@.labels[m as int].name) {
                let q = choose|q: int| 0 <= q < strs(names@).len() && strs(names@)[q] == issue@.labels[m as int].name;
                assert(names@[q]@ == issue.labels@[m as int].name@);
            }
        }
        m = m + 1;
    }
    false
}

/// Drops every issue that carries one of the association's negative labels.
pub fn filter_issues(negative: &Option<Vec<String>>, issues: &Vec<Issue>) -> (r: Vec<Issue>)
    ensures
        issues_view(r@) == kept(*negative, issues_view(issues@)),
{
    let mut out: Vec<Issue> = Vec::new();
    let mut j: usize = 0;
    while j < issues.len()
        invariant
            j <= issues@.len(),
            issues_view(out@) == kept(*negative, issues_view(issues@.subrange(0, j as int))),
        decreases issues@.len() - j,
    {
        let keep = match negative {
            Some(names) => !carries_any_label(&issues[j], names),
            None => true,
        };
        let ghost pre = issues_view(issues@.subrange(0, j as int));
        let ghost next = issues_view(issues@.subrange(0, j + 1));
        assert(next.len() == j + 1);
        assert(next.drop_last() =~= pre);
        assert(next.last() == issues@[j as int]@);
        proof {
            reveal(Seq::filter);
        }
        if keep {
            out.push(issues[j].clone());
            assert(issues_view(out@) =~= kept(*negative, pre).push(issues@[j as int]@));
        }
        j = j + 1;
    }
    assert(issues@.subrange(0, j as int) =~= issues@);
    out
}

/// What to ask the upstream tracker for on behalf of one association.
#[derive(Debug)]
pub struct IssueQuery {
    pub repository: String,
    /// The category's labels and then the association's, joined by commas.
    pub labels: String,
    pub milestone: Option<String>,
}

/// `q` is the query of association `tc`, whose category is `cat`.
pub open spec fn query_for(q: IssueQuery, tc: TabCategory, cat: crate::data::Category) -> bool {
    &&& q.repository@ == cat.repository@
    &&& q.labels@ == joined(strs(cat.labels@) + strs(tc.labels@), ","@)
    &&& opt_text(q.milestone) == opt_text(tc.milestone)
}

/// Some association names a category that is not declared.
pub open spec fn category_missing(sd: StructuralData) -> bool {
    exists|j: int|
        0 <= j < sd.tab_category@.len() && category_of(
            sd.categories@,
            (#[trigger] sd.tab_category@[j]).category@,
        ) is None
}

/// The upstream query of each association, in the order of the associations.
/// Fails when an association names a category that is not declared.
pub fn issue_queries(sd: &StructuralData) -> (r: Result<Vec<IssueQuery>, WorkErr>)
    ensures
        r is Err <==> category_missing(*sd),
        r matches Ok(qs) ==> qs@.len() == sd.tab_category@.len() && forall|j: int|
            0 <= j < qs@.len() ==> query_for(
                #[trigger] qs@[j],
                sd.tab_category@[j],
                category_of(sd.categories@, sd.tab_category@[j].category@)->Some_0,
            ),
{
    let tcs = &sd.tab_category;
    let mut qs: Vec<IssueQuery> = Vec::new();
    let mut j: usize = 0;
    while j < tcs.len()
        invariant
            tcs == sd.tab_category,
            j <= tcs@.len(),
            qs@.len() == j,
            forall|m: int| 0 <= m < j ==> category_of(sd.categories@, (#[trigger] tcs@[m]).category@) is Some,
            forall|m: int|
                0 <= m < j ==> query_for(
                    #[trigger] qs@[m],
                    tcs@[m],
                    category_of(sd.categories@, tcs@[m].category@)->Some_0,
                ),
        decreases tcs@.len() - j,
    {
        let tc = &tcs[j];
        let k = match category_index(&sd.categories, tc.category.as_str()) {
            Some(k) => k,
            None => {
                return Err(WorkErr(String::from_str("association names an unknown category")));
            },
        };
        let cat = &sd.categories[k];
        let mut all = clone_strs(&cat.labels);
        let mut i: usize = 0;
        while i < tc.labels.len()
            invariant
                i <= tc.labels@.len(),
                strs(all@) == strs(cat.labels@) + strs(tc.labels@).subrange(0, i as int),
            decreases tc.labels@.len() - i,
        {
            let ghost prev = all@;
            let l = tc.labels[i].clone();
            all.push(l);
            assert(all@ == prev.push(l));
            assert(strs(prev.push(l)) =~= strs(prev).push(l@));
            assert(strs(all@) =~= strs(cat.labels@) + strs(tc.labels@).subrange(0, i + 1));
            i = i + 1;
        }
        assert(strs(tc.labels@).subrange(0, i as int) =~= strs(tc.labels@));
        let q = IssueQuery {
            repository: cat.repository.clone(),
            labels: join(&all, ","),
            milestone: clone_opt(&tc.milestone),
        };
        qs.push(q);
        j = j + 1;
    }
    Ok(qs)
}

/// The issues that the associations collect for `(tab, cat)`, given what was fetched for
/// each of them: those of the last association with that key that keeps any.
pub open spec fn collected(
    tcs: Seq<TabCategory>,
    fetched: Seq<Vec<Issue>>,
    tab: Seq<char>,
    cat: Seq<char>,
) -> Option<Seq<IssueView>>
    decreases tcs.len(),
{
    if tcs.len() == 0 || fetched.len() == 0 {
        None
    } else {
        let tc = tcs.last();
        let k = kept(tc.negative_labels, issues_view(fetched.last()@));
        if tc.tab@ == tab && tc.category@ == cat && k.len() > 0 {
            Some(k)
        } else {
            collected(tcs.drop_last(), fetched.drop_last(), tab, cat)
        }
    }
}

/// Gathers the issue data from what the upstream tracker returned for each association
/// (`fetched[j]` for the query of association `j`): an association keeps the issues that
/// carry none of its negative labels, and one that keeps none adds no entry.
pub fn fetch_issues(struct_data: &StructuralData, fetched: &Vec<Vec<Issue>>) -> (r: IssueData)
    requires
        fetched@.len() == struct_data.tab_category@.len(),
    ensures
        r.wf(),
        forall|t: Seq<char>, c: Seq<char>|
            #[trigger] r.lookup(t, c) == collected(struct_data.tab_category@, fetched@, t, c),
{
    let tcs = &struct_data.tab_category;
    let mut data = IssueData::new();
    let mut j: usize = 0;
    while j < tcs.len()
        invariant
            tcs == struct_data.tab_category,
            fetched@.len() == tcs@.len(),
            j <= tcs@.len(),
            data.wf(),
            forall|t: Seq<char>, c: Seq<char>|
                #[trigger] data.lookup(t, c) == collected(
                    tcs@.subrange(0, j as int),
                    fetched@.subrange(0, j as int),
                    t,
                    c,
                ),
        decreases tcs@.len() - j,
    {
        let tc = &tcs[j];
        let issues = filter_issues(&tc.negative_labels, &fetched[j]);
        let ghost old_data = data;
        proof {
            let t1 = tcs@.subrange(0, j + 1);
            let f1 = fetched@.subrange(0, j + 1);
            assert(t1.drop_last() =~= tcs@.subrange(0, j as int));
            assert(f1.drop_last() =~= fetched@.subrange(0, j as int));
            assert(t1.last() == tc);
            assert(f1.last() == fetched@[j as int]);
        }
        if issues.len() > 0 {
            data.insert(tc.tab.clone(), tc.category.clone(), issues);
        }
        j = j + 1;
    }
    assert(tcs@.subrange(0, j as int) =~= tcs@);
    assert(fetched@.subrange(0, j as int) =~= fetched@);
    data
}

} // verus!
