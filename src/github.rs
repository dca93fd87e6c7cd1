use vstd::prelude::*;
use vstd::string::StringSliceAdditionalSpecFns;
use vstd::utf8::{decode_utf8, valid_utf8};

use crate::text::{concatenated, same_text};
use crate::WorkErr;

verus! {

/// A label attached to an issue.
#[derive(Debug)]
pub struct Label {
    pub url: String,
    pub name: String,
    pub color: String,
}

pub struct LabelView {
    pub url: Seq<char>,
    pub name: Seq<char>,
    pub color: Seq<char>,
}

impl View for Label {
    type V = LabelView;

    open spec fn view(&self) -> LabelView {
        LabelView { url: self.url@, name: self.name@, color: self.color@ }
    }
}

impl Clone for Label {
    fn clone(&self) -> (r: Self)
        ensures
            r@ == self@,
    {
        Label { url: self.url.clone(), name: self.name.clone(), color: self.color.clone() }
    }
}

/// An issue of the upstream tracker, as it was fetched.
#[derive(Debug)]
pub struct Issue {
    pub number: u32,
    pub url: String,
    pub title: String,
    pub body: String,
    pub labels: Vec<Label>,
}

pub struct IssueView {
    pub number: u32,
    pub url: Seq<char>,
    pub title: Seq<char>,
    pub body: Seq<char>,
    pub labels: Seq<LabelView>,
}

pub open spec fn labels_view(v: Seq<Label>) -> Seq<LabelView> {
    v.map_values(|l: Label| l@)
}

pub open spec fn issues_view(v: Seq<Issue>) -> Seq<IssueView> {
    v.map_values(|i: Issue| i@)
}

impl View for Issue {
    type V = IssueView;

    open spec fn view(&self) -> IssueView {
        IssueView {
            number: self.number,
            url: self.url@,
            title: self.title@,
            body: self.body@,
            labels: labels_view(self.labels@),
        }
    }
}

impl Clone for Issue {
    fn clone(&self) -> (r: Self)
        ensures
            r@ == self@,
    {
        let labels = self.labels.clone();
        assert(labels_view(labels@) =~= labels_view(self.labels@));
        Issue {
            number: self.number,
            url: self.url.clone(),
            title: self.title.clone(),
            body: self.body.clone(),
            labels,
        }
    }
}

/// Copies a list of issues.
pub fn clone_issues(v: &Vec<Issue>) -> (r: Vec<Issue>)
    ensures
        issues_view(r@) == issues_view(v@),
{
    let r = v.clone();
    assert(issues_view(r@) =~= issues_view(v@));
    r
}

/// The bytes that `text` encodes in base64 with the MIME settings (standard alphabet,
/// padding, whitespace ignored), or `None` when it is not such an encoding.
pub uninterp spec fn mime_base64_decoded(text: Seq<char>) -> Option<Seq<u8>>;

/// Relies on `base64::decode_config` with `base64::MIME`: it returns the bytes that `text`
/// encodes, or an error when `text` is not valid base64. It panics only when the byte
/// length is near `usize::MAX`.
#[verifier::external_body]
fn decode_base64_mime(text: &str) -> (r: Option<Vec<u8>>)
    requires
        text.spec_bytes().len() <= usize::MAX / 4,
    ensures
        r is Some <==> mime_base64_decoded(text@) is Some,
        r matches Some(b) ==> mime_base64_decoded(text@) == Some(b@),
{
    base64::decode_config(text, base64::MIME).ok()
}

/// Relies on `String::from_utf8`: it returns the text when `bytes` are valid UTF-8, and an
/// error otherwise.
#[verifier::external_body]
fn utf8_text(bytes: Vec<u8>) -> (r: Option<String>)
    ensures
        r is Some <==> valid_utf8(bytes@),
        r matches Some(s) ==> s@ == decode_utf8(bytes@),
{
    String::from_utf8(bytes).ok()
}

/// The text of a repository file, from the type, encoding and content that the tracker's
/// contents API reports for it. Only a file whose content is base64 of UTF-8 text has one.
pub fn decode_file(kind: &str, encoding: &str, content: &str) -> (r: Result<String, WorkErr>)
    requires
        content.spec_bytes().len() <= usize::MAX / 4,
    ensures
        kind@ != "file"@ ==> r is Err,
        encoding@ != "base64"@ ==> r is Err,
        kind@ == "file"@ && encoding@ == "base64"@ ==> (r is Ok <==> (mime_base64_decoded(content@) matches Some(b) && valid_utf8(b))),
        r matches Ok(s) ==> s@ == decode_utf8(mime_base64_decoded(content@)->Some_0),
{
    if !same_text(kind, "file") {
        return Err(WorkErr(concatenated("Expected file, found ", kind)));
    }
    if !same_text(encoding, "base64") {
        return Err(WorkErr(concatenated("Expected base64, found ", encoding)));
    }
    let bytes = match decode_base64_mime(content) {
        Some(b) => b,
        None => {
            return Err(WorkErr(String::from_str("file content is not valid base64")));
        },
    };
    match utf8_text(bytes) {
        Some(s) => Ok(s),
        None => Err(WorkErr(String::from_str("file content is not valid UTF-8"))),
    }
}

/// The character of a decimal digit.
pub open spec fn digit_char(d: nat) -> char {
    if d == 0 {
        '0'
    } else if d == 1 {
        '1'
    } else if d == 2 {
        '2'
    } else if d == 3 {
        '3'
    } else if d == 4 {
        '4'
    } else if d == 5 {
        '5'
    } else if d == 6 {
        '6'
    } else if d == 7 {
        '7'
    } else if d == 8 {
        '8'
    } else {
        '9'
    }
}

/// `n` written in decimal, without leading zeros.
pub open spec fn decimal(n: nat) -> Seq<char>
    decreases n,
{
    if n < 10 {
        seq![digit_char(n)]
    } else {
        decimal(n / 10).push(digit_char(n % 10))
    }
}

fn digit_text(d: u32) -> (r: &'static str)
    requires
        d < 10,
    ensures
        r@ == seq![digit_char(d as nat)],
{
    let r = if d == 0 {
        "0"
    } else if d == 1 {
        "1"
    } else if d == 2 {
        "2"
    } else if d == 3 {
        "3"
    } else if d == 4 {
        "4"
    } else if d == 5 {
        "5"
    } else if d == 6 {
        "6"
    } else if d == 7 {
        "7"
    } else if d == 8 {
        "8"
    } else {
        "9"
    };
    proof {
        reveal_strlit("0");
        reveal_strlit("1");
        reveal_strlit("2");
        reveal_strlit("3");
        reveal_strlit("4");
        reveal_strlit("5");
        reveal_strlit("6");
        reveal_strlit("7");
        reveal_strlit("8");
        reveal_strlit("9");
        assert(r@ =~= seq![digit_char(d as nat)]);
    }
    r
}

/// Writes `n` in decimal.
pub fn decimal_text(n: u32) -> (r: String)
    ensures
        r@ == decimal(n as nat),
    decreases n,
{
    if n < 10 {
        String::from_str(digit_text(n))
    } else {
        let mut s = decimal_text(n / 10);
        s.append(digit_text(n % 10));
        s
    }
}

/// The API path of a repository's issues carrying all of `labels` (comma-separated), and
/// in milestone number `milestone` if one is given.
pub fn issues_path(repository: &str, labels: &str, milestone: Option<u32>) -> (r: String)
    ensures
        r@ == "/repos/"@ + repository@ + "/issues?labels="@ + labels@ + match milestone {
            Some(n) => "&milestone="@ + decimal(n as nat),
            None => Seq::empty(),
        },
{
    let mut s = concatenated("/repos/", repository);
    s.append("/issues?labels=");
    s.append(labels);
    if let Some(n) = milestone {
        s.append("&milestone=");
        let d = decimal_text(n);
        s.append(d.as_str());
    }
    let ghost tail = match milestone {
        Some(n) => "&milestone="@ + decimal(n as nat),
        None => Seq::<char>::empty(),
    };
    assert(s@ =~= "/repos/"@ + repository@ + "/issues?labels="@ + labels@ + tail);
    s
}

/// The API path of a repository's milestones.
pub fn milestones_path(repository: &str) -> (r: String)
    ensures
        r@ == "/repos/"@ + repository@ + "/milestones"@,
{
    let mut s = concatenated("/repos/", repository);
    s.append("/milestones");
    s
}

/// The API path of the file at `path` in a repository.
pub fn contents_path(repository: &str, path: &str) -> (r: String)
    ensures
        r@ == "/repos/"@ + repository@ + "/contents/"@ + path@,
{
    let mut s = concatenated("/repos/", repository);
    s.append("/contents/");
    s.append(path);
    s
}

/// The URL of an API path.
pub fn api_url(query: &str) -> (r: String)
    ensures
        r@ == "https://api.github.com"@ + query@,
{
    concatenated("https://api.github.com", query)
}

/// The milestones listed for the last entry of `repository`.
pub open spec fn milestones_of(
    entries: Seq<(String, Vec<(String, u32)>)>,
    repository: Seq<char>,
) -> Option<Seq<(String, u32)>>
    decreases entries.len(),
{
    if entries.len() == 0 {
        None
    } else if entries.last().0@ == repository {
        Some(entries.last().1@)
    } else {
        milestones_of(entries.drop_last(), repository)
    }
}

/// The number of the last milestone titled `title`.
pub open spec fn number_of(milestones: Seq<(String, u32)>, title: Seq<char>) -> Option<u32>
    decreases milestones.len(),
{
    if milestones.len() == 0 {
        None
    } else if milestones.last().0@ == title {
        Some(milestones.last().1)
    } else {
        number_of(milestones.drop_last(), title)
    }
}

/// The milestones (title and number) of each repository whose list was fetched.
#[derive(Debug)]
pub struct MilestoneCache {
    pub repositories: Vec<(String, Vec<(String, u32)>)>,
}

impl MilestoneCache {
    pub fn new() -> (r: MilestoneCache)
        ensures
            r.repositories@.len() == 0,
    {
        MilestoneCache { repositories: Vec::new() }
    }

    fn index_of(&self, repository: &str) -> (r: Option<usize>)
        ensures
            r is None <==> milestones_of(self.repositories@, repository@) is None,
            r matches Some(k) ==> k < self.repositories@.len() && milestones_of(
                self.repositories@,
                repository@,
            ) == Some(self.repositories@[k as int].1@),
    {
        let mut k = self.repositories.len();
        assert(self.repositories@.subrange(0, k as int) =~= self.repositories@);
        while k > 0
            invariant
                k <= self.repositories@.len(),
                milestones_of(self.repositories@, repository@) == milestones_of(
                    self.repositories@.subrange(0, k as int),
                    repository@,
                ),
            decreases k,
        {
            let ghost prefix = self.repositories@.subrange(0, k as int);
            if same_text(self.repositories[k - 1].0.as_str(), repository) {
                return Some(k - 1);
            }
            assert(prefix.drop_last() =~= self.repositories@.subrange(0, k - 1));
            k = k - 1;
        }
        None
    }

    /// Whether the milestones of `repository` were fetched.
    pub fn contains(&self, repository: &str) -> (r: bool)
        ensures
            r == milestones_of(self.repositories@, repository@) is Some,
    {
        self.index_of(repository).is_some()
    }

    /// Records the milestones fetched for `repository`.
    pub fn insert(&mut self, repository: String, milestones: Vec<(String, u32)>)
        ensures
            final(self).repositories@ == old(self).repositories@.push((repository, milestones)),
    {
        self.repositories.push((repository, milestones));
    }

    /// The number of the milestone titled `milestone` in `repository`. Fails when the
    /// repository's milestones were not fetched or none has that title.
    pub fn number(&self, repository: &str, milestone: &str) -> (r: Result<u32, WorkErr>)
        ensures
            r is Ok <==> (milestones_of(self.repositories@, repository@) matches Some(ms)
                && number_of(ms, milestone@) is Some),
            r matches Ok(n) ==> number_of(
                milestones_of(self.repositories@, repository@)->Some_0,
                milestone@,
            ) == Some(n),
    {
        let k = match self.index_of(repository) {
            Some(k) => k,
            None => {
                return Err(WorkErr(concatenated("milestones not fetched for ", repository)));
            },
        };
        let ms = &self.repositories[k].1;
        let mut i = ms.len();
        assert(ms@.subrange(0, i as int) =~= ms@);
        while i > 0
            invariant
                i <= ms@.len(),
                milestones_of(self.repositories@, repository@) == Some(ms@),
                number_of(ms@, milestone@) == number_of(ms@.subrange(0, i as int), milestone@),
            decreases i,
        {
            let ghost prefix = ms@.subrange(0, i as int);
            if same_text(ms[i - 1].0.as_str(), milestone) {
                return Ok(ms[i - 1].1);
            }
            assert(prefix.drop_last() =~= ms@.subrange(0, i - 1));
            i = i - 1;
        }
        let mut msg = concatenated("Bad milestone ", milestone);
        msg.append(" in ");
        msg.append(repository);
        Err(WorkErr(msg))
    }
}

} // verus!
