//! Finding the latest report among the links of the index page.
//!
//! The page is tokenised elsewhere; what is decided here is which token
//! carries the link, and what the address of the report then is.

use crate::text::has_prefix;
use crate::text::same_text;
use crate::text::starts_with;
use vstd::prelude::*;
use vstd::string::StringExecFns;

verus! {

/// The addresses that the reports are found under.
#[derive(Debug, Clone)]
pub struct Site {
    /// The address of the site, without a path.
    pub base_url: String,
    /// The path of the page that lists the reports.
    pub index_path: String,
    /// The path that the link to a report begins with.
    pub report_prefix: String,
}

/// A `Site` with its texts as character sequences.
pub struct SiteView {
    pub base_url: Seq<char>,
    pub index_path: Seq<char>,
    pub report_prefix: Seq<char>,
}

impl View for Site {
    type V = SiteView;

    open spec fn view(&self) -> SiteView {
        SiteView {
            base_url: self.base_url@,
            index_path: self.index_path@,
            report_prefix: self.report_prefix@,
        }
    }
}

/// The site of the situation reports.
pub open spec fn standard_site() -> SiteView {
    SiteView {
        base_url: "https://www.who.int"@,
        index_path: "/emergencies/diseases/novel-coronavirus-2019/situation-reports/"@,
        report_prefix: "/docs/default-source/coronaviruse/situation-reports/"@,
    }
}

impl Site {
    /// The site of the situation reports.
    pub fn standard() -> (site: Site)
        ensures
            site@ == standard_site(),
    {
        Site {
            base_url: String::from_str("https://www.who.int"),
            index_path: String::from_str(
                "/emergencies/diseases/novel-coronavirus-2019/situation-reports/",
            ),
            report_prefix: String::from_str("/docs/default-source/coronaviruse/situation-reports/"),
        }
    }

    /// The address of the page that lists the reports.
    pub fn index_url(&self) -> (url: String)
        ensures
            url@ == self@.base_url + self@.index_path,
    {
        let mut url = self.base_url.clone();
        url.append(self.index_path.as_str());
        url
    }
}

/// An attribute of a tag: its local name and its value.
#[derive(Debug, Clone, PartialEq, Eq)]
pub struct Attribute {
    pub name: String,
    pub value: String,
}

/// Whether a tag opens or closes an element.
#[derive(Debug, Clone, Copy, PartialEq, Eq, Structural)]
pub enum TagKind {
    Start,
    End,
}

/// A tag of the page.
#[derive(Debug, Clone, PartialEq, Eq)]
pub struct Tag {
    pub kind: TagKind,
    pub name: String,
    pub attrs: Vec<Attribute>,
}

/// A token of the page: a tag, or anything else.
#[derive(Debug, Clone, PartialEq, Eq)]
pub enum Token {
    Tag(Tag),
    Other,
}

/// A `Tag` with its texts as character sequences.
pub struct TagView {
    pub kind: TagKind,
    pub name: Seq<char>,
    pub attrs: Seq<(Seq<char>, Seq<char>)>,
}

/// A `Token` with its texts as character sequences.
pub enum TokenView {
    Tag(TagView),
    Other,
}

/// The attributes as pairs of name and value.
pub open spec fn attr_pairs(attrs: Seq<Attribute>) -> Seq<(Seq<char>, Seq<char>)> {
    Seq::new(attrs.len(), |i: int| (attrs[i].name@, attrs[i].value@))
}

impl View for Tag {
    type V = TagView;

    open spec fn view(&self) -> TagView {
        TagView { kind: self.kind, name: self.name@, attrs: attr_pairs(self.attrs@) }
    }
}

impl View for Token {
    type V = TokenView;

    open spec fn view(&self) -> TokenView {
        match *self {
            Token::Tag(tag) => TokenView::Tag(tag@),
            Token::Other => TokenView::Other,
        }
    }
}

/// The views of a sequence of tokens.
pub open spec fn token_views(tokens: Seq<Token>) -> Seq<TokenView> {
    Seq::new(tokens.len(), |i: int| tokens[i]@)
}

/// What the tokeniser is told to do after a token.
#[derive(Debug, Clone, Copy, PartialEq, Eq, Structural)]
pub enum SinkStep {
    /// Go on with the next token.
    Continue,
    /// Take the rest of the page as plain text: no tag follows.
    Plaintext,
}

/// The value of the first attribute named `href`.
pub open spec fn href_of(attrs: Seq<(Seq<char>, Seq<char>)>) -> Option<Seq<char>>
    decreases attrs.len(),
{
    if attrs.len() == 0 {
        None
    } else if attrs[0].0 == "href"@ {
        Some(attrs[0].1)
    } else {
        href_of(attrs.drop_first())
    }
}

/// The address of the report that a token links to: the token is the start
/// tag of an `a` element, and the value of its first `href` begins with the
/// path of the reports. The address is that value behind the site's address.
pub open spec fn report_link(token: TokenView, site: SiteView) -> Option<Seq<char>> {
    match token {
        TokenView::Tag(tag) => if tag.kind == TagKind::Start && tag.name == "a"@ {
            match href_of(tag.attrs) {
                Some(value) => if starts_with(value, site.report_prefix) {
                    Some(site.base_url + value)
                } else {
                    None
                },
                None => None,
            }
        } else {
            None
        },
        TokenView::Other => None,
    }
}

/// The address that the first token with a link to a report gives.
pub open spec fn first_link(tokens: Seq<TokenView>, site: SiteView) -> Option<Seq<char>>
    decreases tokens.len(),
{
    if tokens.len() == 0 {
        None
    } else {
        match report_link(tokens[0], site) {
            Some(url) => Some(url),
            None => first_link(tokens.drop_first(), site),
        }
    }
}

/// An optional string, seen through its view.
pub open spec fn option_text(s: Option<String>) -> Option<Seq<char>> {
    match s {
        Some(s) => Some(s@),
        None => None,
    }
}

fn find_href(attrs: &Vec<Attribute>) -> (r: Option<usize>)
    ensures
        match r {
            Some(i) => i < attrs.len() && href_of(attr_pairs(attrs@)) == Some(attrs@[i as int].value@),
            None => href_of(attr_pairs(attrs@)).is_none(),
        },
{
    let ghost all = attr_pairs(attrs@);
    let mut k: usize = 0;
    assert(all.skip(0) =~= all);
    while k < attrs.len()
        invariant
            k <= attrs.len(),
            all == attr_pairs(attrs@),
            href_of(all.skip(k as int)) == href_of(all),
        decreases attrs.len() - k,
    {
        proof {
            let here = all.skip(k as int);
            assert(here[0] == (attrs@[k as int].name@, attrs@[k as int].value@));
            assert(here.drop_first() =~= all.skip(k + 1));
        }
        if same_text(attrs[k].name.as_str(), "href") {
            return Some(k);
        }
        k += 1;
    }
    None
}

/// Looks for the link to the latest report while the page is tokenised.
#[derive(Debug, Clone)]
pub struct LatestSituationReportFinder {
    /// The address of the report, once a link to it was seen.
    pub url: Option<String>,
}

impl Default for LatestSituationReportFinder {
    fn default() -> (finder: LatestSituationReportFinder)
        ensures
            finder.url.is_none(),
    {
        LatestSituationReportFinder { url: None }
    }
}

impl LatestSituationReportFinder {
    /// A finder that has seen no link yet.
    pub fn new() -> (finder: LatestSituationReportFinder)
        ensures
            finder.url.is_none(),
    {
        LatestSituationReportFinder { url: None }
    }

    /// Takes one token of the page. Where the token links to a report, the
    /// address is kept and the tokeniser is told to stop looking for tags;
    /// otherwise nothing changes.
    pub fn process_token(&mut self, token: &Token, site: &Site) -> (step: SinkStep)
        ensures
            match report_link(token@, site@) {
                Some(url) => step == SinkStep::Plaintext && option_text(final(self).url) == Some(
                    url,
                ),
                None => step == SinkStep::Continue && final(self).url == old(self).url,
            },
    {
        match token {
            Token::Tag(tag) => {
                if tag.kind == TagKind::Start && same_text(tag.name.as_str(), "a") {
                    match find_href(&tag.attrs) {
                        Some(i) => {
                            let value = &tag.attrs[i].value;
                            if has_prefix(value.as_str(), site.report_prefix.as_str()) {
                                let mut url = site.base_url.clone();
                                url.append(value.as_str());
                                self.url = Some(url);
                                return SinkStep::Plaintext;
                            }
                        },
                        None => {},
                    }
                }
            },
            Token::Other => {},
        }
        SinkStep::Continue
    }
}

/// The address of the latest report: the one that the first token with a
/// link to a report gives. `None` where no token has one.
pub fn find_latest_report_url(tokens: &Vec<Token>, site: &Site) -> (url: Option<String>)
    ensures
        option_text(url) == first_link(token_views(tokens@), site@),
{
    let ghost all = token_views(tokens@);
    let mut finder = LatestSituationReportFinder::new();
    let mut k: usize = 0;
    assert(all.skip(0) =~= all);
    while k < tokens.len()
        invariant
            k <= tokens.len(),
            all == token_views(tokens@),
            finder.url.is_none(),
            first_link(all.skip(k as int), site@) == first_link(all, site@),
        decreases tokens.len() - k,
    {
        proof {
            let here = all.skip(k as int);
            assert(here[0] == tokens@[k as int]@);
            assert(here.drop_first() =~= all.skip(k + 1));
        }
        match finder.process_token(&tokens[k], site) {
            SinkStep::Plaintext => {
                return finder.url;
            },
            SinkStep::Continue => {},
        }
        k += 1;
    }
    None
}

} // verus!
