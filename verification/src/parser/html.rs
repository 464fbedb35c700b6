//! What the crawler takes from an HTML page: its links, its text, its title
//! and description. The HTML parsing itself is the `scraper` crate's.
use vstd::prelude::*;

use crate::utils::text::starts_with;
use crate::utils::url_utils::{join_url, normalize_url, normalized, url_join};

verus! {

/// For the document parsed from `body`: `None` where `selector` is no valid
/// CSS selector, else the value of attribute `attr` of each element that
/// `selector` matches (`None` for an element without it). The elements come
/// in the order in which the parser created them, those detached from the
/// tree left out.
pub uninterp spec fn selected_attrs(body: Seq<char>, selector: Seq<char>, attr: Seq<char>) -> Option<Seq<Option<Seq<char>>>>;

/// For the document parsed from `body`: `None` where `selector` is no valid
/// CSS selector, else the inner HTML of each element it matches, in the order
/// in which the parser created them, those detached from the tree left out.
pub uninterp spec fn selected_inner_html(body: Seq<char>, selector: Seq<char>) -> Option<Seq<Seq<char>>>;

/// The text nodes under the root element of the document parsed from `body`,
/// in tree order (a node before its children, children in order).
pub uninterp spec fn text_nodes(body: Seq<char>) -> Seq<Seq<char>>;

/// Calls `scraper::Selector::parse(selector)`, `scraper::Html::parse_document(body)`,
/// `select` and `attr(attr)` on each match; claims the result is
/// `selected_attrs(body, selector, attr)`.
#[verifier::external_body]
fn scrape_attrs(body: &str, selector: &str, attr: &str) -> (r: Option<Vec<Option<String>>>)
    ensures
        r.deep_view() == selected_attrs(body@, selector@, attr@),
{
    match scraper::Selector::parse(selector) {
        Ok(sel) => {
            let document = scraper::Html::parse_document(body);
            Some(document.select(&sel).map(|e| e.value().attr(attr).map(|v| v.to_string())).collect())
        },
        Err(_) => None,
    }
}

/// Calls `scraper::Selector::parse(selector)`, `scraper::Html::parse_document(body)`,
/// `select` and `inner_html` on each match; claims the result is
/// `selected_inner_html(body, selector)`.
#[verifier::external_body]
fn scrape_inner_html(body: &str, selector: &str) -> (r: Option<Vec<String>>)
    ensures
        r.deep_view() == selected_inner_html(body@, selector@),
{
    match scraper::Selector::parse(selector) {
        Ok(sel) => {
            let document = scraper::Html::parse_document(body);
            Some(document.select(&sel).map(|e| e.inner_html()).collect())
        },
        Err(_) => None,
    }
}

/// Calls `scraper::Html::parse_document` and collects the text of its root
/// element; claims the result is `text_nodes(body)`.
#[verifier::external_body]
fn scrape_text_nodes(body: &str) -> (r: Vec<String>)
    ensures
        r.deep_view() == text_nodes(body@),
{
    let document = scraper::Html::parse_document(body);
    document.root_element().text().map(|t| t.to_string()).collect()
}

/// The `href` attribute of each `<a>` element of the page `body`, in the
/// order in which the parser created the elements (none where the selector
/// is refused).
pub open spec fn anchor_hrefs(body: Seq<char>) -> Seq<Option<Seq<char>>> {
    match selected_attrs(body, "a"@, "href"@) {
        Some(hs) => hs,
        None => seq![],
    }
}

/// The inner HTML of each `<title>` element of the page `body`.
pub open spec fn titles(body: Seq<char>) -> Seq<Seq<char>> {
    match selected_inner_html(body, "title"@) {
        Some(ts) => ts,
        None => seq![],
    }
}

/// The `content` attribute of each `<meta name="description">` element of
/// the page `body`.
pub open spec fn description_contents(body: Seq<char>) -> Seq<Option<Seq<char>>> {
    match selected_attrs(body, "meta[name=\"description\"]"@, "content"@) {
        Some(cs) => cs,
        None => seq![],
    }
}

/// `"http"`
pub open spec fn http() -> Seq<char> {
    seq!['h', 't', 't', 'p']
}

/// The absolute form of an `href` found on the page at `base`: the `href`
/// itself where it starts with `http`, else the `href` resolved against `base`.
pub open spec fn absolute_link(base: Seq<char>, href: Seq<char>) -> Option<Seq<char>> {
    if http().is_prefix_of(href) {
        Some(href)
    } else {
        url_join(base, href)
    }
}

/// The normal form of an `href` found on the page at `base`, if it has one.
pub open spec fn resolved_link(base: Seq<char>, href: Option<Seq<char>>) -> Option<Seq<char>> {
    match href {
        Some(h) => match absolute_link(base, h) {
            Some(full) => normalized(full),
            None => None,
        },
        None => None,
    }
}

/// The links that the `href`s of a page at `base` lead to, normalised, in
/// order; those that do not resolve are left out.
pub open spec fn links_from(base: Seq<char>, hrefs: Seq<Option<Seq<char>>>) -> Seq<Seq<char>> {
    hrefs.filter_map(|h: Option<Seq<char>>| resolved_link(base, h))
}

/// `parts` joined with `sep` between consecutive parts.
pub open spec fn joined(parts: Seq<Seq<char>>, sep: Seq<char>) -> Seq<char>
    decreases parts.len(),
{
    if parts.len() == 0 {
        seq![]
    } else if parts.len() == 1 {
        parts[0]
    } else {
        joined(parts.drop_last(), sep) + sep + parts.last()
    }
}

/// The text of the page `body`: its text nodes joined with single spaces.
pub open spec fn page_text(body: Seq<char>) -> Seq<char> {
    joined(text_nodes(body), seq![' '])
}

/// The first of `ts`, or nothing where there is none.
pub open spec fn first_or_empty(ts: Seq<Seq<char>>) -> Seq<char> {
    if ts.len() > 0 {
        ts[0]
    } else {
        seq![]
    }
}

/// The value of the first of `cs` where it is present, else nothing.
pub open spec fn first_present_or_empty(cs: Seq<Option<Seq<char>>>) -> Seq<char> {
    if cs.len() > 0 && cs[0] is Some {
        cs[0]->0
    } else {
        seq![]
    }
}

/// The title of the page `body`: the inner HTML of its first `<title>`.
pub open spec fn page_title(body: Seq<char>) -> Seq<char> {
    first_or_empty(titles(body))
}

/// The description of the page `body`: the `content` of its first
/// `<meta name="description">`, nothing where that element has none.
pub open spec fn page_description(body: Seq<char>) -> Seq<char> {
    first_present_or_empty(description_contents(body))
}

/// The links of the page at `base` whose HTML is `body`.
pub open spec fn page_links(base: Seq<char>, body: Seq<char>) -> Seq<Seq<char>> {
    links_from(base, anchor_hrefs(body))
}

/// The normal form of one `href` found on the page at `base`.
fn resolve_link(base: &str, href: &String) -> (r: Option<String>)
    ensures
        r.deep_view() == resolved_link(base@, Some(href@)),
{
    let h = href.as_str();
    proof {
        reveal_strlit("http");
        assert("http"@ =~= http());
    }
    if starts_with(h, "http") {
        normalize_url(h)
    } else {
        match join_url(base, h) {
            Ok(full) => normalize_url(full.as_str()),
            Err(_) => None,
        }
    }
}

/// The links that `hrefs`, found on the page at `base`, lead to: each made
/// absolute (kept where it starts with `http`, else resolved against
/// `base`) and normalised; those that fail either step are left out.
pub fn resolve_links(base: &str, hrefs: &Vec<Option<String>>) -> (r: Vec<String>)
    ensures
        r.deep_view() == links_from(base@, hrefs.deep_view()),
{
    let mut out: Vec<String> = Vec::new();
    let n = hrefs.len();
    for i in 0..n
        invariant
            n == hrefs@.len(),
            out.deep_view() == links_from(base@, hrefs.deep_view().take(i as int)),
    {
        let ghost pre = hrefs.deep_view().take(i as int);
        let ghost cur = hrefs.deep_view().take(i + 1);
        assert(cur.drop_last() =~= pre);
        assert(cur.last() == hrefs@[i as int].deep_view());
        let ghost before = out.deep_view();
        match &hrefs[i] {
            Some(h) => {
                match resolve_link(base, h) {
                    Some(link) => {
                        out.push(link);
                        assert(out.deep_view() =~= before + seq![link@]);
                    },
                    None => {},
                }
            },
            None => {},
        }
        assert(out.deep_view() =~= links_from(base@, cur));
    }
    assert(hrefs.deep_view().take(n as int) =~= hrefs.deep_view());
    out
}

/// The links of the page at `url` with HTML `body`: the `href` of each `<a>`,
/// made absolute against `url` and normalised, in the order in which the
/// parser created the `<a>` elements.
pub fn extract_links(url: &str, body: &str) -> (r: Vec<String>)
    ensures
        r.deep_view() == page_links(url@, body@),
{
    match scrape_attrs(body, "a", "href") {
        Some(hrefs) => resolve_links(url, &hrefs),
        None => Vec::new(),
    }
}

/// `parts` joined with single spaces.
pub fn join_with_space(parts: &Vec<String>) -> (r: String)
    ensures
        r@ == joined(parts.deep_view(), seq![' ']),
{
    let mut out = String::new();
    let n = parts.len();
    proof {
        reveal_strlit(" ");
        assert(" "@ =~= seq![' ']);
    }
    for i in 0..n
        invariant
            n == parts@.len(),
            " "@ == seq![' '],
            out@ == joined(parts.deep_view().take(i as int), seq![' ']),
    {
        let ghost cur = parts.deep_view().take(i + 1);
        assert(cur.drop_last() =~= parts.deep_view().take(i as int));
        assert(cur.last() == parts@[i as int]@);
        if i > 0 {
            out.append(" ");
        } else {
            assert(out@ + parts@[0]@ =~= parts@[0]@);
        }
        out.append(parts[i].as_str());
    }
    assert(parts.deep_view().take(n as int) =~= parts.deep_view());
    out
}

/// The text of the page `body`: all its text nodes, joined with spaces.
pub fn extract_text(body: &str) -> (r: String)
    ensures
        r@ == page_text(body@),
{
    let nodes = scrape_text_nodes(body);
    join_with_space(&nodes)
}

/// The title and description that `titles` and `contents` give: the first
/// title, and the first description's content where it has one; empty
/// strings where these are missing.
pub fn metadata_from(titles: &Vec<String>, contents: &Vec<Option<String>>) -> (r: (String, String))
    ensures
        r.0@ == first_or_empty(titles.deep_view()),
        r.1@ == first_present_or_empty(contents.deep_view()),
{
    let title = if titles.len() > 0 {
        titles[0].clone()
    } else {
        String::new()
    };
    let description = if contents.len() > 0 {
        match &contents[0] {
            Some(c) => c.clone(),
            None => String::new(),
        }
    } else {
        String::new()
    };
    (title, description)
}

/// The first of `ts`, if there is one.
pub open spec fn first_of(ts: Seq<Seq<char>>) -> Option<Seq<char>> {
    if ts.len() > 0 {
        Some(ts[0])
    } else {
        None
    }
}

/// The values present among `cs`, in order.
pub open spec fn present(cs: Seq<Option<Seq<char>>>) -> Seq<Seq<char>> {
    cs.filter_map(|c: Option<Seq<char>>| c)
}

/// What `titles` and `contents` tell of a page: its first title, if any,
/// and the content of each description that has one, in order.
pub fn info_from(titles: &Vec<String>, contents: &Vec<Option<String>>) -> (r: (Option<String>, Vec<String>))
    ensures
        r.0.deep_view() == first_of(titles.deep_view()),
        r.1.deep_view() == present(contents.deep_view()),
{
    let title = if titles.len() > 0 {
        Some(titles[0].clone())
    } else {
        None
    };
    let mut descriptions: Vec<String> = Vec::new();
    let n = contents.len();
    for i in 0..n
        invariant
            n == contents@.len(),
            descriptions.deep_view() == present(contents.deep_view().take(i as int)),
    {
        let ghost cur = contents.deep_view().take(i + 1);
        assert(cur.drop_last() =~= contents.deep_view().take(i as int));
        assert(cur.last() == contents@[i as int].deep_view());
        let ghost before = descriptions.deep_view();
        match &contents[i] {
            Some(c) => {
                descriptions.push(c.clone());
                assert(descriptions.deep_view() =~= before.push(c@));
            },
            None => {},
        }
        assert(descriptions.deep_view() =~= present(cur));
    }
    assert(contents.deep_view().take(n as int) =~= contents.deep_view());
    (title, descriptions)
}

/// What the crawler reports of the page `body` as it reads it: the inner
/// HTML of its first `<title>`, if it has one, and the `content` of each
/// `<meta name="description">` that has one.
pub fn page_info(body: &str) -> (r: (Option<String>, Vec<String>))
    ensures
        r.0.deep_view() == first_of(titles(body@)),
        r.1.deep_view() == present(description_contents(body@)),
{
    let ts = match scrape_inner_html(body, "title") {
        Some(ts) => ts,
        None => Vec::new(),
    };
    let cs = match scrape_attrs(body, "meta[name=\"description\"]", "content") {
        Some(cs) => cs,
        None => Vec::new(),
    };
    info_from(&ts, &cs)
}

/// The title and the description of the page `body`.
pub fn extract_metadata(body: &str) -> (r: (String, String))
    ensures
        r.0@ == page_title(body@),
        r.1@ == page_description(body@),
{
    let ts = match scrape_inner_html(body, "title") {
        Some(ts) => ts,
        None => Vec::new(),
    };
    let cs = match scrape_attrs(body, "meta[name=\"description\"]", "content") {
        Some(cs) => cs,
        None => Vec::new(),
    };
    metadata_from(&ts, &cs)
}

/// The title of a page is the inner HTML of its first `<title>`, empty where
/// it has none; its description is the `content` of its first
/// `<meta name="description">`, empty where there is none or where that
/// element has no `content`. Neither depends on the other: a page without a
/// description has an empty one, whatever its title. The title reported as
/// the page is read is that first title, and none where there is none.
pub proof fn lemma_title_and_description(body: Seq<char>)
    ensures
        first_of(titles(body)) == if titles(body).len() > 0 {
            Some(titles(body)[0])
        } else {
            None
        },
        titles(body).len() == 0 ==> page_title(body) == Seq::<char>::empty(),
        titles(body).len() > 0 ==> page_title(body) == titles(body)[0],
        description_contents(body).len() == 0 ==> page_description(body) == Seq::<char>::empty(),
        description_contents(body).len() > 0 ==> page_description(body) == match description_contents(body)[0] {
            Some(c) => c,
            None => Seq::<char>::empty(),
        },
{
}

/// Joining puts the separator between consecutive parts and nowhere else:
/// no parts give nothing, one part gives itself, and one more part adds the
/// separator and that part at the end.
pub proof fn lemma_joined_parts(parts: Seq<Seq<char>>, p: Seq<char>, sep: Seq<char>)
    ensures
        joined(Seq::<Seq<char>>::empty(), sep) == Seq::<char>::empty(),
        joined(seq![p], sep) == p,
        parts.len() > 0 ==> joined(parts.push(p), sep) == joined(parts, sep) + sep + p,
{
    assert(parts.push(p).drop_last() =~= parts);
}

/// The descriptions reported of a page keep those with a value, in order:
/// one more element adds its value at the end, or nothing where it has none.
pub proof fn lemma_present_push(cs: Seq<Option<Seq<char>>>, c: Option<Seq<char>>)
    ensures
        present(Seq::<Option<Seq<char>>>::empty()) == Seq::<Seq<char>>::empty(),
        present(cs.push(c)) == match c {
            Some(v) => present(cs).push(v),
            None => present(cs),
        },
{
    assert(cs.push(c).drop_last() =~= cs);
    assert(Seq::<Option<Seq<char>>>::empty().filter_map(|c: Option<Seq<char>>| c) =~= Seq::<Seq<char>>::empty());
}

/// The text of a page is its text nodes with one space between each two:
/// nothing where it has none, the node itself where it has one, and with one
/// more node, the text of the others, a space and that node.
pub proof fn lemma_page_text_nodes(body: Seq<char>)
    ensures
        text_nodes(body).len() == 0 ==> page_text(body) == Seq::<char>::empty(),
        text_nodes(body).len() == 1 ==> page_text(body) == text_nodes(body)[0],
        text_nodes(body).len() > 1 ==> page_text(body) == joined(text_nodes(body).drop_last(), seq![' '])
            + seq![' '] + text_nodes(body).last(),
{
}

/// The links of a page come from its `href`s one by one, in order: an
/// `href` that starts with `http` is taken as it is, any other is resolved
/// against the page's address; either way it is kept, normalised, exactly
/// when it normalises, and an element without `href` gives nothing.
pub proof fn lemma_links_one_by_one(base: Seq<char>, hrefs: Seq<Option<Seq<char>>>, h: Option<Seq<char>>)
    ensures
        links_from(base, Seq::<Option<Seq<char>>>::empty()) == Seq::<Seq<char>>::empty(),
        links_from(base, hrefs.push(h)) == match h {
            None => links_from(base, hrefs),
            Some(href) => {
                let full = if http().is_prefix_of(href) {
                    Some(href)
                } else {
                    url_join(base, href)
                };
                match full {
                    Some(f) => match normalized(f) {
                        Some(n) => links_from(base, hrefs).push(n),
                        None => links_from(base, hrefs),
                    },
                    None => links_from(base, hrefs),
                }
            },
        },
{
    assert(hrefs.push(h).drop_last() =~= hrefs);
    assert(Seq::<Option<Seq<char>>>::empty().filter_map(|h: Option<Seq<char>>| resolved_link(base, h))
        =~= Seq::<Seq<char>>::empty());
}

} // verus!
