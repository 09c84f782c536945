//! Link discovery: which recipe URLs an index page refers to.

use vstd::prelude::*;
use crate::markup::{page_fits, select_attr, selected_attr};
use crate::patterns::Patterns;
use crate::text::texts;
use crate::url_set::{distinct, lemma_distinct, lemma_with_urls, with_urls, UrlSet};
use crate::url_shape::{regex_compiles, regex_is_match, regex_matches};

verus! {

/// What one anchor contributes to the links of a page: its target, where it
/// has one and the target has the shape of a recipe URL.
pub open spec fn recipe_link(href: Option<Seq<char>>, pattern: Seq<char>) -> Option<Seq<char>> {
    match href {
        Some(url) => if regex_is_match(pattern, url) {
            Some(url)
        } else {
            None
        },
        None => None,
    }
}

/// The targets among `hrefs` that have the shape of a recipe URL, in order
/// and with repetitions.
pub open spec fn recipe_links(hrefs: Seq<Option<Seq<char>>>, pattern: Seq<char>) -> Seq<Seq<char>> {
    hrefs.filter_map(|href: Option<Seq<char>>| recipe_link(href, pattern))
}

/// The links of the page `content`: the targets of the anchors that the
/// selector `link` matches, as far as they match the expression `recipe_url`,
/// each once and in the order of its first anchor.
pub open spec fn page_links(link: Seq<char>, recipe_url: Seq<char>, content: Seq<char>) -> Seq<
    Seq<char>,
> {
    distinct(recipe_links(selected_attr(content, link, "href"@), recipe_url))
}

/// The links of several pages: those of the first page, then what each
/// further page adds to them.
pub open spec fn pages_links(link: Seq<char>, recipe_url: Seq<char>, pages: Seq<Seq<char>>) -> Seq<
    Seq<char>,
>
    decreases pages.len(),
{
    if pages.len() == 0 {
        Seq::empty()
    } else {
        with_urls(
            pages_links(link, recipe_url, pages.drop_last()),
            page_links(link, recipe_url, pages.last()),
        )
    }
}

/// The links of several pages hold nothing twice, and a URL is among them
/// exactly when it is among the links of one of the pages.
pub proof fn lemma_pages_links_unite(link: Seq<char>, recipe_url: Seq<char>, pages: Seq<Seq<char>>)
    ensures
        pages_links(link, recipe_url, pages).no_duplicates(),
        forall|url: Seq<char>| #[trigger]
            pages_links(link, recipe_url, pages).contains(url) <==> exists|i: int|
                0 <= i < pages.len() && page_links(link, recipe_url, #[trigger] pages[i]).contains(
                    url,
                ),
    decreases pages.len(),
{
    if pages.len() > 0 {
        let rest = pages.drop_last();
        let before = pages_links(link, recipe_url, rest);
        let added = page_links(link, recipe_url, pages.last());
        let all = pages_links(link, recipe_url, pages);
        lemma_pages_links_unite(link, recipe_url, rest);
        lemma_with_urls(before, added);
        assert forall|url: Seq<char>| #[trigger]
            all.contains(url) <==> exists|i: int|
                0 <= i < pages.len() && page_links(link, recipe_url, #[trigger] pages[i]).contains(
                    url,
                ) by {
            assert(all.contains(url) <==> all.to_set().contains(url));
            assert(before.contains(url) <==> before.to_set().contains(url));
            assert(added.contains(url) <==> added.to_set().contains(url));
            if before.contains(url) {
                let i = choose|i: int|
                    0 <= i < rest.len() && page_links(
                        link,
                        recipe_url,
                        #[trigger] rest[i],
                    ).contains(url);
                assert(pages[i] == rest[i]);
            }
            if added.contains(url) {
                assert(pages[pages.len() - 1] == pages.last());
            }
            if exists|i: int|
                0 <= i < pages.len() && page_links(link, recipe_url, #[trigger] pages[i]).contains(
                    url,
                ) {
                let i = choose|i: int|
                    0 <= i < pages.len() && page_links(
                        link,
                        recipe_url,
                        #[trigger] pages[i],
                    ).contains(url);
                if i < pages.len() - 1 {
                    assert(rest[i] == pages[i]);
                }
            }
        }
    }
}

/// Of the targets found on a page exactly the distinct ones of recipe shape
/// are kept: each occurs once however many anchors lead to it, and targets of
/// another shape do not occur.
pub proof fn lemma_links_are_matching_targets(hrefs: Seq<Option<Seq<char>>>, pattern: Seq<char>)
    ensures
        distinct(recipe_links(hrefs, pattern)).no_duplicates(),
        forall|url: Seq<char>| #[trigger]
            distinct(recipe_links(hrefs, pattern)).contains(url) <==> hrefs.contains(Some(url))
                && regex_is_match(pattern, url),
        distinct(recipe_links(hrefs, pattern)).len() == recipe_links(hrefs, pattern).to_set().len(),
{
    let links = recipe_links(hrefs, pattern);
    let f = |href: Option<Seq<char>>| recipe_link(href, pattern);
    lemma_distinct(links);
    assert forall|url: Seq<char>| #[trigger]
        distinct(links).contains(url) <==> hrefs.contains(Some(url)) && regex_is_match(
            pattern,
            url,
        ) by {
        assert(distinct(links).contains(url) <==> distinct(links).to_set().contains(url));
        assert(links.contains(url) <==> links.to_set().contains(url));
        if links.contains(url) {
            hrefs.lemma_filter_map_contains(f, url);
            let h = choose|h: Option<Seq<char>>| #[trigger] hrefs.contains(h) && f(h) == Some(url);
            assert(h == Some(url));
        }
        if hrefs.contains(Some(url)) && regex_is_match(pattern, url) {
            lemma_filter_map_keeps(hrefs, pattern, url);
        }
    }
}

/// The links of a page, said of the page itself: a URL is among them exactly
/// when it is the target of an anchor that the link selector matches and has
/// the shape of a recipe URL, and it is among them once.
pub proof fn lemma_page_links(link: Seq<char>, recipe_url: Seq<char>, content: Seq<char>)
    ensures
        page_links(link, recipe_url, content).no_duplicates(),
        forall|url: Seq<char>| #[trigger]
            page_links(link, recipe_url, content).contains(url) <==> selected_attr(
                content,
                link,
                "href"@,
            ).contains(Some(url)) && regex_is_match(recipe_url, url),
{
    lemma_links_are_matching_targets(selected_attr(content, link, "href"@), recipe_url);
}

/// A target of recipe shape that occurs among `hrefs` occurs among the links.
proof fn lemma_filter_map_keeps(hrefs: Seq<Option<Seq<char>>>, pattern: Seq<char>, url: Seq<char>)
    requires
        hrefs.contains(Some(url)),
        regex_is_match(pattern, url),
    ensures
        recipe_links(hrefs, pattern).contains(url),
    decreases hrefs.len(),
{
    let f = |href: Option<Seq<char>>| recipe_link(href, pattern);
    let i = choose|i: int| 0 <= i < hrefs.len() && hrefs[i] == Some(url);
    let rest = hrefs.drop_last();
    if i == hrefs.len() - 1 {
        let kept = rest.filter_map(f) + seq![url];
        assert(kept[kept.len() - 1] == url);
    } else {
        assert(rest[i] == Some(url));
        lemma_filter_map_keeps(rest, pattern, url);
        let before = rest.filter_map(f);
        let j = choose|j: int| 0 <= j < before.len() && before[j] == url;
        match f(hrefs.last()) {
            Some(s) => {
                assert((before + seq![s])[j] == url);
            },
            None => {},
        }
    }
}

/// Keeps of the targets found on a page those of recipe shape, each once.
pub fn keep_recipe_links(patterns: &Patterns, hrefs: Vec<Option<String>>) -> (links: UrlSet)
    ensures
        links.wf(),
        links.urls() == distinct(recipe_links(hrefs.deep_view(), patterns.recipe_url())),
{
    let ghost all = hrefs.deep_view();
    let ghost raw = hrefs@;
    let ghost f = |href: Option<Seq<char>>| recipe_link(href, patterns.recipe_url());
    let pattern = patterns.recipe_url_pattern();
    let mut links = UrlSet::new();
    for href in it: hrefs
        invariant
            it.seq() == raw,
            all.len() == raw.len(),
            forall|k: int| 0 <= k < raw.len() ==> all[k] == (#[trigger] raw[k]).deep_view(),
            pattern@ == patterns.recipe_url(),
            regex_compiles(pattern@),
            f == |href: Option<Seq<char>>| recipe_link(href, patterns.recipe_url()),
            links.wf(),
            links.urls() == distinct(all.take(it.index() as int).filter_map(f)),
    {
        proof {
            all.lemma_filter_map_take_succ(f, it.index() as int);
            assert(all[it.index() as int] == href.deep_view());
        }
        let ghost before = all.take(it.index() as int).filter_map(f);
        match href {
            Some(url) => {
                if regex_matches(pattern, url.as_str()) {
                    proof {
                        assert((before + seq![url@]).drop_last() =~= before);
                        assert((before + seq![url@]).last() == url@);
                    }
                    links.insert(url);
                } else {
                    assert(before + Seq::<Seq<char>>::empty() =~= before);
                }
            },
            None => {
                assert(before + Seq::<Seq<char>>::empty() =~= before);
            },
        }
    }
    proof {
        assert(all.take(all.len() as int) =~= all);
    }
    links
}

/// The recipe URLs that the page `content` refers to: the targets of the
/// anchors that the link selector matches, as far as they have the shape of a
/// recipe URL, each once. A page without such anchors gives the empty set.
/// The page has to be short enough for the parser.
pub fn parse_main(patterns: &Patterns, content: &str) -> (links: UrlSet)
    requires
        page_fits(content@),
    ensures
        links.wf(),
        links.urls() == page_links(patterns.link(), patterns.recipe_url(), content@),
{
    let hrefs = select_attr(content, patterns.link_selector(), "href");
    keep_recipe_links(patterns, hrefs)
}

/// The recipe URLs that several pages refer to, each once: the union of the
/// links of the pages, taken page by page. Each page has to be short enough
/// for the parser.
pub fn parse_main_pages(patterns: &Patterns, pages: &Vec<String>) -> (links: UrlSet)
    requires
        forall|i: int| 0 <= i < pages.len() ==> page_fits(#[trigger] pages[i]@),
    ensures
        links.wf(),
        links.urls() == pages_links(patterns.link(), patterns.recipe_url(), texts(pages@)),
{
    let mut links = UrlSet::new();
    let mut i: usize = 0;
    assert(texts(pages@).take(0) =~= Seq::<Seq<char>>::empty());
    while i < pages.len()
        invariant
            i <= pages.len(),
            forall|i: int| 0 <= i < pages.len() ==> page_fits(#[trigger] pages[i]@),
            links.wf(),
            links.urls() == pages_links(
                patterns.link(),
                patterns.recipe_url(),
                texts(pages@).take(i as int),
            ),
        decreases pages.len() - i,
    {
        let found = parse_main(patterns, pages[i].as_str());
        proof {
            let next = texts(pages@).take(i as int + 1);
            assert(next.drop_last() =~= texts(pages@).take(i as int));
            assert(next.last() == pages@[i as int]@);
        }
        links.extend(found.into_vec());
        i += 1;
    }
    proof {
        assert(texts(pages@).take(i as int) =~= texts(pages@));
    }
    links
}

} // verus!
