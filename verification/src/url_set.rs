//! The set of recipe URLs discovered so far.

use vstd::hash_set::StringHashSet;
use vstd::prelude::*;
use crate::text::texts;

verus! {

/// `urls` with `url` added at the end unless it is already there.
pub open spec fn with_url(urls: Seq<Seq<char>>, url: Seq<char>) -> Seq<Seq<char>> {
    if urls.contains(url) {
        urls
    } else {
        urls.push(url)
    }
}

/// `urls` with each of `more` added in turn.
pub open spec fn with_urls(urls: Seq<Seq<char>>, more: Seq<Seq<char>>) -> Seq<Seq<char>>
    decreases more.len(),
{
    if more.len() == 0 {
        urls
    } else {
        with_url(with_urls(urls, more.drop_last()), more.last())
    }
}

/// The distinct members of `urls`, each at the place of its first occurrence.
pub open spec fn distinct(urls: Seq<Seq<char>>) -> Seq<Seq<char>> {
    with_urls(Seq::empty(), urls)
}

/// Adding one URL keeps a duplicate-free sequence duplicate-free and adds
/// exactly that URL to its members.
pub proof fn lemma_with_url(urls: Seq<Seq<char>>, url: Seq<char>)
    requires
        urls.no_duplicates(),
    ensures
        with_url(urls, url).no_duplicates(),
        with_url(urls, url).to_set() == urls.to_set().insert(url),
        urls.is_prefix_of(with_url(urls, url)),
{
    let after = with_url(urls, url);
    assert forall|u: Seq<char>| after.to_set().contains(u) <==> urls.to_set().insert(
        url,
    ).contains(u) by {
        if after.contains(u) {
            let i = choose|i: int| 0 <= i < after.len() && after[i] == u;
            if i < urls.len() {
                assert(urls[i] == u);
            }
        }
        if urls.contains(u) {
            let i = choose|i: int| 0 <= i < urls.len() && urls[i] == u;
            assert(after[i] == u);
        }
        if u == url && !urls.contains(url) {
            assert(after[urls.len() as int] == u);
        }
    }
    assert(after.to_set() =~= urls.to_set().insert(url));
}

/// Adding URLs in turn keeps a duplicate-free sequence duplicate-free, keeps
/// what was there in place, and adds exactly the members of `more`.
pub proof fn lemma_with_urls(urls: Seq<Seq<char>>, more: Seq<Seq<char>>)
    requires
        urls.no_duplicates(),
    ensures
        with_urls(urls, more).no_duplicates(),
        with_urls(urls, more).to_set() == urls.to_set().union(more.to_set()),
        urls.is_prefix_of(with_urls(urls, more)),
    decreases more.len(),
{
    if more.len() == 0 {
        assert(more.to_set() =~= Set::<Seq<char>>::empty());
        assert(urls.to_set().union(more.to_set()) =~= urls.to_set());
    } else {
        let before = with_urls(urls, more.drop_last());
        lemma_with_urls(urls, more.drop_last());
        lemma_with_url(before, more.last());
        assert forall|u: Seq<char>| more.to_set().contains(u) <==> more.drop_last().to_set().insert(
            more.last(),
        ).contains(u) by {
            if more.contains(u) {
                let i = choose|i: int| 0 <= i < more.len() && more[i] == u;
                if i < more.len() - 1 {
                    assert(more.drop_last()[i] == u);
                }
            }
            if more.drop_last().contains(u) {
                let i = choose|i: int| 0 <= i < more.drop_last().len() && more.drop_last()[i] == u;
                assert(more[i] == u);
            }
            if u == more.last() {
                assert(more[more.len() - 1] == u);
            }
        }
        assert(with_urls(urls, more).to_set() =~= urls.to_set().union(more.to_set()));
    }
}

/// Every sequence of URLs collapses to its distinct members: nothing occurs
/// twice in `distinct(urls)`, and it has the very members of `urls`.
pub proof fn lemma_distinct(urls: Seq<Seq<char>>)
    ensures
        distinct(urls).no_duplicates(),
        distinct(urls).to_set() == urls.to_set(),
        distinct(urls).len() == urls.to_set().len(),
{
    lemma_with_urls(Seq::empty(), urls);
    assert(Seq::<Seq<char>>::empty().to_set() =~= Set::<Seq<char>>::empty());
    assert(Set::<Seq<char>>::empty().union(urls.to_set()) =~= urls.to_set());
    distinct(urls).unique_seq_to_set();
}

/// A set of URLs that remembers the order in which its members first came:
/// a hash set answers whether a URL is a member, a list keeps the order.
pub struct UrlSet {
    urls: Vec<String>,
    seen: StringHashSet,
}

impl View for UrlSet {
    type V = Set<Seq<char>>;

    open spec fn view(&self) -> Set<Seq<char>> {
        self.urls().to_set()
    }
}

impl UrlSet {
    /// The members, in the order of their first insertion.
    pub closed spec fn urls(&self) -> Seq<Seq<char>> {
        texts(self.urls@)
    }

    /// The hash set holds exactly the members of the list.
    pub closed spec fn indexed(&self) -> bool {
        self.seen@ == self.urls().to_set()
    }

    /// No URL occurs twice, and the hash set and the list agree.
    pub open spec fn wf(&self) -> bool {
        &&& self.urls().no_duplicates()
        &&& self.indexed()
    }

    /// The empty set.
    pub fn new() -> (set: Self)
        ensures
            set.wf(),
            set.urls() == Seq::<Seq<char>>::empty(),
    {
        let set = UrlSet { urls: Vec::new(), seen: StringHashSet::new() };
        assert(set.urls() =~= Seq::<Seq<char>>::empty());
        assert(set.urls().to_set() =~= Set::<Seq<char>>::empty());
        set
    }

    /// Number of members.
    pub fn len(&self) -> (n: usize)
        requires
            self.wf(),
        ensures
            n == self.urls().len(),
            n == self@.len(),
    {
        proof {
            self.urls().unique_seq_to_set();
        }
        self.urls.len()
    }

    /// Whether `url` is a member.
    pub fn contains(&self, url: &str) -> (found: bool)
        requires
            self.wf(),
        ensures
            found == self.urls().contains(url@),
            found == self@.contains(url@),
    {
        self.seen.contains(url)
    }

    /// Adds `url` unless it is already a member; says whether it was added.
    pub fn insert(&mut self, url: String) -> (added: bool)
        requires
            old(self).wf(),
        ensures
            final(self).wf(),
            final(self).urls() == with_url(old(self).urls(), url@),
            added == !old(self).urls().contains(url@),
            final(self)@ == old(self)@.insert(url@),
    {
        proof {
            lemma_with_url(self.urls(), url@);
        }
        if self.contains(url.as_str()) {
            false
        } else {
            self.seen.insert(url.clone());
            self.urls.push(url);
            assert(self.urls() =~= old(self).urls().push(url@));
            true
        }
    }

    /// Adds each of `more` in turn.
    pub fn extend(&mut self, more: Vec<String>)
        requires
            old(self).wf(),
        ensures
            final(self).wf(),
            final(self).urls() == with_urls(old(self).urls(), texts(more@)),
            final(self)@ == old(self)@.union(texts(more@).to_set()),
    {
        let ghost all = more@;
        for url in it: more
            invariant
                it.seq() == all,
                self.wf(),
                self.urls() == with_urls(old(self).urls(), texts(all.take(it.index() as int))),
        {
            proof {
                let done = all.take(it.index() as int);
                let next = all.take(it.index() as int + 1);
                assert(texts(next).drop_last() =~= texts(done));
                assert(texts(next).last() == url@);
            }
            self.insert(url);
        }
        proof {
            assert(all.take(all.len() as int) =~= all);
            lemma_with_urls(old(self).urls(), texts(all));
        }
    }

    /// The members as a list, in the order of their first insertion.
    pub fn into_vec(self) -> (urls: Vec<String>)
        ensures
            texts(urls@) == self.urls(),
    {
        self.urls
    }
}

} // verus!
