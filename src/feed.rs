//! The feed transform: drops short videos, adds durations to titles and
//! removes modification dates.

use vstd::prelude::*;
use crate::duration::{duration_text, format_duration};
use crate::store::VideoStore;
use crate::text::str_eq;
use crate::video::VideoRecord;
use crate::xml::{
    child_text, element_of, first_named, is_element_named, lemma_first_named_prefix,
    node_is_named, text_of_child, XmlElement, XmlNode,
};

verus! {

/// Why a feed cannot be transformed.
#[derive(Clone, Copy, Debug, PartialEq, Eq, Structural)]
pub enum FeedError {
    /// An entry has no video id.
    MissingVideoId,
    /// An entry has no title.
    MissingTitle,
    /// An entry's video has no cached record yet.
    Uncached,
}

pub open spec fn entry_tag() -> Seq<char> {
    "entry"@
}

pub open spec fn video_id_tag() -> Seq<char> {
    "videoId"@
}

pub open spec fn title_tag() -> Seq<char> {
    "title"@
}

pub open spec fn updated_tag() -> Seq<char> {
    "updated"@
}

/// `n` is a feed entry.
pub open spec fn is_entry(n: XmlNode) -> bool {
    is_element_named(n, entry_tag())
}

/// What stops entry `e` from being transformed, if anything.
pub open spec fn entry_check(e: XmlElement, store: Map<Seq<char>, VideoRecord>) -> Option<FeedError> {
    match child_text(e, video_id_tag()) {
        None => Some(FeedError::MissingVideoId),
        Some(id) => match child_text(e, title_tag()) {
            None => Some(FeedError::MissingTitle),
            Some(_) => if store.contains_key(id) {
                None
            } else {
                Some(FeedError::Uncached)
            },
        },
    }
}

/// The first entry of `s` that cannot be transformed.
pub open spec fn failing_entry(s: Seq<XmlNode>, store: Map<Seq<char>, VideoRecord>) -> Option<XmlElement>
    decreases s.len(),
{
    if s.len() == 0 {
        None
    } else {
        match failing_entry(s.drop_last(), store) {
            Some(e) => Some(e),
            None => if is_entry(s.last()) && entry_check(element_of(s.last()), store) is Some {
                Some(element_of(s.last()))
            } else {
                None
            },
        }
    }
}

/// What stops a feed with children `s` from being transformed, if anything.
pub open spec fn feed_check(s: Seq<XmlNode>, store: Map<Seq<char>, VideoRecord>) -> Option<FeedError> {
    match failing_entry(s, store) {
        Some(e) => entry_check(e, store),
        None => None,
    }
}

/// The video id of entry `e`; meaningful where it has one.
pub open spec fn entry_id(e: XmlElement) -> Seq<char> {
    child_text(e, video_id_tag()).unwrap()
}

/// The video id of the first failing entry of `s`, where it fails only for
/// want of a cached record.
pub open spec fn uncached_id(s: Seq<XmlNode>, store: Map<Seq<char>, VideoRecord>) -> Option<Seq<char>> {
    match failing_entry(s, store) {
        Some(e) => if entry_check(e, store) == Some(FeedError::Uncached) {
            Some(entry_id(e))
        } else {
            None
        },
        None => None,
    }
}

/// Entry `e` is transformed and stays in the feed.
pub open spec fn entry_kept(e: XmlElement, store: Map<Seq<char>, VideoRecord>) -> bool {
    entry_check(e, store) is None && !store[entry_id(e)].is_short
}

/// The title that a kept entry gets: the old one followed by the duration.
pub open spec fn new_title(e: XmlElement, store: Map<Seq<char>, VideoRecord>) -> Seq<char> {
    child_text(e, title_tag()).unwrap() + " ("@ + duration_text(store[entry_id(e)].length as nat) + ")"@
}

/// `a` and `b` agree in all but their children.
pub open spec fn same_but_children(a: XmlElement, b: XmlElement) -> bool {
    &&& a.prefix == b.prefix
    &&& a.namespace == b.namespace
    &&& a.namespaces == b.namespaces
    &&& a.name == b.name
    &&& a.attributes == b.attributes
}

/// `out` is the element `orig` with the text `title` as its only child.
pub open spec fn retitled(orig: XmlNode, out: XmlNode, title: Seq<char>) -> bool {
    &&& out is Element
    &&& same_but_children(element_of(orig), element_of(out))
    &&& element_of(out).children@.len() == 1
    &&& match element_of(out).children@[0] {
        XmlNode::Text(t) => t@ == title,
        _ => false,
    }
}

/// `out` are the children `orig` of a kept entry after the rewrite: the first
/// title element holds `title`, modification dates are gone, the rest stays.
pub open spec fn rewritten_children(orig: Seq<XmlNode>, out: Seq<XmlNode>, title: Seq<char>) -> bool
    decreases orig.len(),
{
    if orig.len() == 0 {
        out.len() == 0
    } else {
        let n = orig.last();
        let p = orig.drop_last();
        if is_element_named(n, updated_tag()) {
            rewritten_children(p, out, title)
        } else if is_element_named(n, title_tag()) && first_named(p, title_tag()) is None {
            out.len() > 0 && rewritten_children(p, out.drop_last(), title) && retitled(n, out.last(), title)
        } else {
            out.len() > 0 && rewritten_children(p, out.drop_last(), title) && out.last() == n
        }
    }
}

/// `out` is entry `orig` rewritten with title `title`.
pub open spec fn rewritten_entry(orig: XmlElement, out: XmlElement, title: Seq<char>) -> bool {
    same_but_children(orig, out) && rewritten_children(orig.children@, out.children@, title)
}

/// `out` are the kept entries among `orig`, rewritten, in their order.
pub open spec fn rewritten_entries(orig: Seq<XmlNode>, out: Seq<XmlNode>, store: Map<Seq<char>, VideoRecord>) -> bool
    decreases orig.len(),
{
    if orig.len() == 0 {
        out.len() == 0
    } else {
        let n = orig.last();
        let p = orig.drop_last();
        if is_entry(n) && entry_kept(element_of(n), store) {
            &&& out.len() > 0
            &&& rewritten_entries(p, out.drop_last(), store)
            &&& out.last() is Element
            &&& rewritten_entry(element_of(n), element_of(out.last()), new_title(element_of(n), store))
        } else {
            rewritten_entries(p, out, store)
        }
    }
}

/// The children of `s` that are not entries, in their order.
pub open spec fn other_nodes(s: Seq<XmlNode>) -> Seq<XmlNode>
    decreases s.len(),
{
    if s.len() == 0 {
        Seq::empty()
    } else if is_entry(s.last()) {
        other_nodes(s.drop_last())
    } else {
        other_nodes(s.drop_last()).push(s.last())
    }
}

/// `out` is feed `orig` transformed: its other children first, unchanged, then
/// the kept entries, rewritten.
pub open spec fn transformed_feed(orig: XmlElement, out: XmlElement, store: Map<Seq<char>, VideoRecord>) -> bool {
    let k = other_nodes(orig.children@).len() as int;
    &&& same_but_children(orig, out)
    &&& k <= out.children@.len()
    &&& out.children@.subrange(0, k) == other_nodes(orig.children@)
    &&& rewritten_entries(orig.children@, out.children@.subrange(k, out.children@.len() as int), store)
}

/// A failing entry within a prefix is the first failing entry of the whole sequence.
pub proof fn lemma_failing_entry_prefix(s: Seq<XmlNode>, k: int, store: Map<Seq<char>, VideoRecord>)
    requires
        0 <= k <= s.len(),
        failing_entry(s.subrange(0, k), store) is Some,
    ensures
        failing_entry(s, store) == failing_entry(s.subrange(0, k), store),
    decreases s.len() - k,
{
    if k < s.len() {
        assert(s.subrange(0, k + 1).drop_last() == s.subrange(0, k));
        lemma_failing_entry_prefix(s, k + 1, store);
    } else {
        assert(s.subrange(0, k) == s);
    }
}

/// The first failing entry is one of the entries of `s`, and it fails.
pub proof fn lemma_failing_entry_in(s: Seq<XmlNode>, store: Map<Seq<char>, VideoRecord>)
    ensures
        failing_entry(s, store) matches Some(e) ==> exists|i: int|
            0 <= i < s.len() && is_entry(#[trigger] s[i]) && element_of(s[i]) == e && entry_check(e, store) is Some,
    decreases s.len(),
{
    if s.len() > 0 {
        let p = s.drop_last();
        lemma_failing_entry_in(p, store);
        if let Some(e) = failing_entry(p, store) {
            let i = choose|i: int| 0 <= i < p.len() && is_entry(#[trigger] p[i]) && element_of(p[i]) == e && entry_check(e, store) is Some;
            assert(s[i] == p[i]);
        }
    }
}

/// Once a video's record is cached, no feed asks for it to be fetched again,
/// and caching further records keeps it.
pub proof fn cached_video_not_fetched_again(
    s: Seq<XmlNode>,
    store: Map<Seq<char>, VideoRecord>,
    id: Seq<char>,
    other: Seq<char>,
    rec: VideoRecord,
)
    requires
        store.contains_key(id),
    ensures
        uncached_id(s, store) != Some(id),
        store.insert(other, rec).contains_key(id),
{
}

/// A feed whose entries all have their records cached needs no fetch, and its
/// transform has the same outcome however often it is run on that store.
pub proof fn cached_feed_needs_no_fetch(s: Seq<XmlNode>, store: Map<Seq<char>, VideoRecord>)
    requires
        forall|i: int| 0 <= i < s.len() && is_entry(#[trigger] s[i]) ==>
            (child_text(element_of(s[i]), video_id_tag()) matches Some(id) ==> store.contains_key(id)),
    ensures
        feed_check(s, store) != Some(FeedError::Uncached),
        uncached_id(s, store) is None,
{
    lemma_failing_entry_in(s, store);
}

/// `a` and `b` are equal, or are texts with the same content.
pub open spec fn same_leaf(a: XmlNode, b: XmlNode) -> bool {
    match (a, b) {
        (XmlNode::Text(x), XmlNode::Text(y)) => x@ == y@,
        _ => a == b,
    }
}

/// `a` and `b` are equal, or are elements that agree but in their children,
/// which agree one by one by [`same_leaf`].
pub open spec fn same_child(a: XmlNode, b: XmlNode) -> bool {
    a == b || {
        &&& a is Element
        &&& b is Element
        &&& same_but_children(element_of(a), element_of(b))
        &&& element_of(a).children@.len() == element_of(b).children@.len()
        &&& forall|k: int| 0 <= k < element_of(a).children@.len()
            ==> same_leaf(#[trigger] element_of(a).children@[k], element_of(b).children@[k])
    }
}

/// `a` and `b` are elements that agree but in their children, which agree one
/// by one by [`same_child`].
pub open spec fn same_entry(a: XmlNode, b: XmlNode) -> bool {
    &&& a is Element
    &&& b is Element
    &&& same_but_children(element_of(a), element_of(b))
    &&& element_of(a).children@.len() == element_of(b).children@.len()
    &&& forall|k: int| 0 <= k < element_of(a).children@.len()
        ==> same_child(#[trigger] element_of(a).children@[k], element_of(b).children@[k])
}

/// Two feeds that agree but in their children, whose first `k` children are
/// equal and whose other children agree one by one by [`same_entry`].
pub open spec fn same_feed(a: XmlElement, b: XmlElement, k: int) -> bool {
    &&& same_but_children(a, b)
    &&& a.children@.len() == b.children@.len()
    &&& 0 <= k <= a.children@.len()
    &&& a.children@.subrange(0, k) == b.children@.subrange(0, k)
    &&& forall|i: int| k <= i < a.children@.len() ==> same_entry(#[trigger] a.children@[i], b.children@[i])
}

proof fn lemma_rewritten_children_agree(orig: Seq<XmlNode>, a: Seq<XmlNode>, b: Seq<XmlNode>, title: Seq<char>)
    requires
        rewritten_children(orig, a, title),
        rewritten_children(orig, b, title),
    ensures
        a.len() == b.len(),
        forall|k: int| 0 <= k < a.len() ==> same_child(#[trigger] a[k], b[k]),
    decreases orig.len(),
{
    if orig.len() > 0 {
        let n = orig.last();
        let p = orig.drop_last();
        if is_element_named(n, updated_tag()) {
            lemma_rewritten_children_agree(p, a, b, title);
        } else {
            lemma_rewritten_children_agree(p, a.drop_last(), b.drop_last(), title);
            assert forall|k: int| 0 <= k < a.len() implies same_child(#[trigger] a[k], b[k]) by {
                if k < a.len() - 1 {
                    assert(a[k] == a.drop_last()[k]);
                    assert(b[k] == b.drop_last()[k]);
                } else if is_element_named(n, title_tag()) && first_named(p, title_tag()) is None {
                    let ea = element_of(a.last());
                    let eb = element_of(b.last());
                    assert(same_leaf(ea.children@[0], eb.children@[0]));
                    assert forall|j: int| 0 <= j < ea.children@.len()
                        implies same_leaf(#[trigger] ea.children@[j], eb.children@[j]) by {
                        assert(j == 0);
                    }
                }
            }
        }
    }
}

proof fn lemma_rewritten_entries_agree(
    orig: Seq<XmlNode>,
    a: Seq<XmlNode>,
    b: Seq<XmlNode>,
    store: Map<Seq<char>, VideoRecord>,
)
    requires
        rewritten_entries(orig, a, store),
        rewritten_entries(orig, b, store),
    ensures
        a.len() == b.len(),
        forall|k: int| 0 <= k < a.len() ==> same_entry(#[trigger] a[k], b[k]),
    decreases orig.len(),
{
    if orig.len() > 0 {
        let n = orig.last();
        let p = orig.drop_last();
        if is_entry(n) && entry_kept(element_of(n), store) {
            lemma_rewritten_entries_agree(p, a.drop_last(), b.drop_last(), store);
            let t = new_title(element_of(n), store);
            lemma_rewritten_children_agree(
                element_of(n).children@,
                element_of(a.last()).children@,
                element_of(b.last()).children@,
                t,
            );
            assert forall|k: int| 0 <= k < a.len() implies same_entry(#[trigger] a[k], b[k]) by {
                if k < a.len() - 1 {
                    assert(a[k] == a.drop_last()[k]);
                    assert(b[k] == b.drop_last()[k]);
                }
            }
        } else {
            lemma_rewritten_entries_agree(p, a, b, store);
        }
    }
}

/// Transforming one feed twice against one store gives the same document:
/// the other children are equal, and the kept entries agree everywhere, their
/// new titles having the same text.
pub proof fn transform_is_deterministic(feed: XmlElement, a: XmlElement, b: XmlElement, store: Map<Seq<char>, VideoRecord>)
    requires
        transformed_feed(feed, a, store),
        transformed_feed(feed, b, store),
    ensures
        same_feed(a, b, other_nodes(feed.children@).len() as int),
{
    let k = other_nodes(feed.children@).len() as int;
    let ea = a.children@.subrange(k, a.children@.len() as int);
    let eb = b.children@.subrange(k, b.children@.len() as int);
    lemma_rewritten_entries_agree(feed.children@, ea, eb, store);
    assert forall|i: int| k <= i < a.children@.len() implies same_entry(#[trigger] a.children@[i], b.children@[i]) by {
        assert(a.children@[i] == ea[i - k]);
        assert(b.children@[i] == eb[i - k]);
    }
}

/// Checks entry `e` against the store: its video id, its title and its record.
/// Returns the id and the record where the entry can be transformed.
fn check_entry(e: &XmlElement, store: &VideoStore) -> (r: Result<(String, String, VideoRecord), FeedError>)
    requires
        store.wf(),
    ensures
        match r {
            Ok((id, title, rec)) => {
                &&& entry_check(*e, store@) is None
                &&& child_text(*e, video_id_tag()) == Some(id@)
                &&& child_text(*e, title_tag()) == Some(title@)
                &&& store@[id@] == rec
            },
            Err(err) => entry_check(*e, store@) == Some(err),
        },
{
    proof {
        reveal_strlit("videoId");
        reveal_strlit("title");
    }
    let id = match text_of_child(e, "videoId") {
        Some(id) => id,
        None => {
            return Err(FeedError::MissingVideoId);
        },
    };
    let title = match text_of_child(e, "title") {
        Some(t) => t,
        None => {
            return Err(FeedError::MissingTitle);
        },
    };
    match store.lookup(id.as_str()) {
        Some(rec) => Ok((id, title, rec)),
        None => Err(FeedError::Uncached),
    }
}

/// Rewrites the children of a kept entry: the first title element gets
/// `title` as its only child and modification dates are removed.
fn rewrite_children(children: Vec<XmlNode>, title: String) -> (r: Vec<XmlNode>)
    ensures
        rewritten_children(children@, r@, title@),
{
    proof {
        reveal_strlit("title");
        reveal_strlit("updated");
    }
    let ghost orig = children@;
    let mut children = children;
    let mut out: Vec<XmlNode> = Vec::new();
    let mut seen_title = false;
    let ghost mut i: int = 0;
    while children.len() > 0
        invariant
            0 <= i <= orig.len(),
            children@ == orig.subrange(i, orig.len() as int),
            seen_title == (first_named(orig.subrange(0, i), title_tag()) is Some),
            rewritten_children(orig.subrange(0, i), out@, title@),
        decreases children@.len(),
    {
        proof {
            reveal_strlit("title");
            reveal_strlit("updated");
        }
        let node = children.remove(0);
        assert(node == orig[i]);
        assert(orig.subrange(0, i + 1).drop_last() == orig.subrange(0, i));
        assert(orig.subrange(0, i + 1).last() == orig[i]);
        let ghost before = out@;
        match node {
            XmlNode::Element(c) => {
                if str_eq(c.name.as_str(), "updated") {
                    assert(updated_tag().len() != title_tag().len());
                } else if !seen_title && str_eq(c.name.as_str(), "title") {
                    let XmlElement { prefix, namespace, namespaces, name, attributes, children: _ } = c;
                    let mut kids: Vec<XmlNode> = Vec::new();
                    kids.push(XmlNode::Text(title.clone()));
                    out.push(XmlNode::Element(XmlElement { prefix, namespace, namespaces, name, attributes, children: kids }));
                    seen_title = true;
                    assert(out@.drop_last() == before);
                } else {
                    out.push(XmlNode::Element(c));
                    assert(out@.drop_last() == before);
                }
            },
            other => {
                out.push(other);
                assert(out@.drop_last() == before);
            },
        }
        proof {
            i = i + 1;
        }
    }
    assert(orig.subrange(0, i) == orig);
    out
}

/// Transforms one entry: `None` where its video is short, else the entry with
/// the duration added to its title and its modification dates removed.
fn transform_entry(e: XmlElement, store: &VideoStore) -> (r: Result<Option<XmlElement>, FeedError>)
    requires
        store.wf(),
    ensures
        match r {
            Ok(Some(out)) => entry_kept(e, store@) && rewritten_entry(e, out, new_title(e, store@)),
            Ok(None) => entry_check(e, store@) is None && !entry_kept(e, store@),
            Err(err) => entry_check(e, store@) == Some(err),
        },
{
    let (_id, title, rec) = match check_entry(&e, store) {
        Ok(found) => found,
        Err(err) => {
            return Err(err);
        },
    };
    if rec.is_short {
        return Ok(None);
    }
    proof {
        reveal_strlit(" (");
        reveal_strlit(")");
    }
    let mut text = title;
    text.append(" (");
    let d = format_duration(rec.length);
    text.append(d.as_str());
    text.append(")");
    let XmlElement { prefix, namespace, namespaces, name, attributes, children } = e;
    let children = rewrite_children(children, text);
    Ok(Some(XmlElement { prefix, namespace, namespaces, name, attributes, children }))
}

/// The video id of the first entry of `feed` whose record is not cached, where
/// no malformed entry comes before it. Fetching records until this gives
/// `Ok(None)` readies the store for [`transform_feed`].
pub fn first_uncached(feed: &XmlElement, store: &VideoStore) -> (r: Result<Option<String>, FeedError>)
    requires
        store.wf(),
    ensures
        match r {
            Ok(None) => feed_check(feed.children@, store@) is None,
            Ok(Some(id)) => {
                &&& feed_check(feed.children@, store@) == Some(FeedError::Uncached)
                &&& uncached_id(feed.children@, store@) == Some(id@)
                &&& !store@.contains_key(id@)
            },
            Err(err) => feed_check(feed.children@, store@) == Some(err) && err != FeedError::Uncached,
        },
{
    let s = &feed.children;
    let mut i: usize = 0;
    while i < s.len()
        invariant
            store.wf(),
            s@ == feed.children@,
            i <= s@.len(),
            failing_entry(s@.subrange(0, i as int), store@) is None,
        decreases s@.len() - i,
    {
        proof {
            reveal_strlit("entry");
            reveal_strlit("videoId");
        }
        assert(s@.subrange(0, i + 1).drop_last() == s@.subrange(0, i as int));
        assert(s@.subrange(0, i + 1).last() == s@[i as int]);
        match &s[i] {
            XmlNode::Element(e) => {
                if str_eq(e.name.as_str(), "entry") {
                    match check_entry(e, store) {
                        Ok(_) => {},
                        Err(err) => {
                            assert(failing_entry(s@.subrange(0, i + 1), store@) == Some(*e));
                            proof {
                                lemma_failing_entry_prefix(s@, i + 1, store@);
                            }
                            if err == FeedError::Uncached {
                                return match text_of_child(e, "videoId") {
                                    Some(id) => Ok(Some(id)),
                                    None => Err(FeedError::MissingVideoId),
                                };
                            }
                            return Err(err);
                        },
                    }
                }
            },
            _ => {},
        }
        i = i + 1;
    }
    assert(s@.subrange(0, i as int) == s@);
    Ok(None)
}

/// Transforms a feed: short videos are dropped, the other entries get their
/// duration in the title and lose their modification dates, and are moved
/// after all other children of the feed, in their order.
pub fn transform_feed(feed: XmlElement, store: &VideoStore) -> (r: Result<XmlElement, FeedError>)
    requires
        store.wf(),
    ensures
        match r {
            Ok(out) => feed_check(feed.children@, store@) is None && transformed_feed(feed, out, store@),
            Err(err) => feed_check(feed.children@, store@) == Some(err),
        },
{
    proof {
        reveal_strlit("entry");
    }
    let ghost orig_feed = feed;
    let XmlElement { prefix, namespace, namespaces, name, attributes, children } = feed;
    let ghost orig = children@;
    let mut children = children;
    let mut others: Vec<XmlNode> = Vec::new();
    let mut entries: Vec<XmlNode> = Vec::new();
    let ghost mut i: int = 0;
    while children.len() > 0
        invariant
            store.wf(),
            orig == orig_feed.children@,
            orig_feed == feed,
            0 <= i <= orig.len(),
            children@ == orig.subrange(i, orig.len() as int),
            others@ == other_nodes(orig.subrange(0, i)),
            rewritten_entries(orig.subrange(0, i), entries@, store@),
            failing_entry(orig.subrange(0, i), store@) is None,
        decreases children@.len(),
    {
        proof {
            reveal_strlit("entry");
        }
        let node = children.remove(0);
        assert(node == orig[i]);
        assert(orig.subrange(0, i + 1).drop_last() == orig.subrange(0, i));
        assert(orig.subrange(0, i + 1).last() == orig[i]);
        let ghost before = entries@;
        match node {
            XmlNode::Element(e) => {
                if str_eq(e.name.as_str(), "entry") {
                    match transform_entry(e, store) {
                        Ok(Some(out)) => {
                            entries.push(XmlNode::Element(out));
                            assert(entries@.drop_last() == before);
                        },
                        Ok(None) => {},
                        Err(err) => {
                            assert(failing_entry(orig.subrange(0, i + 1), store@) == Some(e));
                            proof {
                                lemma_failing_entry_prefix(orig, i + 1, store@);
                            }
                            return Err(err);
                        },
                    }
                } else {
                    others.push(XmlNode::Element(e));
                }
            },
            other => {
                others.push(other);
            },
        }
        proof {
            i = i + 1;
        }
    }
    assert(orig.subrange(0, i) == orig);
    let ghost k = others@.len();
    let ghost kept = entries@;
    others.append(&mut entries);
    assert(others@.subrange(0, k as int) == other_nodes(orig));
    assert(others@.subrange(k as int, others@.len() as int) == kept);
    let out = XmlElement { prefix, namespace, namespaces, name, attributes, children: others };
    Ok(out)
}

} // verus!
