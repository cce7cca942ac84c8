//! News on a disease in a country: what to ask a feed provider for, and the
//! articles that its answer holds.

use vstd::prelude::*;
use crate::error::Failure;
use crate::id::Id;
use crate::region::{parent, parent_of};
use crate::text::same_text;

verus! {

/// A point in time as an RFC 2822 date gives it: the seconds since the Unix
/// epoch, the nanoseconds past that second and the date's offset from UTC in
/// seconds.
#[derive(Clone, Copy, Debug, PartialEq, Eq, Structural)]
pub struct Timestamp {
    pub seconds: i64,
    pub nanos: u32,
    pub offset: i32,
}

/// The elements of one name in an item, by their text.
#[derive(Debug, PartialEq, Eq)]
pub struct Element {
    pub name: String,
    pub values: Vec<Option<String>>,
}

/// The elements of one namespace in an item.
#[derive(Debug, PartialEq, Eq)]
pub struct Namespace {
    pub prefix: String,
    pub elements: Vec<Element>,
}

/// An item of a feed, as far as articles are made of it.
#[derive(Debug, PartialEq, Eq)]
pub struct FeedItem {
    pub title: Option<String>,
    pub link: Option<String>,
    pub description: Option<String>,
    pub pub_date: Option<String>,
    pub extensions: Vec<Namespace>,
}

/// A news article.
#[derive(Debug, PartialEq, Eq)]
pub struct Article {
    /// The title of the article.
    pub title: String,
    /// The URL of the article.
    pub url: String,
    /// The name of the publisher.
    pub source: String,
    /// When the article was published.
    pub published: Timestamp,
    /// A short summary of the article.
    pub description: String,
}

/// What an element of one name holds: the name and the text of each
/// occurrence.
pub struct ElementView {
    pub name: Seq<char>,
    pub values: Seq<Option<Seq<char>>>,
}

/// What a namespace of an item holds.
pub struct NamespaceView {
    pub prefix: Seq<char>,
    pub elements: Seq<ElementView>,
}

/// What an item of a feed holds.
pub struct FeedItemView {
    pub title: Option<Seq<char>>,
    pub link: Option<Seq<char>>,
    pub description: Option<Seq<char>>,
    pub pub_date: Option<Seq<char>>,
    pub extensions: Seq<NamespaceView>,
}

/// What an article holds.
pub struct ArticleView {
    pub title: Seq<char>,
    pub url: Seq<char>,
    pub source: Seq<char>,
    pub published: Timestamp,
    pub description: Seq<char>,
}

/// The characters of a text that may be absent.
pub open spec fn text_of(text: Option<String>) -> Option<Seq<char>> {
    match text {
        Some(text) => Some(text@),
        None => None,
    }
}

impl View for Element {
    type V = ElementView;

    open spec fn view(&self) -> ElementView {
        ElementView {
            name: self.name@,
            values: self.values@.map_values(|value: Option<String>| text_of(value)),
        }
    }
}

impl View for Namespace {
    type V = NamespaceView;

    open spec fn view(&self) -> NamespaceView {
        NamespaceView {
            prefix: self.prefix@,
            elements: self.elements@.map_values(|element: Element| element@),
        }
    }
}

impl View for FeedItem {
    type V = FeedItemView;

    open spec fn view(&self) -> FeedItemView {
        FeedItemView {
            title: text_of(self.title),
            link: text_of(self.link),
            description: text_of(self.description),
            pub_date: text_of(self.pub_date),
            extensions: self.extensions@.map_values(|space: Namespace| space@),
        }
    }
}

impl View for Article {
    type V = ArticleView;

    open spec fn view(&self) -> ArticleView {
        ArticleView {
            title: self.title@,
            url: self.url@,
            source: self.source@,
            published: self.published,
            description: self.description@,
        }
    }
}

/// What each of the items holds.
pub open spec fn items_held(items: Seq<FeedItem>) -> Seq<FeedItemView> {
    items.map_values(|item: FeedItem| item@)
}

/// What each of the articles holds.
pub open spec fn articles_held(articles: Seq<Article>) -> Seq<ArticleView> {
    articles.map_values(|article: Article| article@)
}

/// What an article holds, if there is one.
pub open spec fn article_held(article: Option<Article>) -> Option<ArticleView> {
    match article {
        Some(article) => Some(article@),
        None => None,
    }
}

/// The items of the channel that `text` holds as RSS, or `None` where `text`
/// is no RSS document.
pub uninterp spec fn rss_items(text: Seq<char>) -> Option<Seq<FeedItemView>>;

/// The point in time that `text` gives as an RFC 2822 date, or `None` where
/// `text` is no such date.
pub uninterp spec fn rfc2822_timestamp(text: Seq<char>) -> Option<Timestamp>;

/// What reading a text as RSS fails with.
#[verifier::external_type_specification]
#[verifier::external_body]
pub struct ExRssError(rss::Error);

/// Calls `rss::Channel::read_from` on the bytes of `text` and hands out the
/// channel's items: of each its title, link, description and publication
/// date, and its extension elements by namespace and name with their text.
/// The contract names the outcome after `text`; an error stands for a text
/// that is no RSS document.
#[verifier::external_body]
fn read_feed(text: &str) -> (feed: Result<Vec<FeedItem>, rss::Error>)
    ensures
        match feed {
            Ok(items) => rss_items(text@) == Some(items_held(items@)),
            Err(_) => rss_items(text@) is None,
        },
{
    let channel = rss::Channel::read_from(text.as_bytes())?;
    Ok(channel.items.into_iter().map(|item| FeedItem {
        title: item.title,
        link: item.link,
        description: item.description,
        pub_date: item.pub_date,
        extensions: item.extensions.into_iter().map(|(prefix, names)| Namespace {
            prefix,
            elements: names.into_iter().map(|(name, found)| Element {
                name,
                values: found.into_iter().map(|element| element.value).collect(),
            }).collect(),
        }).collect(),
    }).collect())
}

/// Calls `chrono::DateTime::parse_from_rfc2822` and hands out the parsed
/// date's timestamp, its nanoseconds and its offset. The contract names the
/// outcome after `text`; `None` stands for a text that chrono rejects.
#[verifier::external_body]
fn parse_rfc2822(text: &str) -> (parsed: Option<Timestamp>)
    ensures
        parsed == rfc2822_timestamp(text@),
{
    match chrono::DateTime::parse_from_rfc2822(text) {
        Ok(at) => Some(Timestamp {
            seconds: at.timestamp(),
            nanos: at.timestamp_subsec_nanos(),
            offset: at.offset().local_minus_utc(),
        }),
        Err(_) => None,
    }
}

/// Holds of the namespace with the prefix `prefix`.
pub open spec fn prefixed(prefix: Seq<char>) -> spec_fn(NamespaceView) -> bool {
    |space: NamespaceView| space.prefix == prefix
}

/// Holds of the elements named `name`.
pub open spec fn named(name: Seq<char>) -> spec_fn(ElementView) -> bool {
    |element: ElementView| element.name == name
}

/// The text of the first occurrence of the element `name` in a namespace, if
/// the namespace has such an element and that occurrence holds text.
pub open spec fn element_text(space: NamespaceView, name: Seq<char>) -> Option<Seq<char>> {
    let elements = space.elements.filter(named(name));
    if elements.len() == 0 || elements[0].values.len() == 0 {
        None
    } else {
        elements[0].values[0]
    }
}

/// The text of the first element `prefix:name` of an item, if the item has
/// such an element and it holds text.
pub open spec fn extension_text(item: FeedItemView, prefix: Seq<char>, name: Seq<char>) -> Option<
    Seq<char>,
> {
    let spaces = item.extensions.filter(prefixed(prefix));
    if spaces.len() == 0 {
        None
    } else {
        element_text(spaces[0], name)
    }
}

/// The prefix of the provider's own namespace.
pub open spec fn news_prefix() -> Seq<char> {
    seq!['N', 'e', 'w', 's']
}

/// The name of the element that holds an article's publisher.
pub open spec fn source_name() -> Seq<char> {
    seq!['S', 'o', 'u', 'r', 'c', 'e']
}

/// The article that an item makes, given when it was published. An item
/// makes one if it has a title, a link, a publication time, a publisher (the
/// text of its first `News:Source` element) and a description.
pub open spec fn article_at(item: FeedItemView, published: Option<Timestamp>) -> Option<
    ArticleView,
> {
    match (
        item.title,
        item.link,
        published,
        extension_text(item, news_prefix(), source_name()),
        item.description,
    ) {
        (Some(title), Some(url), Some(published), Some(source), Some(description)) => Some(
            ArticleView { title, url, source, published, description },
        ),
        _ => None,
    }
}

/// When an item was published: what its publication date gives as an RFC
/// 2822 date.
pub open spec fn published_at(item: FeedItemView) -> Option<Timestamp> {
    match item.pub_date {
        Some(date) => rfc2822_timestamp(date),
        None => None,
    }
}

/// The article that an item makes, if it makes one.
pub open spec fn article_of(item: FeedItemView) -> Option<ArticleView> {
    article_at(item, published_at(item))
}

/// The articles that the items make, in the order of the items. Items that
/// make none are left out.
pub open spec fn articles_of(items: Seq<FeedItemView>) -> Seq<ArticleView> {
    items.filter_map(|item: FeedItemView| article_of(item))
}

/// The text of the first element `prefix:name` of `item`.
pub fn extension_of(item: &FeedItem, prefix: &str, name: &str) -> (text: Option<String>)
    ensures
        text_of(text) == extension_text(item@, prefix@, name@),
{
    let ghost spaces = item@.extensions;
    let mut i: usize = 0;
    while i < item.extensions.len()
        invariant
            i <= item.extensions.len(),
            spaces == item@.extensions,
            spaces.take(i as int).filter(prefixed(prefix@)).len() == 0,
        decreases item.extensions.len() - i,
    {
        let space = &item.extensions[i];
        proof {
            broadcast use Seq::lemma_filter_push;

            assert(spaces[i as int] == space@);
            assert(spaces.take(i + 1) =~= spaces.take(i as int).push(space@));
        }
        if same_text(space.prefix.as_str(), prefix) {
            proof {
                broadcast use Seq::filter_distributes_over_add;

                let head = spaces.take(i + 1);
                assert(head + spaces.skip(i + 1) =~= spaces);
                assert(head.filter(prefixed(prefix@)) =~= seq![space@]);
            }
            return text_in(space, name);
        }
        i += 1;
    }
    proof {
        assert(spaces.take(i as int) =~= spaces);
    }
    None
}

/// The text of the first occurrence of the element `name` in `space`.
fn text_in(space: &Namespace, name: &str) -> (text: Option<String>)
    ensures
        text_of(text) == element_text(space@, name@),
{
    let ghost elements = space@.elements;
    let mut i: usize = 0;
    while i < space.elements.len()
        invariant
            i <= space.elements.len(),
            elements == space@.elements,
            elements.take(i as int).filter(named(name@)).len() == 0,
        decreases space.elements.len() - i,
    {
        let element = &space.elements[i];
        proof {
            broadcast use Seq::lemma_filter_push;

            assert(elements[i as int] == element@);
            assert(elements.take(i + 1) =~= elements.take(i as int).push(element@));
        }
        if same_text(element.name.as_str(), name) {
            proof {
                broadcast use Seq::filter_distributes_over_add;

                let head = elements.take(i + 1);
                assert(head + elements.skip(i + 1) =~= elements);
                assert(head.filter(named(name@)) =~= seq![element@]);
            }
            if element.values.len() == 0 {
                return None;
            }
            proof {
                assert(element@.values[0] == text_of(element.values[0]));
            }
            return match &element.values[0] {
                Some(text) => Some(text.clone()),
                None => None,
            };
        }
        i += 1;
    }
    proof {
        assert(elements.take(i as int) =~= elements);
    }
    None
}

/// The article that `item` makes when it was published at `published`.
/// There is one exactly if the item has a title, a link, a publisher and a
/// description and `published` holds a time.
pub fn article_with(item: &FeedItem, published: Option<Timestamp>) -> (article: Option<Article>)
    ensures
        article_held(article) == article_at(item@, published),
{
    proof {
        reveal_strlit("News");
        reveal_strlit("Source");
    }
    assert("News"@ =~= news_prefix());
    assert("Source"@ =~= source_name());
    let source = extension_of(item, "News", "Source");
    match (&item.title, &item.link, published, source, &item.description) {
        (Some(title), Some(url), Some(published), Some(source), Some(description)) => Some(
            Article {
                title: title.clone(),
                url: url.clone(),
                source,
                published,
                description: description.clone(),
            },
        ),
        _ => None,
    }
}

/// The article that `item` makes, its publication date read as an RFC 2822
/// date.
pub fn article_from(item: &FeedItem) -> (article: Option<Article>)
    ensures
        article_held(article) == article_of(item@),
{
    let published = match &item.pub_date {
        Some(date) => parse_rfc2822(date.as_str()),
        None => None,
    };
    article_with(item, published)
}

/// The articles that `items` make, in the order of the items. Items that
/// lack a title, a link, a publisher or a description, or whose publication
/// date is no RFC 2822 date, are left out.
pub fn articles_from(items: &Vec<FeedItem>) -> (articles: Vec<Article>)
    ensures
        articles_held(articles@) == articles_of(items_held(items@)),
{
    let ghost held = items_held(items@);
    let mut articles: Vec<Article> = Vec::new();
    let mut i: usize = 0;
    proof {
        assert(articles_held(articles@) =~= articles_of(held.take(0)));
    }
    while i < items.len()
        invariant
            i <= items.len(),
            held == items_held(items@),
            articles_held(articles@) == articles_of(held.take(i as int)),
        decreases items.len() - i,
    {
        proof {
            held.lemma_filter_map_take_succ(|item: FeedItemView| article_of(item), i as int);
            assert(held[i as int] == items[i as int]@);
        }
        let ghost before = articles_held(articles@);
        match article_from(&items[i]) {
            Some(article) => {
                articles.push(article);
                proof {
                    assert(articles_held(articles@) =~= before + seq![article@]);
                }
            },
            None => {
                proof {
                    assert(before + Seq::<ArticleView>::empty() =~= before);
                }
            },
        }
        i += 1;
    }
    proof {
        assert(held.take(i as int) =~= held);
    }
    articles
}

/// The articles in `feed`, the text of an RSS document. Fails with
/// `Upstream` exactly if `feed` is no RSS document.
pub fn get_news(feed: &str) -> (news: Result<Vec<Article>, Failure>)
    ensures
        match rss_items(feed@) {
            Some(items) => news matches Ok(articles) && articles_held(articles@) == articles_of(
                items,
            ),
            None => news == Err::<Vec<Article>, Failure>(Failure::Upstream),
        },
{
    match read_feed(feed) {
        Ok(items) => Ok(articles_from(&items)),
        Err(_) => Err(Failure::Upstream),
    }
}

/// The country that news on `region` is about: the region's parent, or the
/// region itself where it has none.
pub open spec fn country_of(region: Seq<char>) -> Seq<char> {
    match parent(region) {
        Some(country) => country,
        None => region,
    }
}

/// The country that news on `region` is about.
pub fn news_country(region: Id) -> (country: Id)
    ensures
        country@ == country_of(region@),
{
    match parent_of(&region) {
        Some(country) => country,
        None => region,
    }
}

/// What to ask the feed provider for: the disease's name, a space and the
/// country's name.
pub fn news_query(disease_name: &str, country_name: &str) -> (query: String)
    ensures
        query@ == disease_name@.push(' ') + country_name@,
{
    let mut query = disease_name.to_owned();
    proof {
        reveal_strlit(" ");
    }
    query.append(" ");
    assert(" "@ =~= seq![' ']);
    query.append(country_name);
    assert(query@ =~= disease_name@.push(' ') + country_name@);
    query
}

} // verus!
