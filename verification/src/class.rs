//! The store of the classes and articles of a project, and of the links
//! between the classes.
//!
//! A class is known by its index in the store, an article by the index of
//! its class and its own index among the variants of that class. Classes
//! and articles are added and never taken away. A link of some type from
//! one class to another is kept twice, among the links out of the first
//! and among the links into the second, and the two records mirror each
//! other at all times.

use vstd::prelude::*;
use vstd::hash_map::StringHashMap;
use crate::model::LinkTypeId;
use crate::read::article::ArticleElement;
use crate::read::article::ArticleElementView;
use crate::text::ends_with;
use crate::text::is_suffix;
use crate::text::join3;
use crate::views::count;
use crate::views::distinct;
use crate::views::index_below;
use crate::views::index_of;
use crate::views::lemma_count_contains;
use crate::views::lemma_count_push;
use crate::views::lemma_index_below;
use crate::views::lemma_index_of;
use crate::views::views;

verus! {

/// The handle of an article: the index of its class in the store and its
/// own index among the variants of that class.
#[derive(Clone, Copy, PartialEq, Eq, Structural, Debug)]
pub struct ArticleId {
    pub class: usize,
    pub variant: usize,
}

/// An article: one variant of a class.
pub struct Article {
    class: usize,
    key: String,
    names: Vec<String>,
    content: Vec<ArticleElement>,
}

/// What an `Article` holds.
pub ghost struct ArticleView {
    pub class: usize,
    pub key: Seq<char>,
    pub names: Seq<Seq<char>>,
    pub content: Seq<ArticleElementView>,
}

impl View for Article {
    type V = ArticleView;

    closed spec fn view(&self) -> ArticleView {
        ArticleView {
            class: self.class,
            key: self.key@,
            names: views(self.names@),
            content: views(self.content@),
        }
    }
}

/// The classes that one class is linked with by links of one type.
pub struct LinkBucket {
    link_type: LinkTypeId,
    classes: Vec<usize>,
}

/// What a `LinkBucket` holds.
pub ghost struct LinkBucketView {
    pub link_type: LinkTypeId,
    pub classes: Seq<usize>,
}

impl View for LinkBucket {
    type V = LinkBucketView;

    closed spec fn view(&self) -> LinkBucketView {
        LinkBucketView { link_type: self.link_type, classes: self.classes@ }
    }
}

/// A class of articles.
pub struct Class {
    key: String,
    article_type: usize,
    articles: Vec<Article>,
    links_out: Vec<LinkBucket>,
    links_in: Vec<LinkBucket>,
}

/// What a `Class` holds.
pub ghost struct ClassView {
    pub key: Seq<char>,
    /// The index of the article type of the class in the model.
    pub article_type: usize,
    /// The variants of the class, in the order of their registration.
    pub articles: Seq<ArticleView>,
    /// The links from the class, one bucket for each link type.
    pub links_out: Seq<LinkBucketView>,
    /// The links to the class, one bucket for each link type.
    pub links_in: Seq<LinkBucketView>,
}

impl View for Class {
    type V = ClassView;

    closed spec fn view(&self) -> ClassView {
        ClassView {
            key: self.key@,
            article_type: self.article_type,
            articles: views(self.articles@),
            links_out: views(self.links_out@),
            links_in: views(self.links_in@),
        }
    }
}

/// The class with the key `key` and the type `article_type` that has no
/// article and no link yet.
pub open spec fn new_class(key: Seq<char>, article_type: usize) -> ClassView {
    ClassView {
        key,
        article_type,
        articles: Seq::empty(),
        links_out: Seq::empty(),
        links_in: Seq::empty(),
    }
}

/// The link types of `buckets`, in order.
pub open spec fn bucket_types(buckets: Seq<LinkBucketView>) -> Seq<LinkTypeId> {
    Seq::new(buckets.len(), |i: int| buckets[i].link_type)
}

/// The classes that `buckets` holds for the link type `link_type`, in the
/// order in which they were linked; none where there is no such bucket.
pub open spec fn linked(buckets: Seq<LinkBucketView>, link_type: LinkTypeId) -> Seq<usize> {
    match index_of(bucket_types(buckets), link_type) {
        Some(i) => buckets[i].classes,
        None => Seq::empty(),
    }
}

/// `buckets` with the class `class` linked once more by a link of the type
/// `link_type`: at the end of the bucket of that type where there is one,
/// and else in a new bucket at the end.
pub open spec fn bucket_insert(
    buckets: Seq<LinkBucketView>,
    link_type: LinkTypeId,
    class: usize,
) -> Seq<LinkBucketView> {
    match index_of(bucket_types(buckets), link_type) {
        Some(i) => buckets.update(
            i,
            LinkBucketView { link_type, classes: buckets[i].classes.push(class) },
        ),
        None => buckets.push(LinkBucketView { link_type, classes: seq![class] }),
    }
}

/// Whether `buckets` are the buckets of a class in a store of `n` classes:
/// one bucket for a link type at most, no bucket empty, and every class in
/// them a class of the store.
pub open spec fn buckets_wf(buckets: Seq<LinkBucketView>, n: nat) -> bool {
    &&& distinct(bucket_types(buckets))
    &&& forall|i: int| 0 <= i < buckets.len() ==> (#[trigger] buckets[i]).classes.len() > 0
    &&& forall|i: int, k: int|
        0 <= i < buckets.len() && 0 <= k < buckets[i].classes.len() ==> (
        #[trigger] buckets[i].classes[k]) < n
}

/// Whether the key `key` ends with `@` and the resolution path `path`.
pub open spec fn in_path(key: Seq<char>, path: Seq<char>) -> bool {
    is_suffix(seq!['@'] + path, key)
}

/// For each of `articles`, whether its key ends with `@` and `path`.
pub open spec fn path_matches(articles: Seq<ArticleView>, path: Seq<char>) -> Seq<bool> {
    Seq::new(articles.len(), |v: int| in_path(articles[v].key, path))
}

/// The index of the article that a class with the variants `articles`
/// resolves to under the resolution paths `paths`.
///
/// It is the first variant, in the order of registration, whose key ends
/// with `@` and the first path for which there is such a variant; where no
/// path has one, it is the variant that was registered first.
pub open spec fn resolve_variant(articles: Seq<ArticleView>, paths: Seq<Seq<char>>) -> int
    decreases paths.len(),
{
    if paths.len() == 0 {
        0
    } else {
        match index_of(path_matches(articles, paths[0]), true) {
            Some(v) => v,
            None => resolve_variant(articles, paths.skip(1)),
        }
    }
}

/// The keys of `articles`, in order.
pub open spec fn article_keys(articles: Seq<ArticleView>) -> Seq<Seq<char>> {
    Seq::new(articles.len(), |v: int| articles[v].key)
}

/// What a `Classes` holds.
pub ghost struct ClassesView {
    /// The classes, in the order of their registration.
    pub classes: Seq<ClassView>,
    /// For each key under which a class was registered, the class that was
    /// registered first.
    pub class_map: Map<Seq<char>, usize>,
    /// For each key under which an article was registered, the article that
    /// was registered first.
    pub article_map: Map<Seq<char>, ArticleId>,
    /// A warning for each class and each article that was registered
    /// under a key that was registered already, in order.
    pub warnings: Seq<Seq<char>>,
}

/// The warning for a class that is registered under a key that is
/// registered already.
pub open spec fn repeated_class_warning(key: Seq<char>) -> Seq<char> {
    "Class "@ + key + " was already registered."@
}

/// The warning for an article that is registered under a key that is
/// registered already.
pub open spec fn repeated_article_warning(key: Seq<char>) -> Seq<char> {
    "Article "@ + key + " was already registered."@
}

impl ClassesView {
    /// The store that holds nothing.
    pub open spec fn empty() -> ClassesView {
        ClassesView {
            classes: Seq::empty(),
            class_map: Map::empty(),
            article_map: Map::empty(),
            warnings: Seq::empty(),
        }
    }

    /// Whether `id` is the handle of a class of the store.
    pub open spec fn class_in(self, id: usize) -> bool {
        id < self.classes.len()
    }

    /// Whether `id` is the handle of an article of the store.
    pub open spec fn article_in(self, id: ArticleId) -> bool {
        id.class < self.classes.len() && id.variant < self.classes[id.class as int].articles.len()
    }

    /// The article with the handle `id`.
    pub open spec fn article(self, id: ArticleId) -> ArticleView {
        self.classes[id.class as int].articles[id.variant as int]
    }

    /// The class registered under the key `key`.
    pub open spec fn get_class(self, key: Seq<char>) -> Option<usize> {
        if self.class_map.contains_key(key) {
            Some(self.class_map[key])
        } else {
            None
        }
    }

    /// The article registered under the key `key`.
    pub open spec fn get_article(self, key: Seq<char>) -> Option<ArticleId> {
        if self.article_map.contains_key(key) {
            Some(self.article_map[key])
        } else {
            None
        }
    }

    /// The classes that the class `from` links to by links of the type
    /// `link_type`, in the order of insertion.
    pub open spec fn links_out(self, from: usize, link_type: LinkTypeId) -> Seq<usize> {
        linked(self.classes[from as int].links_out, link_type)
    }

    /// The classes that link to the class `to` by links of the type
    /// `link_type`, in the order of insertion.
    pub open spec fn links_in(self, to: usize, link_type: LinkTypeId) -> Seq<usize> {
        linked(self.classes[to as int].links_in, link_type)
    }

    /// How many links of the type `link_type` from `from` to `to` are
    /// recorded at `from`.
    pub open spec fn out_count(self, link_type: LinkTypeId, from: usize, to: usize) -> nat {
        count(self.links_out(from, link_type), to)
    }

    /// How many links of the type `link_type` from `from` to `to` are
    /// recorded at `to`.
    pub open spec fn in_count(self, link_type: LinkTypeId, from: usize, to: usize) -> nat {
        count(self.links_in(to, link_type), from)
    }

    /// Whether the links out of the classes and the links into them record
    /// the same links, each as many times.
    pub open spec fn mirrored(self) -> bool {
        forall|link_type: LinkTypeId, from: usize, to: usize|
            #![trigger self.out_count(link_type, from, to)]
            #![trigger self.in_count(link_type, from, to)]
            self.class_in(from) && self.class_in(to) ==> self.out_count(link_type, from, to)
                == self.in_count(link_type, from, to)
    }

    /// Whether the class at `i` is in order: its buckets are, a bucket of
    /// links out of it is of a link type of its article type, its articles
    /// know it as their class, and its key is registered.
    pub open spec fn class_wf(self, i: int) -> bool {
        let class = self.classes[i];
        &&& buckets_wf(class.links_out, self.classes.len())
        &&& buckets_wf(class.links_in, self.classes.len())
        &&& forall|j: int|
            0 <= j < class.links_out.len() ==> (#[trigger] class.links_out[j]).link_type.article_type
                == class.article_type
        &&& forall|v: int|
            0 <= v < class.articles.len() ==> (#[trigger] class.articles[v]).class == i
        &&& class.articles.len() <= usize::MAX
        &&& self.class_map.contains_key(class.key)
    }

    /// Whether the store is in order.
    pub open spec fn wf(self) -> bool {
        &&& self.classes.len() <= usize::MAX
        &&& forall|i: int| 0 <= i < self.classes.len() ==> #[trigger] self.class_wf(i)
        &&& forall|key: Seq<char>| #[trigger]
            self.class_map.contains_key(key) ==> self.class_in(self.class_map[key])
                && self.classes[self.class_map[key] as int].key == key
        &&& forall|key: Seq<char>| #[trigger]
            self.article_map.contains_key(key) ==> self.article_in(self.article_map[key])
        &&& self.mirrored()
    }

    /// Whether the article type of every class is one of the first `types`
    /// article types of a model.
    pub open spec fn typed_in(self, types: nat) -> bool {
        forall|i: int|
            0 <= i < self.classes.len() ==> (#[trigger] self.classes[i]).article_type < types
    }

    /// Whether the link type of every bucket of the class at `i` is one of
    /// `types`.
    pub open spec fn class_links_among(self, i: int, types: Set<LinkTypeId>) -> bool {
        &&& forall|j: int|
            0 <= j < self.classes[i].links_out.len() ==> types.contains(
                (#[trigger] self.classes[i].links_out[j]).link_type,
            )
        &&& forall|j: int|
            0 <= j < self.classes[i].links_in.len() ==> types.contains(
                (#[trigger] self.classes[i].links_in[j]).link_type,
            )
    }

    /// Whether the type of every link is one of `types`.
    pub open spec fn links_among(self, types: Set<LinkTypeId>) -> bool {
        forall|i: int| 0 <= i < self.classes.len() ==> #[trigger] self.class_links_among(i, types)
    }

    /// Whether every article has a name.
    pub open spec fn named(self) -> bool {
        forall|i: int, v: int|
            0 <= i < self.classes.len() && 0 <= v < self.classes[i].articles.len() ==> (
            #[trigger] self.classes[i].articles[v]).names.len() > 0
    }

    /// Whether an article of the store has the key `key`.
    pub open spec fn key_taken(self, key: Seq<char>) -> bool {
        exists|id: ArticleId| self.article_in(id) && (#[trigger] self.article(id)).key == key
    }

    /// Whether no two articles of the store have one key.
    pub open spec fn keys_distinct(self) -> bool {
        forall|a: ArticleId, b: ArticleId|
            self.article_in(a) && self.article_in(b) && a != b ==> (#[trigger] self.article(a)).key
                != (#[trigger] self.article(b)).key
    }

    /// Whether every article of the store is an article of `after`, with
    /// the same handle, and is there what it is here.
    pub open spec fn articles_kept(self, after: ClassesView) -> bool {
        forall|id: ArticleId|
            #![trigger after.article(id)]
            #![trigger after.article_in(id)]
            self.article_in(id) ==> after.article_in(id) && after.article(id) == self.article(id)
    }

    /// Whether every class of the store is a class of `after`, with the
    /// same handle, the same key and the same article type.
    pub open spec fn classes_kept(self, after: ClassesView) -> bool {
        &&& self.classes.len() <= after.classes.len()
        &&& forall|i: int|
            0 <= i < self.classes.len() ==> (#[trigger] after.classes[i]).key
                == self.classes[i].key && after.classes[i].article_type
                == self.classes[i].article_type
    }

    /// Whether `after` holds the articles of the store and no other.
    pub open spec fn articles_same(self, after: ClassesView) -> bool {
        &&& self.articles_kept(after)
        &&& forall|id: ArticleId| #[trigger] after.article_in(id) ==> self.article_in(id)
    }

    /// Whether `after` holds the articles of the store and, with the handle
    /// `id`, one article more.
    pub open spec fn article_added(self, after: ClassesView, id: ArticleId) -> bool {
        &&& self.articles_kept(after)
        &&& after.article_in(id)
        &&& !self.article_in(id)
        &&& forall|other: ArticleId| #[trigger]
            after.article_in(other) ==> other == id || self.article_in(other)
    }

    /// Whether every class has an article.
    pub open spec fn populated(self) -> bool {
        forall|i: int| 0 <= i < self.classes.len() ==> (#[trigger] self.classes[i]).articles.len() > 0
    }

    /// The store with the class `class` added. A key that is registered
    /// already stays with the class that was registered first, and the
    /// store has a warning more.
    pub open spec fn insert_class(self, class: ClassView) -> ClassesView {
        ClassesView {
            classes: self.classes.push(class),
            class_map: if self.class_map.contains_key(class.key) {
                self.class_map
            } else {
                self.class_map.insert(class.key, self.classes.len() as usize)
            },
            article_map: self.article_map,
            warnings: if self.class_map.contains_key(class.key) {
                self.warnings.push(repeated_class_warning(class.key))
            } else {
                self.warnings
            },
        }
    }

    /// The store with the article `article` added as the last variant of
    /// its class. A key that is registered already stays with the article
    /// that was registered first, and the store has a warning more.
    pub open spec fn insert_article(self, article: ArticleView) -> ClassesView {
        let class = self.classes[article.class as int];
        let id = ArticleId { class: article.class, variant: class.articles.len() as usize };
        ClassesView {
            classes: self.classes.update(
                article.class as int,
                ClassView { articles: class.articles.push(article), ..class },
            ),
            class_map: self.class_map,
            article_map: if self.article_map.contains_key(article.key) {
                self.article_map
            } else {
                self.article_map.insert(article.key, id)
            },
            warnings: if self.article_map.contains_key(article.key) {
                self.warnings.push(repeated_article_warning(article.key))
            } else {
                self.warnings
            },
        }
    }

    /// The store with one more link of the type `link_type` from the class
    /// `from` to the class `to`, recorded at both. A link that is there
    /// already is recorded once more.
    pub open spec fn insert_link(self, link_type: LinkTypeId, from: usize, to: usize) -> ClassesView {
        let source = self.classes[from as int];
        let forth = self.classes.update(
            from as int,
            ClassView { links_out: bucket_insert(source.links_out, link_type, to), ..source },
        );
        let target = forth[to as int];
        let back = forth.update(
            to as int,
            ClassView { links_in: bucket_insert(target.links_in, link_type, from), ..target },
        );
        ClassesView { classes: back, ..self }
    }

    /// The store with the key of the article `id` replaced by `key`. The
    /// article stays registered under the key it was registered with.
    pub open spec fn set_article_key(self, id: ArticleId, key: Seq<char>) -> ClassesView {
        let class = self.classes[id.class as int];
        let article = class.articles[id.variant as int];
        ClassesView {
            classes: self.classes.update(
                id.class as int,
                ClassView {
                    articles: class.articles.update(
                        id.variant as int,
                        ArticleView { key, ..article },
                    ),
                    ..class
                },
            ),
            ..self
        }
    }
}

/// Whether every class key of `store` stands for a class of it, as it does
/// in a store that is in order.
pub open spec fn ranged(store: ClassesView) -> bool {
    forall|key: Seq<char>| #[trigger]
        store.class_map.contains_key(key) ==> store.class_map[key] < store.classes.len()
}

/// After a class is linked once more by a link of some type, the bucket of
/// that type holds it at the end, and the buckets of the other types hold
/// what they held.
pub proof fn lemma_linked_insert(
    buckets: Seq<LinkBucketView>,
    link_type: LinkTypeId,
    class: usize,
    other: LinkTypeId,
)
    ensures
        linked(bucket_insert(buckets, link_type, class), other) == if other == link_type {
            linked(buckets, link_type).push(class)
        } else {
            linked(buckets, other)
        },
{
    let types = bucket_types(buckets);
    let after = bucket_insert(buckets, link_type, class);
    let types_after = bucket_types(after);
    lemma_index_of(types, link_type);
    lemma_index_of(types, other);
    lemma_index_of(types_after, other);
    match index_of(types, link_type) {
        Some(i) => {
            assert(types_after =~= types);
        },
        None => {
            assert(types_after =~= types.push(link_type));
            if other == link_type {
                assert(types_after[types.len() as int] == other);
                assert(seq![class] =~= Seq::<usize>::empty().push(class));
            } else {
                match index_of(types_after, other) {
                    Some(j) => {
                        assert(j < types.len());
                        assert(types[j] == other);
                        assert forall|k: int| 0 <= k < j implies types[k] != other by {
                            assert(types_after[k] == types[k]);
                        }
                    },
                    None => {
                        assert forall|k: int| 0 <= k < types.len() implies types[k] != other by {
                            assert(types_after[k] == types[k]);
                        }
                    },
                }
            }
        },
    }
}

/// Buckets that are in order stay in order when a class of the store is
/// linked once more, and the only bucket that may be new is of the type of
/// the link.
pub proof fn lemma_bucket_insert_wf(
    buckets: Seq<LinkBucketView>,
    link_type: LinkTypeId,
    class: usize,
    n: nat,
)
    requires
        buckets_wf(buckets, n),
        class < n,
    ensures
        buckets_wf(bucket_insert(buckets, link_type, class), n),
        forall|j: int|
            0 <= j < bucket_insert(buckets, link_type, class).len() ==> {
                ||| (#[trigger] bucket_insert(buckets, link_type, class)[j]).link_type
                    == link_type
                ||| (j < buckets.len() && bucket_insert(buckets, link_type, class)[j].link_type
                    == buckets[j].link_type)
            },
{
    let types = bucket_types(buckets);
    let after = bucket_insert(buckets, link_type, class);
    let types_after = bucket_types(after);
    lemma_index_of(types, link_type);
    match index_of(types, link_type) {
        Some(i) => {
            assert(types_after =~= types);
            assert forall|j: int, k: int|
                0 <= j < after.len() && 0 <= k < after[j].classes.len() implies (
            #[trigger] after[j].classes[k]) < n by {
                if j == i && k < buckets[i].classes.len() {
                    assert(after[j].classes[k] == buckets[i].classes[k]);
                } else if j != i {
                    assert(after[j].classes[k] == buckets[j].classes[k]);
                }
            }
        },
        None => {
            assert(types_after =~= types.push(link_type));
            assert forall|j: int, k: int|
                0 <= j < after.len() && 0 <= k < after[j].classes.len() implies (
            #[trigger] after[j].classes[k]) < n by {
                if j < buckets.len() {
                    assert(after[j].classes[k] == buckets[j].classes[k]);
                }
            }
            assert forall|j: int| 0 <= j < after.len() implies (#[trigger] after[j]).classes.len()
                > 0 by {
                if j < buckets.len() {
                    assert(after[j] == buckets[j]);
                }
            }
        },
    }
}

/// A class that no bucket holds is linked zero times.
pub proof fn lemma_linked_absent(buckets: Seq<LinkBucketView>, link_type: LinkTypeId, n: nat, x: usize)
    requires
        buckets_wf(buckets, n),
        x >= n,
    ensures
        count(linked(buckets, link_type), x) == 0,
{
    let s = linked(buckets, link_type);
    lemma_count_contains(s, x);
    lemma_index_of(bucket_types(buckets), link_type);
    if s.contains(x) {
        let i = index_of(bucket_types(buckets), link_type)->0;
        let k = choose|k: int| 0 <= k < s.len() && s[k] == x;
        assert(buckets[i].classes[k] < n);
    }
}

/// A store in order stays in order when a new class without articles and
/// links is added.
pub proof fn lemma_insert_class_wf(store: ClassesView, class: ClassView)
    requires
        store.wf(),
        store.classes.len() < usize::MAX,
        class == new_class(class.key, class.article_type),
    ensures
        store.insert_class(class).wf(),
{
    let after = store.insert_class(class);
    let n = store.classes.len();
    assert forall|i: int| 0 <= i < after.classes.len() implies #[trigger] after.class_wf(i) by {
        if i < n {
            assert(store.class_wf(i));
            assert(after.classes[i] == store.classes[i]);
        } else {
            assert(bucket_types(class.links_out) =~= Seq::<LinkTypeId>::empty());
            assert(bucket_types(class.links_in) =~= Seq::<LinkTypeId>::empty());
        }
    }
    assert forall|key: Seq<char>| #[trigger] after.class_map.contains_key(key) implies after.class_in(
        after.class_map[key],
    ) && after.classes[after.class_map[key] as int].key == key by {
        if store.class_map.contains_key(key) {
            assert(store.class_in(store.class_map[key]));
        }
    }
    assert forall|key: Seq<char>| #[trigger]
        after.article_map.contains_key(key) implies after.article_in(after.article_map[key]) by {
        assert(store.article_in(store.article_map[key]));
    }
    assert forall|link_type: LinkTypeId, from: usize, to: usize|
        after.class_in(from) && after.class_in(to) implies after.out_count(link_type, from, to)
        == after.in_count(link_type, from, to) by {
        if from < n && to < n {
            assert(store.out_count(link_type, from, to) == store.in_count(link_type, from, to));
        } else if from < n {
            assert(store.class_wf(from as int));
            lemma_linked_absent(store.classes[from as int].links_out, link_type, n, to);
            assert(bucket_types(class.links_in) =~= Seq::<LinkTypeId>::empty());
        } else if to < n {
            assert(store.class_wf(to as int));
            lemma_linked_absent(store.classes[to as int].links_in, link_type, n, from);
            assert(bucket_types(class.links_out) =~= Seq::<LinkTypeId>::empty());
        } else {
            assert(bucket_types(class.links_out) =~= Seq::<LinkTypeId>::empty());
            assert(bucket_types(class.links_in) =~= Seq::<LinkTypeId>::empty());
        }
    }
}

/// A store in order stays in order when an article is added to one of its
/// classes.
pub proof fn lemma_insert_article_wf(store: ClassesView, article: ArticleView)
    requires
        store.wf(),
        store.class_in(article.class),
        store.classes[article.class as int].articles.len() < usize::MAX,
    ensures
        store.insert_article(article).wf(),
{
    let after = store.insert_article(article);
    assert forall|i: int| 0 <= i < after.classes.len() implies #[trigger] after.class_wf(i) by {
        assert(store.class_wf(i));
    }
    assert forall|key: Seq<char>| #[trigger] after.class_map.contains_key(key) implies after.class_in(
        after.class_map[key],
    ) && after.classes[after.class_map[key] as int].key == key by {
        assert(store.class_in(store.class_map[key]));
    }
    assert forall|key: Seq<char>| #[trigger]
        after.article_map.contains_key(key) implies after.article_in(after.article_map[key]) by {
        if store.article_map.contains_key(key) {
            assert(store.article_in(store.article_map[key]));
        }
    }
    assert forall|link_type: LinkTypeId, from: usize, to: usize|
        after.class_in(from) && after.class_in(to) implies after.out_count(link_type, from, to)
        == after.in_count(link_type, from, to) by {
        assert(store.out_count(link_type, from, to) == store.in_count(link_type, from, to));
    }
}

/// A store in order stays in order when the key of an article is replaced.
pub proof fn lemma_set_article_key_wf(store: ClassesView, id: ArticleId, key: Seq<char>)
    requires
        store.wf(),
        store.article_in(id),
    ensures
        store.set_article_key(id, key).wf(),
{
    let after = store.set_article_key(id, key);
    assert forall|i: int| 0 <= i < after.classes.len() implies #[trigger] after.class_wf(i) by {
        assert(store.class_wf(i));
    }
    assert forall|k: Seq<char>| #[trigger] after.class_map.contains_key(k) implies after.class_in(
        after.class_map[k],
    ) && after.classes[after.class_map[k] as int].key == k by {
        assert(store.class_in(store.class_map[k]));
    }
    assert forall|k: Seq<char>| #[trigger]
        after.article_map.contains_key(k) implies after.article_in(after.article_map[k]) by {
        assert(store.article_in(store.article_map[k]));
    }
    assert forall|link_type: LinkTypeId, from: usize, to: usize|
        after.class_in(from) && after.class_in(to) implies after.out_count(link_type, from, to)
        == after.in_count(link_type, from, to) by {
        assert(store.out_count(link_type, from, to) == store.in_count(link_type, from, to));
    }
}

/// What a link more changes: the links of its type from its source hold
/// its target once more, at the end, the links of its type into its target
/// hold its source once more, at the end, and every other list of links
/// is what it was.
pub proof fn lemma_insert_link_links(
    store: ClassesView,
    link_type: LinkTypeId,
    from: usize,
    to: usize,
    other: LinkTypeId,
    class: usize,
)
    requires
        store.class_in(from),
        store.class_in(to),
        store.class_in(class),
    ensures
        store.insert_link(link_type, from, to).links_out(class, other) == if class == from && other
            == link_type {
            store.links_out(class, other).push(to)
        } else {
            store.links_out(class, other)
        },
        store.insert_link(link_type, from, to).links_in(class, other) == if class == to && other
            == link_type {
            store.links_in(class, other).push(from)
        } else {
            store.links_in(class, other)
        },
{
    lemma_linked_insert(store.classes[from as int].links_out, link_type, to, other);
    lemma_linked_insert(store.classes[to as int].links_in, link_type, from, other);
}

/// A store in order stays in order when a link is added whose type is a
/// link type of the article type of its source.
pub proof fn lemma_insert_link_wf(store: ClassesView, link_type: LinkTypeId, from: usize, to: usize)
    requires
        store.wf(),
        store.class_in(from),
        store.class_in(to),
        link_type.article_type == store.classes[from as int].article_type,
    ensures
        store.insert_link(link_type, from, to).wf(),
{
    let after = store.insert_link(link_type, from, to);
    let n = store.classes.len();
    assert(store.class_wf(from as int));
    assert(store.class_wf(to as int));
    lemma_bucket_insert_wf(store.classes[from as int].links_out, link_type, to, n);
    lemma_bucket_insert_wf(store.classes[to as int].links_in, link_type, from, n);
    assert forall|i: int| 0 <= i < after.classes.len() implies #[trigger] after.class_wf(i) by {
        assert(store.class_wf(i));
    }
    assert forall|key: Seq<char>| #[trigger] after.class_map.contains_key(key) implies after.class_in(
        after.class_map[key],
    ) && after.classes[after.class_map[key] as int].key == key by {
        assert(store.class_in(store.class_map[key]));
    }
    assert forall|key: Seq<char>| #[trigger]
        after.article_map.contains_key(key) implies after.article_in(after.article_map[key]) by {
        assert(store.article_in(store.article_map[key]));
    }
    assert forall|other: LinkTypeId, a: usize, b: usize|
        after.class_in(a) && after.class_in(b) implies after.out_count(other, a, b)
        == after.in_count(other, a, b) by {
        assert(store.out_count(other, a, b) == store.in_count(other, a, b));
        lemma_insert_link_links(store, link_type, from, to, other, a);
        lemma_insert_link_links(store, link_type, from, to, other, b);
        lemma_count_push(store.links_out(a, other), to, b);
        lemma_count_push(store.links_in(b, other), from, a);
    }
}

impl Article {
    /// An article of the class `class` with the key `key`, the names
    /// `names`, of which the first is the primary one, and the content
    /// `content`.
    pub fn new(class: usize, key: String, names: Vec<String>, content: Vec<ArticleElement>) -> (article:
        Article)
        ensures
            article@ == (ArticleView {
                class,
                key: key@,
                names: views(names@),
                content: views(content@),
            }),
    {
        Article { class, key, names, content }
    }

    /// The handle of the class that the article belongs to.
    pub fn get_class(&self) -> (class: usize)
        ensures
            class == self@.class,
    {
        self.class
    }

    /// The key of the article.
    pub fn get_key(&self) -> (key: &String)
        ensures
            key@ == self@.key,
    {
        &self.key
    }

    /// The names of the article; the first is the primary one.
    pub fn get_names(&self) -> (names: &Vec<String>)
        ensures
            views(names@) == self@.names,
    {
        &self.names
    }

    /// The content of the article.
    pub fn get_content(&self) -> (content: &Vec<ArticleElement>)
        ensures
            views(content@) == self@.content,
    {
        &self.content
    }
}

impl LinkBucket {
    /// The type of the links of the bucket.
    pub fn get_link_type(&self) -> (link_type: LinkTypeId)
        ensures
            link_type == self@.link_type,
    {
        self.link_type
    }

    /// The handles of the linked classes, in the order of insertion.
    pub fn get_classes(&self) -> (classes: &Vec<usize>)
        ensures
            classes@ == self@.classes,
    {
        &self.classes
    }
}

impl Class {
    /// A class with the key `key` and the article type at `article_type`
    /// that has no article and no link yet.
    pub fn new(key: &str, article_type: usize) -> (class: Class)
        ensures
            class@ == new_class(key@, article_type),
    {
        let class = Class {
            key: String::from_str(key),
            article_type,
            articles: Vec::new(),
            links_out: Vec::new(),
            links_in: Vec::new(),
        };
        assert(class@.articles =~= Seq::empty());
        assert(class@.links_out =~= Seq::empty());
        assert(class@.links_in =~= Seq::empty());
        class
    }

    /// The key of the class.
    pub fn get_key(&self) -> (key: &String)
        ensures
            key@ == self@.key,
    {
        &self.key
    }

    /// The index of the article type of the class.
    pub fn get_article_type(&self) -> (article_type: usize)
        ensures
            article_type == self@.article_type,
    {
        self.article_type
    }

    /// The variants of the class, in the order of their registration.
    pub fn get_articles(&self) -> (articles: &Vec<Article>)
        ensures
            views(articles@) == self@.articles,
    {
        &self.articles
    }

    /// The links from the class, one bucket for each link type, in the
    /// order in which the types were first used.
    pub fn get_links_out(&self) -> (buckets: &Vec<LinkBucket>)
        ensures
            views(buckets@) == self@.links_out,
    {
        &self.links_out
    }

    /// The links to the class, one bucket for each link type, in the order
    /// in which the types were first used.
    pub fn get_links_in(&self) -> (buckets: &Vec<LinkBucket>)
        ensures
            views(buckets@) == self@.links_in,
    {
        &self.links_in
    }

    /// Whether the class has a variant with the key `article_key`.
    pub fn contains_article(&self, article_key: &str) -> (b: bool)
        ensures
            b == article_keys(self@.articles).contains(article_key@),
    {
        let found = self.get_article(article_key);
        proof {
            let keys = article_keys(self@.articles);
            lemma_index_of(keys, article_key@);
            if found is Some {
                assert(keys[index_of(keys, article_key@)->0] == article_key@);
            }
        }
        found.is_some()
    }

    /// The first variant of the class with the key `article_key`.
    pub fn get_article(&self, article_key: &str) -> (article: Option<&Article>)
        ensures
            match article {
                Some(article) => index_of(article_keys(self@.articles), article_key@) matches Some(
                    v,
                ) && article@ == self@.articles[v],
                None => !article_keys(self@.articles).contains(article_key@),
            },
    {
        let wanted = String::from_str(article_key);
        let ghost keys = article_keys(self@.articles);
        let mut v: usize = 0;
        while v < self.articles.len()
            invariant
                v <= self.articles.len(),
                wanted@ == article_key@,
                keys == article_keys(self@.articles),
                index_below(keys, article_key@, v as int) is None,
            decreases self.articles.len() - v,
        {
            assert(keys[v as int] == self.articles[v as int].key@);
            if self.articles[v].key == wanted {
                proof {
                    lemma_index_below(keys, article_key@, v as int);
                    lemma_index_of(keys, article_key@);
                }
                return Some(&self.articles[v]);
            }
            v = v + 1;
        }
        proof {
            lemma_index_below(keys, article_key@, v as int);
        }
        None
    }

    /// The first variant whose key ends with `@` and `path`.
    fn variant_in_path(&self, path: &str) -> (variant: Option<usize>)
        ensures
            match variant {
                Some(v) => index_of(path_matches(self@.articles, path@), true) == Some(v as int),
                None => index_of(path_matches(self@.articles, path@), true) is None,
            },
    {
        let suffix = crate::text::join2("@", path);
        proof {
            reveal_strlit("@");
            assert(suffix@ =~= seq!['@'] + path@);
        }
        let ghost matches = path_matches(self@.articles, path@);
        let mut v: usize = 0;
        while v < self.articles.len()
            invariant
                v <= self.articles.len(),
                suffix@ == seq!['@'] + path@,
                matches == path_matches(self@.articles, path@),
                index_below(matches, true, v as int) is None,
            decreases self.articles.len() - v,
        {
            assert(matches[v as int] == in_path(self.articles[v as int].key@, path@));
            if ends_with(self.articles[v].key.as_str(), suffix.as_str()) {
                proof {
                    lemma_index_below(matches, true, v as int);
                    lemma_index_of(matches, true);
                }
                return Some(v);
            }
            v = v + 1;
        }
        None
    }

    /// The variant that the class resolves to under the resolution paths
    /// `paths`: the first variant whose key ends with `@` and the first
    /// path that any variant is in; the first variant of all where no
    /// variant is in any path.
    pub fn resolve(&self, paths: &[String]) -> (article: &Article)
        requires
            self@.articles.len() > 0,
        ensures
            0 <= resolve_variant(self@.articles, views(paths@)) < self@.articles.len(),
            article@ == self@.articles[resolve_variant(self@.articles, views(paths@))],
    {
        &self.articles[self.resolve_index(paths)]
    }

    /// The index of the variant that the class resolves to under `paths`.
    pub fn resolve_index(&self, paths: &[String]) -> (variant: usize)
        requires
            self@.articles.len() > 0,
        ensures
            variant < self@.articles.len(),
            variant == resolve_variant(self@.articles, views(paths@)),
    {
        let ghost all = views(paths@);
        assert(all.skip(0) =~= all);
        let mut p: usize = 0;
        while p < paths.len()
            invariant
                p <= paths.len(),
                all == views(paths@),
                self@.articles.len() > 0,
                resolve_variant(self@.articles, all) == resolve_variant(
                    self@.articles,
                    all.skip(p as int),
                ),
            decreases paths.len() - p,
        {
            let ghost rest = all.skip(p as int);
            assert(rest[0] == paths[p as int]@);
            assert(rest.skip(1) =~= all.skip(p + 1));
            match self.variant_in_path(paths[p].as_str()) {
                Some(v) => {
                    proof {
                        lemma_index_of(path_matches(self@.articles, paths[p as int]@), true);
                    }
                    return v;
                },
                None => {},
            }
            p = p + 1;
        }
        0
    }
}

/// Links the class `class` once more in `buckets` by a link of the type
/// `link_type`.
fn bucket_add(buckets: &mut Vec<LinkBucket>, link_type: LinkTypeId, class: usize)
    ensures
        views(final(buckets)@) == bucket_insert(views(old(buckets)@), link_type, class),
{
    let ghost before = views(buckets@);
    let ghost types = bucket_types(before);
    let mut i: usize = 0;
    while i < buckets.len()
        invariant
            i <= buckets.len(),
            buckets@ == old(buckets)@,
            before == views(buckets@),
            types == bucket_types(before),
            index_below(types, link_type, i as int) is None,
        decreases buckets.len() - i,
    {
        assert(types[i as int] == buckets[i as int].link_type);
        if buckets[i].link_type == link_type {
            proof {
                lemma_index_below(types, link_type, i as int);
                lemma_index_of(types, link_type);
            }
            buckets[i].classes.push(class);
            assert(views(buckets@) =~= bucket_insert(before, link_type, class));
            return ;
        }
        i = i + 1;
    }
    let mut classes: Vec<usize> = Vec::new();
    classes.push(class);
    buckets.push(LinkBucket { link_type, classes });
    assert(views(buckets@) =~= bucket_insert(before, link_type, class));
}

/// The store of the classes and articles of a project.
pub struct Classes {
    classes: Vec<Class>,
    class_map: StringHashMap<usize>,
    article_map: StringHashMap<ArticleId>,
    warnings: Vec<String>,
}

impl View for Classes {
    type V = ClassesView;

    closed spec fn view(&self) -> ClassesView {
        ClassesView {
            classes: views(self.classes@),
            class_map: self.class_map@,
            article_map: self.article_map@,
            warnings: views(self.warnings@),
        }
    }
}

impl Classes {
    /// A store that holds nothing.
    pub fn new() -> (store: Classes)
        ensures
            store@ == ClassesView::empty(),
            store@.wf(),
            store@.populated(),
    {
        let store = Classes {
            classes: Vec::new(),
            class_map: StringHashMap::new(),
            article_map: StringHashMap::new(),
            warnings: Vec::new(),
        };
        assert(store@.classes =~= Seq::empty());
        assert(store@.warnings =~= Seq::empty());
        store
    }

    /// The warnings of the store: one for each class and each article that
    /// was registered under a key that was registered already, in order.
    pub fn get_warnings(&self) -> (warnings: &Vec<String>)
        ensures
            views(warnings@) == self@.warnings,
    {
        &self.warnings
    }

    /// The handle of the class that is registered under the key `key`.
    pub fn get_class(&self, key: &str) -> (class: Option<usize>)
        ensures
            class == self@.get_class(key@),
    {
        match self.class_map.get(key) {
            Some(id) => Some(*id),
            None => None,
        }
    }

    /// The handle of the article that is registered under the key `key`.
    pub fn get_article(&self, key: &str) -> (article: Option<ArticleId>)
        ensures
            article == self@.get_article(key@),
    {
        match self.article_map.get(key) {
            Some(id) => Some(*id),
            None => None,
        }
    }

    /// The classes of the store, in the order of their registration; the
    /// handle of a class is its index.
    pub fn get_classes(&self) -> (classes: &Vec<Class>)
        ensures
            views(classes@) == self@.classes,
    {
        &self.classes
    }

    /// The class with the handle `id`.
    pub fn class(&self, id: usize) -> (class: &Class)
        requires
            self@.class_in(id),
        ensures
            class@ == self@.classes[id as int],
    {
        &self.classes[id]
    }

    /// The article with the handle `id`.
    pub fn article(&self, id: ArticleId) -> (article: &Article)
        requires
            self@.article_in(id),
        ensures
            article@ == self@.article(id),
    {
        &self.classes[id.class].articles[id.variant]
    }

    /// Adds the class `class`, which has no article and no link yet, and
    /// gives its handle.
    ///
    /// Where a class is registered under the key of `class` already, that
    /// class stays the one that the key stands for, and the store has a
    /// warning more.
    pub fn insert_class(&mut self, class: Class) -> (id: usize)
        requires
            old(self)@.wf(),
            class@ == new_class(class@.key, class@.article_type),
        ensures
            id == old(self)@.classes.len(),
            final(self)@ == old(self)@.insert_class(class@),
            final(self)@.wf(),
            old(self)@.articles_same(final(self)@),
            old(self)@.classes_kept(final(self)@),
    {
        let id = self.classes.len();
        if self.class_map.contains_key(class.key.as_str()) {
            self.warnings.push(join3("Class ", class.key.as_str(), " was already registered."));
        } else {
            self.class_map.insert(class.key.clone(), id);
        }
        let ghost pushed = class@;
        self.classes.push(class);
        let grown = self.classes.len();
        proof {
            assert(self@.classes =~= old(self)@.classes.push(pushed));
            assert(self@.warnings =~= old(self)@.insert_class(pushed).warnings);
            lemma_insert_class_wf(old(self)@, pushed);
        }
        id
    }

    /// Adds the article `article` as the last variant of its class, and
    /// gives its handle.
    ///
    /// Where an article is registered under the key of `article` already,
    /// that article stays the one that the key stands for, and the store
    /// has a warning more.
    pub fn insert_article(&mut self, article: Article) -> (id: ArticleId)
        requires
            old(self)@.wf(),
            old(self)@.class_in(article@.class),
        ensures
            id == (ArticleId {
                class: article@.class,
                variant: old(self)@.classes[article@.class as int].articles.len() as usize,
            }),
            final(self)@ == old(self)@.insert_article(article@),
            final(self)@.wf(),
            final(self)@.article(id) == article@,
            old(self)@.article_added(final(self)@, id),
            old(self)@.classes_kept(final(self)@),
    {
        let class = article.class;
        let id = ArticleId { class, variant: self.classes[class].articles.len() };
        if self.article_map.contains_key(article.key.as_str()) {
            self.warnings.push(join3("Article ", article.key.as_str(), " was already registered."));
        } else {
            self.article_map.insert(article.key.clone(), id);
        }
        let ghost pushed = article@;
        self.classes[class].articles.push(article);
        let grown = self.classes[class].articles.len();
        proof {
            assert(self@.classes[class as int].articles =~= old(self)@.classes[class as int].articles.push(
                pushed,
            ));
            assert(self@.classes =~= old(self)@.insert_article(pushed).classes);
            assert(self@.warnings =~= old(self)@.insert_article(pushed).warnings);
            lemma_insert_article_wf(old(self)@, pushed);
        }
        id
    }

    /// Adds a link of the type `link_type` from the class `from` to the
    /// class `to`: to the links out of `from` and to the links into `to`.
    ///
    /// The link is added to the bucket of its type where there is one, and
    /// else to a new bucket. A link that is there already is added once
    /// more.
    pub fn insert_link(&mut self, link_type: LinkTypeId, from: usize, to: usize)
        requires
            old(self)@.wf(),
            old(self)@.class_in(from),
            old(self)@.class_in(to),
            link_type.article_type == old(self)@.classes[from as int].article_type,
        ensures
            final(self)@ == old(self)@.insert_link(link_type, from, to),
            final(self)@.wf(),
            old(self)@.articles_same(final(self)@),
            old(self)@.classes_kept(final(self)@),
    {
        bucket_add(&mut self.classes[from].links_out, link_type, to);
        assert(self@.classes =~= old(self)@.classes.update(
            from as int,
            ClassView {
                links_out: bucket_insert(old(self)@.classes[from as int].links_out, link_type, to),
                ..old(self)@.classes[from as int]
            },
        ));
        bucket_add(&mut self.classes[to].links_in, link_type, from);
        proof {
            assert(self@.classes =~= old(self)@.insert_link(link_type, from, to).classes);
            lemma_insert_link_wf(old(self)@, link_type, from, to);
        }
    }

    /// Replaces the key of the article `id` by `key`. The article stays
    /// registered under the key that it was registered with.
    pub fn set_article_key(&mut self, id: ArticleId, key: String)
        requires
            old(self)@.wf(),
            old(self)@.article_in(id),
        ensures
            final(self)@ == old(self)@.set_article_key(id, key@),
            final(self)@.wf(),
            old(self)@.classes_kept(final(self)@),
            forall|other: ArticleId|
                final(self)@.article_in(other) <==> #[trigger] old(self)@.article_in(other),
            forall|other: ArticleId|
                old(self)@.article_in(other) ==> #[trigger] final(self)@.article(other) == if other
                    == id {
                    ArticleView { key: key@, ..old(self)@.article(other) }
                } else {
                    old(self)@.article(other)
                },
    {
        self.classes[id.class].articles[id.variant].key = key;
        proof {
            assert(self@.classes[id.class as int].articles =~= old(self)@.set_article_key(
                id,
                key@,
            ).classes[id.class as int].articles);
            assert(self@.classes =~= old(self)@.set_article_key(id, key@).classes);
            lemma_set_article_key_wf(old(self)@, id, key@);
        }
    }
}

/// In a store that is in order, the links out of the classes and the
/// links into them are exact mirrors: a class `to` is among the links of a
/// type out of a class `from` if and only if `from` is among the links of
/// that type into `to`, and as many times.
pub proof fn law_links_mirror(store: ClassesView, link_type: LinkTypeId, from: usize, to: usize)
    requires
        store.wf(),
        store.class_in(from),
        store.class_in(to),
    ensures
        store.links_out(from, link_type).contains(to) <==> store.links_in(to, link_type).contains(
            from,
        ),
        count(store.links_out(from, link_type), to) == count(store.links_in(to, link_type), from),
{
    assert(store.out_count(link_type, from, to) == store.in_count(link_type, from, to));
    lemma_count_contains(store.links_out(from, link_type), to);
    lemma_count_contains(store.links_in(to, link_type), from);
}

/// A link that is inserted twice is recorded twice: the links of its type
/// out of its source end with its target twice, the links of its type into
/// its target end with its source twice, and nothing is taken for a
/// repetition and dropped.
pub proof fn law_insert_link_twice(store: ClassesView, link_type: LinkTypeId, from: usize, to: usize)
    requires
        store.wf(),
        store.class_in(from),
        store.class_in(to),
        link_type.article_type == store.classes[from as int].article_type,
    ensures
        ({
            let once = store.insert_link(link_type, from, to);
            let twice = once.insert_link(link_type, from, to);
            &&& twice.wf()
            &&& twice.links_out(from, link_type) == store.links_out(from, link_type).push(to).push(
                to,
            )
            &&& twice.links_in(to, link_type) == store.links_in(to, link_type).push(from).push(from)
            &&& count(twice.links_out(from, link_type), to) == count(
                store.links_out(from, link_type),
                to,
            ) + 2
            &&& count(twice.links_in(to, link_type), from) == count(
                store.links_in(to, link_type),
                from,
            ) + 2
        }),
{
    let once = store.insert_link(link_type, from, to);
    let twice = once.insert_link(link_type, from, to);
    lemma_insert_link_wf(store, link_type, from, to);
    lemma_insert_link_wf(once, link_type, from, to);
    lemma_insert_link_links(store, link_type, from, to, link_type, from);
    lemma_insert_link_links(store, link_type, from, to, link_type, to);
    lemma_insert_link_links(once, link_type, from, to, link_type, from);
    lemma_insert_link_links(once, link_type, from, to, link_type, to);
    lemma_count_push(store.links_out(from, link_type), to, to);
    lemma_count_push(store.links_out(from, link_type).push(to), to, to);
    lemma_count_push(store.links_in(to, link_type), from, from);
    lemma_count_push(store.links_in(to, link_type).push(from), from, from);
}

/// A new class has no link, so that the links of the store stay among the
/// types that they were among.
pub proof fn lemma_insert_class_among(store: ClassesView, class: ClassView, types: Set<LinkTypeId>)
    requires
        store.links_among(types),
        class == new_class(class.key, class.article_type),
    ensures
        store.insert_class(class).links_among(types),
{
    let after = store.insert_class(class);
    assert forall|i: int| 0 <= i < after.classes.len() implies #[trigger] after.class_links_among(
        i,
        types,
    ) by {
        if i < store.classes.len() {
            assert(store.class_links_among(i, types));
        }
    }
}

/// An article more leaves the links as they are.
pub proof fn lemma_insert_article_among(store: ClassesView, article: ArticleView, types: Set<LinkTypeId>)
    requires
        store.links_among(types),
        store.class_in(article.class),
    ensures
        store.insert_article(article).links_among(types),
{
    let after = store.insert_article(article);
    assert forall|i: int| 0 <= i < after.classes.len() implies #[trigger] after.class_links_among(
        i,
        types,
    ) by {
        assert(store.class_links_among(i, types));
    }
}

/// Another key for an article leaves the links as they are.
pub proof fn lemma_set_article_key_among(
    store: ClassesView,
    id: ArticleId,
    key: Seq<char>,
    types: Set<LinkTypeId>,
)
    requires
        store.links_among(types),
        store.article_in(id),
    ensures
        store.set_article_key(id, key).links_among(types),
{
    let after = store.set_article_key(id, key);
    assert forall|i: int| 0 <= i < after.classes.len() implies #[trigger] after.class_links_among(
        i,
        types,
    ) by {
        assert(store.class_links_among(i, types));
    }
}

/// A link more of one of the types `types` leaves the links among `types`.
pub proof fn lemma_insert_link_among(
    store: ClassesView,
    link_type: LinkTypeId,
    from: usize,
    to: usize,
    types: Set<LinkTypeId>,
)
    requires
        store.wf(),
        store.links_among(types),
        types.contains(link_type),
        store.class_in(from),
        store.class_in(to),
    ensures
        store.insert_link(link_type, from, to).links_among(types),
{
    let after = store.insert_link(link_type, from, to);
    let n = store.classes.len();
    assert(store.class_wf(from as int));
    assert(store.class_wf(to as int));
    lemma_bucket_insert_wf(store.classes[from as int].links_out, link_type, to, n);
    lemma_bucket_insert_wf(store.classes[to as int].links_in, link_type, from, n);
    assert forall|i: int| 0 <= i < after.classes.len() implies #[trigger] after.class_links_among(
        i,
        types,
    ) by {
        assert(store.class_links_among(i, types));
        assert forall|j: int| 0 <= j < after.classes[i].links_out.len() implies types.contains(
            (#[trigger] after.classes[i].links_out[j]).link_type,
        ) by {
            if i == from {
                let inserted = bucket_insert(store.classes[i].links_out, link_type, to);
                assert(after.classes[i].links_out == inserted);
                if inserted[j].link_type != link_type {
                    assert(inserted[j].link_type == store.classes[i].links_out[j].link_type);
                }
            } else {
                assert(after.classes[i].links_out == store.classes[i].links_out);
            }
        }
        assert forall|j: int| 0 <= j < after.classes[i].links_in.len() implies types.contains(
            (#[trigger] after.classes[i].links_in[j]).link_type,
        ) by {
            if i == to {
                let inserted = bucket_insert(store.classes[i].links_in, link_type, from);
                assert(after.classes[i].links_in == inserted);
                if inserted[j].link_type != link_type {
                    assert(inserted[j].link_type == store.classes[i].links_in[j].link_type);
                }
            } else {
                assert(after.classes[i].links_in == store.classes[i].links_in);
            }
        }
    }
}

impl Classes {
    /// Whether every article has a name.
    pub fn all_named(&self) -> (b: bool)
        ensures
            b == self@.named(),
    {
        let mut i: usize = 0;
        while i < self.classes.len()
            invariant
                i <= self.classes.len(),
                forall|k: int, v: int|
                    0 <= k < i && 0 <= v < self@.classes[k].articles.len() ==> (
                    #[trigger] self@.classes[k].articles[v]).names.len() > 0,
            decreases self.classes.len() - i,
        {
            let articles = &self.classes[i].articles;
            let mut v: usize = 0;
            while v < articles.len()
                invariant
                    v <= articles.len(),
                    i < self.classes.len(),
                    *articles == self.classes[i as int].articles,
                    forall|w: int|
                        0 <= w < v ==> (#[trigger] self@.classes[i as int].articles[w]).names.len()
                            > 0,
                decreases articles.len() - v,
            {
                assert(self@.classes[i as int].articles[v as int] == articles[v as int]@);
                if articles[v].names.len() == 0 {
                    return false;
                }
                v = v + 1;
            }
            i = i + 1;
        }
        true
    }
}

/// Whether a variant among `articles` has a key that ends with `@` and
/// `path`.
pub open spec fn path_has_variant(articles: Seq<ArticleView>, path: Seq<char>) -> bool {
    exists|v: int| 0 <= v < articles.len() && #[trigger] path_matches(articles, path)[v]
}

/// A class with an article resolves to one of its variants. Where no path
/// has a variant, it is the variant that was registered first; and where
/// the path at `p` is the first path that has one, it is the first variant
/// whose key ends with `@` and that path.
pub proof fn law_resolve(articles: Seq<ArticleView>, paths: Seq<Seq<char>>, p: int)
    requires
        articles.len() > 0,
    ensures
        0 <= resolve_variant(articles, paths) < articles.len(),
        (forall|q: int| 0 <= q < paths.len() ==> !path_has_variant(articles, #[trigger] paths[q]))
            ==> resolve_variant(articles, paths) == 0,
        0 <= p < paths.len() && path_has_variant(articles, paths[p]) && (forall|q: int|
            0 <= q < p ==> !path_has_variant(articles, #[trigger] paths[q])) ==> {
            &&& in_path(articles[resolve_variant(articles, paths)].key, paths[p])
            &&& forall|w: int|
                0 <= w < resolve_variant(articles, paths) ==> !in_path(
                    (#[trigger] articles[w]).key,
                    paths[p],
                )
        },
    decreases paths.len(),
{
    if paths.len() > 0 {
        let matches = path_matches(articles, paths[0]);
        let rest = paths.skip(1);
        lemma_index_of(matches, true);
        assert forall|q: int| 0 <= q < rest.len() implies rest[q] == paths[q + 1] by {}
        match index_of(matches, true) {
            Some(v) => {
                assert(path_has_variant(articles, paths[0]));
                if 0 < p < paths.len() && forall|q: int|
                    0 <= q < p ==> !path_has_variant(articles, #[trigger] paths[q]) {
                    assert(!path_has_variant(articles, paths[0]));
                }
                if p == 0 {
                    assert forall|w: int| 0 <= w < v implies !in_path(
                        (#[trigger] articles[w]).key,
                        paths[0],
                    ) by {
                        assert(matches[w] == in_path(articles[w].key, paths[0]));
                    }
                }
            },
            None => {
                assert(!path_has_variant(articles, paths[0]));
                law_resolve(articles, rest, p - 1);
                if forall|q: int|
                    0 <= q < paths.len() ==> !path_has_variant(articles, #[trigger] paths[q]) {
                    assert forall|q: int| 0 <= q < rest.len() implies !path_has_variant(
                        articles,
                        #[trigger] rest[q],
                    ) by {
                        assert(!path_has_variant(articles, paths[q + 1]));
                    }
                }
                if 0 < p < paths.len() && path_has_variant(articles, paths[p]) && forall|q: int|
                    0 <= q < p ==> !path_has_variant(articles, #[trigger] paths[q]) {
                    assert(rest[p - 1] == paths[p]);
                    assert forall|q: int| 0 <= q < p - 1 implies !path_has_variant(
                        articles,
                        #[trigger] rest[q],
                    ) by {
                        assert(!path_has_variant(articles, paths[q + 1]));
                    }
                }
            },
        }
    }
}

impl Classes {
    /// Whether an article of the store has the key `key`.
    pub fn has_article_key(&self, key: &str) -> (b: bool)
        ensures
            b == self@.key_taken(key@),
    {
        let wanted = String::from_str(key);
        let mut i: usize = 0;
        while i < self.classes.len()
            invariant
                i <= self.classes.len(),
                wanted@ == key@,
                forall|id: ArticleId|
                    self@.article_in(id) && id.class < i ==> (#[trigger] self@.article(id)).key
                        != key@,
            decreases self.classes.len() - i,
        {
            let articles = &self.classes[i].articles;
            let mut v: usize = 0;
            while v < articles.len()
                invariant
                    v <= articles.len(),
                    i < self.classes.len(),
                    wanted@ == key@,
                    *articles == self.classes[i as int].articles,
                    forall|id: ArticleId|
                        self@.article_in(id) && id.class == i && id.variant < v ==> (
                        #[trigger] self@.article(id)).key != key@,
                decreases articles.len() - v,
            {
                let ghost found = ArticleId { class: i, variant: v };
                assert(self@.article(found) == articles[v as int]@);
                if articles[v].key == wanted {
                    assert(self@.article_in(found));
                    return true;
                }
                v = v + 1;
            }
            i = i + 1;
        }
        false
    }
}

} // verus!
