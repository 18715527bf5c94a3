//! The links that the articles of a document declare, which the second
//! pass inserts between the classes.

use vstd::prelude::*;
use crate::class::Classes;
use crate::class::ClassesView;
use crate::class::lemma_insert_link_among;
use crate::compile::register::Pass;
use crate::compile::register::pass_from;
use crate::compile::register::pass_of;
use crate::model::ArticleTypeView;
use crate::model::LinkTypeId;
use crate::model::Model;
use crate::model::find_link;
use crate::model::link_keys;
use crate::model::model_link_types;
use crate::model::model_wf;
use crate::read::article::ReadArticle;
use crate::read::article::ReadArticleView;
use crate::text::join3;
use crate::views::lemma_index_of;
use crate::views::views;

verus! {

/// The message for a link of a type that the article type of the class
/// does not have.
pub open spec fn missing_link_type_message(type_key: Seq<char>, link_key: Seq<char>) -> Seq<char> {
    "Link type "@ + type_key + ":"@ + link_key + " does not exist."@
}

/// The message for a link to a class that is not registered.
pub open spec fn missing_class_message(class_key: Seq<char>) -> Seq<char> {
    "Linked class "@ + class_key + " does not exist."@
}

/// The second pass over the first `n` of the targets `targets` of the links
/// of the type `link_type` from the class `from`: a link is inserted to
/// the class that is registered under each key, in order, and the pass
/// stops at the first key under which no class is registered.
pub open spec fn link_targets(
    start: Pass,
    link_type: LinkTypeId,
    from: usize,
    targets: Seq<Seq<char>>,
    n: int,
) -> Pass
    decreases n,
{
    if n <= 0 {
        start
    } else {
        let pass = link_targets(start, link_type, from, targets, n - 1);
        if pass.error is Some {
            pass
        } else {
            match pass.store.get_class(targets[n - 1]) {
                None => Pass {
                    store: pass.store,
                    error: Some(missing_class_message(targets[n - 1])),
                },
                Some(to) => Pass {
                    store: pass.store.insert_link(link_type, from, to),
                    error: None,
                },
            }
        }
    }
}

/// The second pass over the first `n` of the groups of links `links` of
/// the class `from`: the key of each group is looked up among the link
/// types of the article type of the class, and the pass goes through the
/// targets of the group. It stops at the first key that is not the key of
/// such a link type.
pub open spec fn link_groups(
    start: Pass,
    model: Seq<ArticleTypeView>,
    from: usize,
    links: Seq<(Seq<char>, Seq<Seq<char>>)>,
    n: int,
) -> Pass
    decreases n,
{
    if n <= 0 {
        start
    } else {
        let pass = link_groups(start, model, from, links, n - 1);
        if pass.error is Some {
            pass
        } else {
            let type_index = pass.store.classes[from as int].article_type;
            let article_type = model[type_index as int];
            match find_link(article_type.links, links[n - 1].0) {
                None => Pass {
                    store: pass.store,
                    error: Some(missing_link_type_message(article_type.key, links[n - 1].0)),
                },
                Some(link) => link_targets(
                    pass,
                    LinkTypeId { article_type: type_index, link: link as usize },
                    from,
                    links[n - 1].1,
                    links[n - 1].1.len() as int,
                ),
            }
        }
    }
}

/// The second pass over the declaration `read`: the links that it declares
/// are inserted, from the class that is registered under its class key.
pub open spec fn link_article(pass: Pass, model: Seq<ArticleTypeView>, read: ReadArticleView) -> Pass {
    if pass.error is Some {
        pass
    } else {
        link_groups(
            pass,
            model,
            pass.store.class_map[read.class_key],
            read.links,
            read.links.len() as int,
        )
    }
}

/// The second pass over the first `n` of the declarations `articles`.
pub open spec fn link_articles(
    start: Pass,
    model: Seq<ArticleTypeView>,
    articles: Seq<ReadArticleView>,
    n: int,
) -> Pass
    decreases n,
{
    if n <= 0 {
        start
    } else {
        link_article(link_articles(start, model, articles, n - 1), model, articles[n - 1])
    }
}

/// What a pass that adds links only leaves as it is: the classes but for
/// their links, and what is registered under which key.
pub open spec fn links_only(before: ClassesView, after: ClassesView) -> bool {
    &&& after.classes.len() == before.classes.len()
    &&& after.class_map == before.class_map
    &&& after.article_map == before.article_map
    &&& forall|i: int|
        0 <= i < before.classes.len() ==> {
            &&& (#[trigger] after.classes[i]).key == before.classes[i].key
            &&& after.classes[i].article_type == before.classes[i].article_type
            &&& after.classes[i].articles == before.classes[i].articles
        }
}

/// Inserts the links of the type `link_type` from the class `from` to the
/// classes with the keys `targets`.
fn insert_links_to(
    classes: &mut Classes,
    link_type: LinkTypeId,
    from: usize,
    targets: &Vec<String>,
    types: Ghost<Set<LinkTypeId>>,
) -> (r: Result<(), String>)
    requires
        types@.contains(link_type),
        old(classes)@.wf(),
        old(classes)@.class_in(from),
        link_type.article_type == old(classes)@.classes[from as int].article_type,
    ensures
        final(classes)@.wf(),
        old(classes)@.links_among(types@) ==> final(classes)@.links_among(types@),
        links_only(old(classes)@, final(classes)@),
        pass_of(final(classes)@, r) == link_targets(
            pass_from(old(classes)@),
            link_type,
            from,
            views(targets@),
            targets.len() as int,
        ),
{
    let ghost start = pass_from(classes@);
    let ghost keys = views(targets@);
    let mut k: usize = 0;
    while k < targets.len()
        invariant
            k <= targets.len(),
            classes@.wf(),
            types@.contains(link_type),
            old(classes)@.links_among(types@) ==> classes@.links_among(types@),
            classes@.class_in(from),
            link_type.article_type == classes@.classes[from as int].article_type,
            links_only(old(classes)@, classes@),
            start == pass_from(old(classes)@),
            keys == views(targets@),
            pass_from(classes@) == link_targets(start, link_type, from, keys, k as int),
        decreases targets.len() - k,
    {
        assert(keys[k as int] == targets[k as int]@);
        match classes.get_class(targets[k].as_str()) {
            None => {
                proof {
                    lemma_targets_stay(start, link_type, from, keys, k + 1, keys.len() as int);
                }
                return Err(join3("Linked class ", targets[k].as_str(), " does not exist."));
            },
            Some(to) => {
                proof {
                    if classes@.links_among(types@) {
                        lemma_insert_link_among(classes@, link_type, from, to, types@);
                    }
                }
                classes.insert_link(link_type, from, to);
            },
        }
        k = k + 1;
    }
    Ok(())
}

/// A pass over targets that has stopped after `n` of them is the same
/// after more of them.
pub proof fn lemma_targets_stay(
    start: Pass,
    link_type: LinkTypeId,
    from: usize,
    targets: Seq<Seq<char>>,
    n: int,
    m: int,
)
    requires
        n <= m,
        link_targets(start, link_type, from, targets, n).error is Some,
    ensures
        link_targets(start, link_type, from, targets, m) == link_targets(
            start,
            link_type,
            from,
            targets,
            n,
        ),
    decreases m - n,
{
    if n < m {
        lemma_targets_stay(start, link_type, from, targets, n, m - 1);
    }
}

/// A pass over groups of links that has stopped after `n` of them is the
/// same after more of them.
pub proof fn lemma_groups_stay(
    start: Pass,
    model: Seq<ArticleTypeView>,
    from: usize,
    links: Seq<(Seq<char>, Seq<Seq<char>>)>,
    n: int,
    m: int,
)
    requires
        n <= m,
        link_groups(start, model, from, links, n).error is Some,
    ensures
        link_groups(start, model, from, links, m) == link_groups(start, model, from, links, n),
    decreases m - n,
{
    if n < m {
        lemma_groups_stay(start, model, from, links, n, m - 1);
    }
}

/// A pass over declarations that has stopped after `n` of them is the same
/// after more of them.
pub proof fn lemma_link_articles_stay(
    start: Pass,
    model: Seq<ArticleTypeView>,
    articles: Seq<ReadArticleView>,
    n: int,
    m: int,
)
    requires
        n <= m,
        link_articles(start, model, articles, n).error is Some,
    ensures
        link_articles(start, model, articles, m) == link_articles(start, model, articles, n),
    decreases m - n,
{
    if n < m {
        lemma_link_articles_stay(start, model, articles, n, m - 1);
    }
}

/// Inserts the links that `read_article` declares, from the class that is
/// registered under its class key.
///
/// The key of each group of links must be the key of a link type of the
/// article type of the class, and a class must be registered under the key
/// of each target: the pass stops at the first key that is not.
pub fn update_class_links(model: &Model, classes: &mut Classes, read_article: &ReadArticle) -> (r:
    Result<(), String>)
    requires
        model_wf(model@),
        old(classes)@.wf(),
        old(classes)@.typed_in(model@.len()),
        old(classes)@.class_map.contains_key(read_article@.class_key),
    ensures
        final(classes)@.wf(),
        old(classes)@.links_among(model_link_types(model@)) ==> final(classes)@.links_among(
            model_link_types(model@),
        ),
        links_only(old(classes)@, final(classes)@),
        pass_of(final(classes)@, r) == link_article(
            pass_from(old(classes)@),
            model@,
            read_article@,
        ),
{
    let from = classes.get_class(read_article.class_key.as_str()).unwrap();
    let type_index = classes.class(from).get_article_type();
    let ghost start = pass_from(classes@);
    let ghost links = read_article@.links;
    let mut n: usize = 0;
    while n < read_article.links.len()
        invariant
            n <= read_article.links.len(),
            model_wf(model@),
            classes@.wf(),
            old(classes)@.links_among(model_link_types(model@)) ==> classes@.links_among(
                model_link_types(model@),
            ),
            classes@.class_in(from),
            type_index == classes@.classes[from as int].article_type,
            type_index < model@.len(),
            from == old(classes)@.class_map[read_article@.class_key],
            links_only(old(classes)@, classes@),
            start == pass_from(old(classes)@),
            links == read_article@.links,
            links.len() == read_article.links.len(),
            pass_from(classes@) == link_groups(start, model@, from, links, n as int),
        decreases read_article.links.len() - n,
    {
        let group = &read_article.links[n];
        assert(links[n as int] == (group.0@, views(group.1@)));
        let article_type = model.article_type(type_index);
        let link_type = match article_type.get_link(group.0.as_str()) {
            Some(link) => LinkTypeId { article_type: link.article_type, link: link.index },
            None => {
                proof {
                    assert(link_groups(start, model@, from, links, n + 1).error == Some(
                        missing_link_type_message(model@[type_index as int].key, group.0@),
                    ));
                    lemma_groups_stay(start, model@, from, links, n + 1, links.len() as int);
                }
                let mut message = join3("Link type ", article_type.key.as_str(), ":");
                message.append(group.0.as_str());
                message.append(" does not exist.");
                return Err(message);
            },
        };
        proof {
            let found = find_link(model@[type_index as int].links, group.0@)->0;
            lemma_index_of(link_keys(model@[type_index as int].links), group.0@);
            assert(model@[type_index as int].links[found].article_type == type_index);
            assert(model@[type_index as int].links[found].index == found);
        }
        let ghost before = classes@;
        let inserted = insert_links_to(
            classes,
            link_type,
            from,
            &group.1,
            Ghost(model_link_types(model@)),
        );
        assert(link_groups(start, model@, from, links, n + 1) == pass_of(classes@, inserted));
        match inserted {
            Err(e) => {
                proof {
                    lemma_groups_stay(start, model@, from, links, n + 1, links.len() as int);
                }
                return Err(e);
            },
            Ok(_) => {},
        }
        n = n + 1;
    }
    Ok(())
}

/// Links to classes that are registered are all inserted: the pass over
/// them does not stop, whichever source has registered the classes and
/// whenever.
pub proof fn lemma_link_targets_registered(
    start: Pass,
    link_type: LinkTypeId,
    from: usize,
    targets: Seq<Seq<char>>,
    n: int,
)
    requires
        start.error is None,
        0 <= n <= targets.len(),
        forall|k: int| 0 <= k < n ==> start.store.class_map.contains_key(#[trigger] targets[k]),
    ensures
        link_targets(start, link_type, from, targets, n).error is None,
        link_targets(start, link_type, from, targets, n).store.class_map == start.store.class_map,
    decreases n,
{
    if n > 0 {
        lemma_link_targets_registered(start, link_type, from, targets, n - 1);
    }
}

/// A pass that adds links only leaves every class with its articles and
/// its article type.
pub proof fn lemma_links_only_keeps(before: ClassesView, after: ClassesView, types: nat)
    requires
        links_only(before, after),
    ensures
        before.populated() ==> after.populated(),
        before.typed_in(types) ==> after.typed_in(types),
{
    if before.populated() {
        assert forall|i: int| 0 <= i < after.classes.len() implies (
        #[trigger] after.classes[i]).articles.len() > 0 by {
            assert(before.classes[i].articles.len() > 0);
        }
    }
    if before.typed_in(types) {
        assert forall|i: int| 0 <= i < after.classes.len() implies (
        #[trigger] after.classes[i]).article_type < types by {
            assert(before.classes[i].article_type < types);
        }
    }
}

} // verus!
