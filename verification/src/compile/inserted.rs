//! The law that every link that a document declares is in the graph after
//! a second pass that has not stopped, and that a second pass takes no
//! link away.

use vstd::prelude::*;
use crate::class::ClassesView;
use crate::class::lemma_insert_link_links;
use crate::class::ranged;
use crate::compile::Binding;
use crate::compile::binding_from;
use crate::compile::link::link_article;
use crate::compile::link::link_articles;
use crate::compile::link::link_groups;
use crate::compile::link::link_targets;
use crate::compile::link::links_only;
use crate::compile::link_document;
use crate::compile::link_documents;
use crate::compile::register::Pass;
use crate::compile::register::classes_registered;
use crate::model::ArticleTypeView;
use crate::model::LinkTypeId;
use crate::model::find_link;
use crate::read::article::ReadArticleView;
use crate::read::document::ReadFsDocumentView;
use crate::views::lemma_count_push;

verus! {

/// Whether `after` is `before` with more links: the classes are the same
/// but for their links, and every link of `before` is in `after` at least
/// as many times.
pub open spec fn links_grown(before: ClassesView, after: ClassesView) -> bool {
    &&& links_only(before, after)
    &&& forall|link_type: LinkTypeId, from: usize, to: usize|
        #![trigger after.out_count(link_type, from, to)]
        before.class_in(from) ==> before.out_count(link_type, from, to) <= after.out_count(
            link_type,
            from,
            to,
        )
    &&& forall|link_type: LinkTypeId, from: usize, to: usize|
        #![trigger after.in_count(link_type, from, to)]
        before.class_in(to) ==> before.in_count(link_type, from, to) <= after.in_count(
            link_type,
            from,
            to,
        )
}

/// Whether the link that the class `from` declares by the key `link_key`
/// to the class with the key `target` is in `after`: the key is that of a
/// link type of the article type of the class, a class is registered under
/// `target`, and the link is among the links out of `from` and among the
/// links into that class. The classes and the keys are those of `store`.
pub open spec fn link_inserted(
    store: ClassesView,
    after: ClassesView,
    model: Seq<ArticleTypeView>,
    from: usize,
    link_key: Seq<char>,
    target: Seq<char>,
) -> bool {
    let type_index = store.classes[from as int].article_type;
    let found = find_link(model[type_index as int].links, link_key);
    let link_type = LinkTypeId { article_type: type_index, link: found->0 as usize };
    &&& found is Some
    &&& store.class_map.contains_key(target)
    &&& after.out_count(link_type, from, store.class_map[target]) > 0
    &&& after.in_count(link_type, from, store.class_map[target]) > 0
}

/// What has grown from a first store to a second, and from the second to
/// a third, has grown from the first to the third.
pub proof fn lemma_grown_twice(first: ClassesView, second: ClassesView, third: ClassesView)
    requires
        links_grown(first, second),
        links_grown(second, third),
    ensures
        links_grown(first, third),
{
    assert forall|i: int| 0 <= i < first.classes.len() implies (#[trigger] third.classes[i]).key
        == first.classes[i].key && third.classes[i].article_type == first.classes[i].article_type
        && third.classes[i].articles == first.classes[i].articles by {
        assert(second.classes[i].key == first.classes[i].key);
    }
    assert forall|link_type: LinkTypeId, from: usize, to: usize|
        first.class_in(from) implies first.out_count(link_type, from, to) <= #[trigger] third.out_count(
        link_type,
        from,
        to,
    ) by {
        assert(first.out_count(link_type, from, to) <= second.out_count(link_type, from, to));
    }
    assert forall|link_type: LinkTypeId, from: usize, to: usize|
        first.class_in(to) implies first.in_count(link_type, from, to) <= #[trigger] third.in_count(
        link_type,
        from,
        to,
    ) by {
        assert(first.in_count(link_type, from, to) <= second.in_count(link_type, from, to));
    }
}

/// A link that is inserted is in the store once more, and no link has
/// left it.
pub proof fn lemma_insert_link_grown(
    store: ClassesView,
    link_type: LinkTypeId,
    from: usize,
    to: usize,
)
    requires
        store.class_in(from),
        store.class_in(to),
    ensures
        links_grown(store, store.insert_link(link_type, from, to)),
        store.insert_link(link_type, from, to).out_count(link_type, from, to) == store.out_count(
            link_type,
            from,
            to,
        ) + 1,
        store.insert_link(link_type, from, to).in_count(link_type, from, to) == store.in_count(
            link_type,
            from,
            to,
        ) + 1,
{
    let after = store.insert_link(link_type, from, to);
    assert(links_only(store, after));
    assert forall|other: LinkTypeId, f: usize, t: usize| store.class_in(f) implies store.out_count(
        other,
        f,
        t,
    ) <= #[trigger] after.out_count(other, f, t) by {
        lemma_insert_link_links(store, link_type, from, to, other, f);
        lemma_count_push(store.links_out(f, other), to, t);
    }
    assert forall|other: LinkTypeId, f: usize, t: usize| store.class_in(t) implies store.in_count(
        other,
        f,
        t,
    ) <= #[trigger] after.in_count(other, f, t) by {
        lemma_insert_link_links(store, link_type, from, to, other, t);
        lemma_count_push(store.links_in(t, other), from, f);
    }
    lemma_insert_link_links(store, link_type, from, to, link_type, from);
    lemma_count_push(store.links_out(from, link_type), to, to);
    lemma_insert_link_links(store, link_type, from, to, link_type, to);
    lemma_count_push(store.links_in(to, link_type), from, from);
}

/// A link that is in a store is in a store that has grown from it.
pub proof fn lemma_link_inserted_grown(
    store: ClassesView,
    middle: ClassesView,
    after: ClassesView,
    model: Seq<ArticleTypeView>,
    from: usize,
    link_key: Seq<char>,
    target: Seq<char>,
)
    requires
        ranged(store),
        store.class_in(from),
        links_only(store, middle),
        links_grown(middle, after),
        link_inserted(store, middle, model, from, link_key, target),
    ensures
        link_inserted(store, after, model, from, link_key, target),
{
    let type_index = store.classes[from as int].article_type;
    let found = find_link(model[type_index as int].links, link_key);
    let link_type = LinkTypeId { article_type: type_index, link: found->0 as usize };
    let to = store.class_map[target];
    assert(middle.out_count(link_type, from, to) <= after.out_count(link_type, from, to));
    assert(middle.in_count(link_type, from, to) <= after.in_count(link_type, from, to));
}

/// After a second pass over the first `n` of some targets that has not
/// stopped, the store has grown, and a link to the class of each of the
/// targets is in it.
pub proof fn lemma_targets_inserted(
    start: Pass,
    link_type: LinkTypeId,
    from: usize,
    targets: Seq<Seq<char>>,
    n: int,
)
    requires
        ranged(start.store),
        start.store.class_in(from),
        link_targets(start, link_type, from, targets, n).error is None,
    ensures
        start.error is None,
        links_grown(start.store, link_targets(start, link_type, from, targets, n).store),
        forall|t: int|
            0 <= t < n ==> start.store.class_map.contains_key(#[trigger] targets[t]) && link_targets(
                start,
                link_type,
                from,
                targets,
                n,
            ).store.out_count(link_type, from, start.store.class_map[targets[t]]) > 0
                && link_targets(start, link_type, from, targets, n).store.in_count(
                link_type,
                from,
                start.store.class_map[targets[t]],
            ) > 0,
    decreases n,
{
    if n > 0 {
        let pass = link_targets(start, link_type, from, targets, n - 1);
        let end = link_targets(start, link_type, from, targets, n);
        lemma_targets_inserted(start, link_type, from, targets, n - 1);
        let to = pass.store.class_map[targets[n - 1]];
        lemma_insert_link_grown(pass.store, link_type, from, to);
        lemma_grown_twice(start.store, pass.store, end.store);
        assert forall|t: int| 0 <= t < n implies start.store.class_map.contains_key(
            #[trigger] targets[t],
        ) && end.store.out_count(link_type, from, start.store.class_map[targets[t]]) > 0
            && end.store.in_count(link_type, from, start.store.class_map[targets[t]]) > 0 by {
            let class = start.store.class_map[targets[t]];
            if t < n - 1 {
                assert(pass.store.out_count(link_type, from, class) <= end.store.out_count(
                    link_type,
                    from,
                    class,
                ));
                assert(pass.store.in_count(link_type, from, class) <= end.store.in_count(
                    link_type,
                    from,
                    class,
                ));
            }
        }
    }
}

/// After a second pass over the first `n` of the groups of links that a
/// class declares that has not stopped, the store has grown, and every
/// link of the groups is in it.
pub proof fn lemma_groups_inserted(
    start: Pass,
    model: Seq<ArticleTypeView>,
    from: usize,
    links: Seq<(Seq<char>, Seq<Seq<char>>)>,
    n: int,
)
    requires
        ranged(start.store),
        start.store.class_in(from),
        link_groups(start, model, from, links, n).error is None,
    ensures
        start.error is None,
        links_grown(start.store, link_groups(start, model, from, links, n).store),
        forall|g: int, t: int|
            0 <= g < n && 0 <= t < links[g].1.len() ==> link_inserted(
                start.store,
                link_groups(start, model, from, links, n).store,
                model,
                from,
                links[g].0,
                #[trigger] links[g].1[t],
            ),
    decreases n,
{
    if n > 0 {
        let pass = link_groups(start, model, from, links, n - 1);
        let end = link_groups(start, model, from, links, n);
        lemma_groups_inserted(start, model, from, links, n - 1);
        let type_index = pass.store.classes[from as int].article_type;
        assert(type_index == start.store.classes[from as int].article_type);
        let found = find_link(model[type_index as int].links, links[n - 1].0);
        let link_type = LinkTypeId { article_type: type_index, link: found->0 as usize };
        let targets = links[n - 1].1;
        lemma_targets_inserted(pass, link_type, from, targets, targets.len() as int);
        lemma_grown_twice(start.store, pass.store, end.store);
        assert forall|g: int, t: int| 0 <= g < n && 0 <= t < links[g].1.len() implies link_inserted(
            start.store,
            end.store,
            model,
            from,
            links[g].0,
            #[trigger] links[g].1[t],
        ) by {
            if g < n - 1 {
                lemma_link_inserted_grown(
                    start.store,
                    pass.store,
                    end.store,
                    model,
                    from,
                    links[g].0,
                    links[g].1[t],
                );
            } else {
                assert(pass.store.class_map.contains_key(targets[t]));
            }
        }
    }
}

/// Whether every link that the declaration `read` declares is in `after`,
/// from the class that is registered in `store` under the class key of the
/// declaration.
pub open spec fn links_inserted(
    store: ClassesView,
    after: ClassesView,
    model: Seq<ArticleTypeView>,
    read: ReadArticleView,
) -> bool {
    forall|g: int, t: int|
        0 <= g < read.links.len() && 0 <= t < read.links[g].1.len() ==> link_inserted(
            store,
            after,
            model,
            store.class_map[read.class_key],
            read.links[g].0,
            #[trigger] read.links[g].1[t],
        )
}

/// Links that are in a store are in a store that has grown from it.
pub proof fn lemma_links_inserted_grown(
    store: ClassesView,
    middle: ClassesView,
    after: ClassesView,
    model: Seq<ArticleTypeView>,
    read: ReadArticleView,
)
    requires
        ranged(store),
        store.class_map.contains_key(read.class_key),
        links_only(store, middle),
        links_grown(middle, after),
        links_inserted(store, middle, model, read),
    ensures
        links_inserted(store, after, model, read),
{
    let from = store.class_map[read.class_key];
    assert forall|g: int, t: int|
        0 <= g < read.links.len() && 0 <= t < read.links[g].1.len() implies link_inserted(
        store,
        after,
        model,
        from,
        read.links[g].0,
        #[trigger] read.links[g].1[t],
    ) by {
        lemma_link_inserted_grown(
            store,
            middle,
            after,
            model,
            from,
            read.links[g].0,
            read.links[g].1[t],
        );
    }
}

/// After a second pass over the first `n` of some declarations that has
/// not stopped, the store has grown, and every link of the declarations
/// is in it.
pub proof fn lemma_articles_inserted(
    start: Pass,
    model: Seq<ArticleTypeView>,
    articles: Seq<ReadArticleView>,
    n: int,
)
    requires
        ranged(start.store),
        start.error is None,
        forall|j: int|
            0 <= j < n ==> start.store.class_map.contains_key((#[trigger] articles[j]).class_key),
        link_articles(start, model, articles, n).error is None,
    ensures
        links_grown(start.store, link_articles(start, model, articles, n).store),
        forall|j: int|
            0 <= j < n ==> links_inserted(
                start.store,
                link_articles(start, model, articles, n).store,
                model,
                #[trigger] articles[j],
            ),
    decreases n,
{
    if n > 0 {
        let pass = link_articles(start, model, articles, n - 1);
        let end = link_articles(start, model, articles, n);
        let read = articles[n - 1];
        lemma_articles_inserted(start, model, articles, n - 1);
        let from = pass.store.class_map[read.class_key];
        assert(start.store.class_map.contains_key(read.class_key));
        lemma_groups_inserted(pass, model, from, read.links, read.links.len() as int);
        lemma_grown_twice(start.store, pass.store, end.store);
        assert forall|j: int| 0 <= j < n implies links_inserted(
            start.store,
            end.store,
            model,
            #[trigger] articles[j],
        ) by {
            if j < n - 1 {
                lemma_links_inserted_grown(start.store, pass.store, end.store, model, articles[j]);
            } else {
                assert(pass.store.classes[from as int].article_type
                    == start.store.classes[from as int].article_type);
                assert forall|g: int, t: int|
                    0 <= g < read.links.len() && 0 <= t < read.links[g].1.len() implies link_inserted(
                    start.store,
                    end.store,
                    model,
                    from,
                    read.links[g].0,
                    #[trigger] read.links[g].1[t],
                ) by {
                    assert(link_inserted(
                        pass.store,
                        end.store,
                        model,
                        from,
                        read.links[g].0,
                        read.links[g].1[t],
                    ));
                }
            }
        }
    }
}

/// After a second pass over the first `n` of some documents that has not
/// stopped, the store has grown, and every link of the declarations of
/// the documents is in it.
pub proof fn lemma_documents_inserted(
    start: Binding,
    model: Seq<ArticleTypeView>,
    documents: Seq<ReadFsDocumentView>,
    project_paths: Seq<Seq<char>>,
    n: int,
)
    requires
        ranged(start.pass.store),
        start.pass.error is None,
        0 <= n <= documents.len(),
        classes_registered(start.pass.store, documents),
        link_documents(start, model, documents, project_paths, n).pass.error is None,
    ensures
        links_grown(
            start.pass.store,
            link_documents(start, model, documents, project_paths, n).pass.store,
        ),
        forall|i: int, j: int|
            0 <= i < n && 0 <= j < documents[i].document.read_articles.len() ==> links_inserted(
                start.pass.store,
                link_documents(start, model, documents, project_paths, n).pass.store,
                model,
                #[trigger] documents[i].document.read_articles[j],
            ),
    decreases n,
{
    if n > 0 {
        let binding = link_documents(start, model, documents, project_paths, n - 1);
        let end = link_documents(start, model, documents, project_paths, n);
        let articles = documents[n - 1].document.read_articles;
        assert(end == link_document(binding, model, documents[n - 1], project_paths));
        lemma_documents_inserted(start, model, documents, project_paths, n - 1);
        assert forall|j: int| 0 <= j < articles.len() implies binding.pass.store.class_map.contains_key(
            (#[trigger] articles[j]).class_key,
        ) by {
            assert(start.pass.store.class_map.contains_key(
                documents[n - 1].document.read_articles[j].class_key,
            ));
        }
        lemma_articles_inserted(binding.pass, model, articles, articles.len() as int);
        lemma_grown_twice(start.pass.store, binding.pass.store, end.pass.store);
        assert forall|i: int, j: int|
            0 <= i < n && 0 <= j < documents[i].document.read_articles.len() implies links_inserted(
            start.pass.store,
            end.pass.store,
            model,
            #[trigger] documents[i].document.read_articles[j],
        ) by {
            let read = documents[i].document.read_articles[j];
            assert(start.pass.store.class_map.contains_key(read.class_key));
            if i < n - 1 {
                lemma_links_inserted_grown(
                    start.pass.store,
                    binding.pass.store,
                    end.pass.store,
                    model,
                    read,
                );
            } else {
                let from = start.pass.store.class_map[read.class_key];
                assert(links_inserted(binding.pass.store, end.pass.store, model, articles[j]));
                assert(binding.pass.store.classes[from as int].article_type
                    == start.pass.store.classes[from as int].article_type);
                assert forall|g: int, t: int|
                    0 <= g < read.links.len() && 0 <= t < read.links[g].1.len() implies link_inserted(
                    start.pass.store,
                    end.pass.store,
                    model,
                    from,
                    read.links[g].0,
                    #[trigger] read.links[g].1[t],
                ) by {
                    assert(link_inserted(
                        binding.pass.store,
                        end.pass.store,
                        model,
                        from,
                        read.links[g].0,
                        read.links[g].1[t],
                    ));
                }
            }
        }
    }
}

/// Whether every link that a declaration of the documents `documents`
/// declares is in `after`, from the class that is registered in `store`
/// under the class key of the declaration.
pub open spec fn documents_inserted(
    store: ClassesView,
    after: ClassesView,
    model: Seq<ArticleTypeView>,
    documents: Seq<ReadFsDocumentView>,
) -> bool {
    forall|i: int, j: int|
        0 <= i < documents.len() && 0 <= j < documents[i].document.read_articles.len()
            ==> links_inserted(
            store,
            after,
            model,
            #[trigger] documents[i].document.read_articles[j],
        )
}

/// Whether two stores register the same keys for the same classes, of the
/// same article types.
pub open spec fn same_frame(one: ClassesView, other: ClassesView) -> bool {
    &&& one.class_map == other.class_map
    &&& one.classes.len() == other.classes.len()
    &&& forall|i: int|
        #![trigger one.classes[i]]
        #![trigger other.classes[i]]
        0 <= i < one.classes.len() ==> one.classes[i].article_type
            == other.classes[i].article_type
}

/// A store that holds links only beside those of another registers the
/// same keys for the same classes.
pub proof fn lemma_links_only_frame(before: ClassesView, after: ClassesView)
    requires
        links_only(before, after),
    ensures
        same_frame(before, after),
        same_frame(after, before),
{
    assert forall|i: int| 0 <= i < before.classes.len() implies before.classes[i].article_type
        == after.classes[i].article_type by {
        assert(after.classes[i].key == before.classes[i].key);
    }
}

/// The links of documents that are in a store are in it whichever of two
/// stores that register the same keys for the same classes they are looked
/// up in.
pub proof fn lemma_documents_rebased(
    store: ClassesView,
    other: ClassesView,
    after: ClassesView,
    model: Seq<ArticleTypeView>,
    documents: Seq<ReadFsDocumentView>,
)
    requires
        same_frame(store, other),
        ranged(store),
        classes_registered(store, documents),
        documents_inserted(store, after, model, documents),
    ensures
        documents_inserted(other, after, model, documents),
{
    assert forall|i: int, j: int|
        0 <= i < documents.len() && 0 <= j < documents[i].document.read_articles.len() implies links_inserted(
        other,
        after,
        model,
        #[trigger] documents[i].document.read_articles[j],
    ) by {
        let read = documents[i].document.read_articles[j];
        let from = store.class_map[read.class_key];
        assert(store.class_map.contains_key(read.class_key));
        assert(links_inserted(store, after, model, read));
        assert(store.classes[from as int].article_type == other.classes[from as int].article_type);
        assert forall|g: int, t: int|
            0 <= g < read.links.len() && 0 <= t < read.links[g].1.len() implies link_inserted(
            other,
            after,
            model,
            from,
            read.links[g].0,
            #[trigger] read.links[g].1[t],
        ) by {
            assert(link_inserted(store, after, model, from, read.links[g].0, read.links[g].1[t]));
        }
    }
}

/// The links of documents that are in a store are in a store that has
/// grown from it.
pub proof fn lemma_documents_inserted_grown(
    store: ClassesView,
    middle: ClassesView,
    after: ClassesView,
    model: Seq<ArticleTypeView>,
    documents: Seq<ReadFsDocumentView>,
)
    requires
        ranged(store),
        classes_registered(store, documents),
        links_only(store, middle),
        links_grown(middle, after),
        documents_inserted(store, middle, model, documents),
    ensures
        documents_inserted(store, after, model, documents),
{
    assert forall|i: int, j: int|
        0 <= i < documents.len() && 0 <= j < documents[i].document.read_articles.len() implies links_inserted(
        store,
        after,
        model,
        #[trigger] documents[i].document.read_articles[j],
    ) by {
        let read = documents[i].document.read_articles[j];
        assert(store.class_map.contains_key(read.class_key));
        lemma_links_inserted_grown(store, middle, after, model, read);
    }
}

/// Every link that is declared is in the graph after the second pass,
/// whether its target was registered by the document that declares it, by
/// one before it or by one after it: where the second pass over the
/// documents `documents` does not stop, the link that the declaration at
/// `j` of the document at `i` declares under the key at `g` to the target
/// at `t` is among the links out of the class of the declaration and among
/// the links into the class of the target, and no link that was in the
/// store has left it.
pub proof fn law_declared_links_inserted(
    store: ClassesView,
    model: Seq<ArticleTypeView>,
    documents: Seq<ReadFsDocumentView>,
    project_paths: Seq<Seq<char>>,
    i: int,
    j: int,
    g: int,
    t: int,
)
    requires
        store.wf(),
        classes_registered(store, documents),
        link_documents(
            binding_from(store),
            model,
            documents,
            project_paths,
            documents.len() as int,
        ).pass.error is None,
        0 <= i < documents.len(),
        0 <= j < documents[i].document.read_articles.len(),
        0 <= g < documents[i].document.read_articles[j].links.len(),
        0 <= t < documents[i].document.read_articles[j].links[g].1.len(),
    ensures
        ({
            let after = link_documents(
                binding_from(store),
                model,
                documents,
                project_paths,
                documents.len() as int,
            ).pass.store;
            let read = documents[i].document.read_articles[j];
            &&& links_grown(store, after)
            &&& link_inserted(
                store,
                after,
                model,
                store.class_map[read.class_key],
                read.links[g].0,
                read.links[g].1[t],
            )
        }),
{
    lemma_documents_inserted(
        binding_from(store),
        model,
        documents,
        project_paths,
        documents.len() as int,
    );
    let after = link_documents(
        binding_from(store),
        model,
        documents,
        project_paths,
        documents.len() as int,
    ).pass.store;
    let read = documents[i].document.read_articles[j];
    assert(links_inserted(store, after, model, read));
}

} // verus!
