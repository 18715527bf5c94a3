//! What a store holds beside the keys of its articles, and the law that
//! the numbers drawn in a first pass decide the keys of the articles and
//! nothing else.

use vstd::prelude::*;
use crate::class::ArticleId;
use crate::class::ArticleView;
use crate::class::ClassView;
use crate::class::ClassesView;
use crate::class::new_class;
use crate::class::ranged;
use crate::compile::register::Pass;
use crate::compile::register::declared_article;
use crate::compile::register::draw_at;
use crate::compile::register::lemma_articles_stopped;
use crate::compile::register::pass_from;
use crate::compile::register::register;
use crate::compile::register::register_articles;
use crate::compile::register::register_documents;
use crate::compile::register::register_step;
use crate::model::ArticleTypeView;
use crate::model::find_type;
use crate::read::article::ReadArticleView;
use crate::read::document::ReadFsDocumentView;

verus! {

/// The article `article` without its key.
pub open spec fn unkeyed_article(article: ArticleView) -> ArticleView {
    ArticleView { key: Seq::empty(), ..article }
}

/// The class `class` with its articles without their keys.
pub open spec fn unkeyed_class(class: ClassView) -> ClassView {
    ClassView {
        articles: Seq::new(class.articles.len(), |v: int| unkeyed_article(class.articles[v])),
        ..class
    }
}

/// The store `store` with its articles without their keys: the classes
/// with their keys, types and links, the names and the content of their
/// articles in order, the keys under which classes and articles are
/// registered, and the warnings.
pub open spec fn unkeyed(store: ClassesView) -> ClassesView {
    ClassesView {
        classes: Seq::new(store.classes.len(), |i: int| unkeyed_class(store.classes[i])),
        ..store
    }
}

/// Two classes that are the same without the keys of their articles differ
/// in those keys only.
pub proof fn lemma_unkeyed_class_same(one: ClassView, other: ClassView)
    requires
        unkeyed_class(one) == unkeyed_class(other),
    ensures
        one.key == other.key,
        one.article_type == other.article_type,
        one.links_out == other.links_out,
        one.links_in == other.links_in,
        one.articles.len() == other.articles.len(),
        forall|v: int|
            #![trigger one.articles[v]]
            #![trigger other.articles[v]]
            0 <= v < one.articles.len() ==> unkeyed_article(one.articles[v]) == unkeyed_article(
                other.articles[v],
            ),
{
    assert(unkeyed_class(one).articles.len() == one.articles.len());
    assert(unkeyed_class(other).articles.len() == other.articles.len());
    assert forall|v: int| 0 <= v < one.articles.len() implies unkeyed_article(one.articles[v])
        == unkeyed_article(other.articles[v]) by {
        assert(unkeyed_class(one).articles[v] == unkeyed_article(one.articles[v]));
        assert(unkeyed_class(other).articles[v] == unkeyed_article(other.articles[v]));
    }
}

/// Two stores that are the same without the keys of their articles have
/// the same registered keys and warnings, and as many classes, which are
/// the same without the keys of their articles.
pub proof fn lemma_unkeyed_same(one: ClassesView, other: ClassesView)
    requires
        unkeyed(one) == unkeyed(other),
    ensures
        one.class_map == other.class_map,
        one.article_map == other.article_map,
        one.warnings == other.warnings,
        one.classes.len() == other.classes.len(),
        forall|i: int|
            #![trigger one.classes[i]]
            #![trigger other.classes[i]]
            0 <= i < one.classes.len() ==> unkeyed_class(one.classes[i]) == unkeyed_class(
                other.classes[i],
            ),
{
    assert(unkeyed(one).classes.len() == one.classes.len());
    assert(unkeyed(other).classes.len() == other.classes.len());
    assert forall|i: int| 0 <= i < one.classes.len() implies unkeyed_class(one.classes[i])
        == unkeyed_class(other.classes[i]) by {
        assert(unkeyed(one).classes[i] == unkeyed_class(one.classes[i]));
        assert(unkeyed(other).classes[i] == unkeyed_class(other.classes[i]));
    }
}

/// A class that is added to two stores that are the same without the keys
/// of their articles leaves them so.
pub proof fn lemma_insert_class_unkeyed(one: ClassesView, other: ClassesView, class: ClassView)
    requires
        unkeyed(one) == unkeyed(other),
        ranged(one),
    ensures
        unkeyed(one.insert_class(class)) == unkeyed(other.insert_class(class)),
        ranged(one.insert_class(class)),
{
    lemma_unkeyed_same(one, other);
    let a = one.insert_class(class);
    let b = other.insert_class(class);
    assert forall|i: int| 0 <= i < a.classes.len() implies unkeyed(a).classes[i] == unkeyed(
        b,
    ).classes[i] by {
        if i < one.classes.len() {
            assert(a.classes[i] == one.classes[i]);
            assert(b.classes[i] == other.classes[i]);
        }
    }
    assert(unkeyed(a).classes =~= unkeyed(b).classes);
}

/// An article that is added to a class of two stores that are the same
/// without the keys of their articles leaves them so, and has one handle
/// in both.
pub proof fn lemma_insert_article_unkeyed(
    one: ClassesView,
    other: ClassesView,
    article: ArticleView,
)
    requires
        unkeyed(one) == unkeyed(other),
        ranged(one),
        one.class_in(article.class),
    ensures
        unkeyed(one.insert_article(article)) == unkeyed(other.insert_article(article)),
        ranged(one.insert_article(article)),
        one.classes[article.class as int].articles.len()
            == other.classes[article.class as int].articles.len(),
{
    lemma_unkeyed_same(one, other);
    let class = article.class as int;
    let a = one.insert_article(article);
    let b = other.insert_article(article);
    lemma_unkeyed_class_same(one.classes[class], other.classes[class]);
    assert forall|i: int| 0 <= i < a.classes.len() implies unkeyed(a).classes[i] == unkeyed(
        b,
    ).classes[i] by {
        if i == class {
            let grown = a.classes[i].articles;
            let grown_other = b.classes[i].articles;
            assert forall|v: int| 0 <= v < grown.len() implies unkeyed_article(grown[v])
                == unkeyed_article(grown_other[v]) by {
                if v < one.classes[class].articles.len() {
                    assert(grown[v] == one.classes[class].articles[v]);
                    assert(grown_other[v] == other.classes[class].articles[v]);
                }
            }
            assert(unkeyed_class(a.classes[i]).articles =~= unkeyed_class(b.classes[i]).articles);
        } else {
            assert(a.classes[i] == one.classes[i]);
            assert(b.classes[i] == other.classes[i]);
        }
    }
    assert(unkeyed(a).classes =~= unkeyed(b).classes);
}

/// A store whose article `id` gets another key is the same without the
/// keys of its articles.
pub proof fn lemma_set_article_key_unkeyed(store: ClassesView, id: ArticleId, key: Seq<char>)
    requires
        store.article_in(id),
    ensures
        unkeyed(store.set_article_key(id, key)) == unkeyed(store),
        ranged(store) ==> ranged(store.set_article_key(id, key)),
{
    let after = store.set_article_key(id, key);
    assert forall|i: int| 0 <= i < store.classes.len() implies unkeyed(after).classes[i] == unkeyed(
        store,
    ).classes[i] by {
        if i == id.class {
            assert(unkeyed_class(after.classes[i]).articles =~= unkeyed_class(
                store.classes[i],
            ).articles);
        }
    }
    assert(unkeyed(after).classes =~= unkeyed(store).classes);
}

/// A declaration is registered in two stores that are the same without
/// the keys of their articles in both or in none, with one handle or one
/// error, and leaves them so.
pub proof fn lemma_register_unkeyed(
    one: ClassesView,
    other: ClassesView,
    model: Seq<ArticleTypeView>,
    read: ReadArticleView,
)
    requires
        unkeyed(one) == unkeyed(other),
        ranged(one),
    ensures
        match register(one, model, read) {
            Ok((store, id)) => register(other, model, read) matches Ok((other_store, other_id))
                && other_id == id && unkeyed(store) == unkeyed(other_store) && ranged(store)
                && store.article_in(id) && other_store.article_in(id),
            Err(e) => register(other, model, read) == Err::<(ClassesView, ArticleId), Seq<char>>(e),
        },
{
    lemma_unkeyed_same(one, other);
    if register(one, model, read) is Ok {
        let article_type = find_type(model, read.type_key)->0;
        match one.get_class(read.class_key) {
            Some(class) => {
                lemma_unkeyed_class_same(one.classes[class as int], other.classes[class as int]);
                let article = declared_article(read, class);
                lemma_insert_article_unkeyed(one, other, article);
            },
            None => {
                let class = one.classes.len() as usize;
                let made = new_class(read.class_key, article_type as usize);
                lemma_insert_class_unkeyed(one, other, made);
                let article = declared_article(read, class);
                lemma_insert_article_unkeyed(
                    one.insert_class(made),
                    other.insert_class(made),
                    article,
                );
            },
        }
    } else {
        match one.get_class(read.class_key) {
            Some(class) => {
                lemma_unkeyed_class_same(one.classes[class as int], other.classes[class as int]);
            },
            None => {},
        }
    }
}

/// The first pass over one declaration leaves two stores that are the
/// same without the keys of their articles so, whatever is drawn for each.
pub proof fn lemma_step_unkeyed(
    one: Pass,
    other: Pass,
    model: Seq<ArticleTypeView>,
    read: ReadArticleView,
    first: Option<u16>,
    second: Option<u16>,
)
    requires
        unkeyed(one.store) == unkeyed(other.store),
        ranged(one.store),
        ranged(other.store),
        one.error is None,
        other.error is None,
    ensures
        unkeyed(register_step(one, model, read, first).store) == unkeyed(
            register_step(other, model, read, second).store,
        ),
        ranged(register_step(one, model, read, first).store),
        ranged(register_step(other, model, read, second).store),
{
    lemma_register_unkeyed(one.store, other.store, model, read);
    lemma_register_unkeyed(other.store, one.store, model, read);
    match register(one.store, model, read) {
        Ok((store, id)) => {
            let other_store = register(other.store, model, read)->Ok_0.0;
            let after = register_step(one, model, read, first).store;
            let other_after = register_step(other, model, read, second).store;
            if after != store {
                let key = after.article(id).key;
                assert(after == store.set_article_key(id, key));
                lemma_set_article_key_unkeyed(store, id, key);
            }
            if other_after != other_store {
                let key = other_after.article(id).key;
                assert(other_after == other_store.set_article_key(id, key));
                lemma_set_article_key_unkeyed(other_store, id, key);
            }
        },
        Err(_) => {},
    }
}

/// The first pass over the first `n` of some declarations leaves two
/// stores that are the same without the keys of their articles so,
/// whatever is drawn, where it ends without an error on both.
pub proof fn lemma_articles_unkeyed(
    one: Pass,
    other: Pass,
    model: Seq<ArticleTypeView>,
    articles: Seq<ReadArticleView>,
    first: Option<Seq<u16>>,
    second: Option<Seq<u16>>,
    n: int,
)
    requires
        unkeyed(one.store) == unkeyed(other.store),
        ranged(one.store),
        ranged(other.store),
        register_articles(one, model, articles, first, n).error is None,
        register_articles(other, model, articles, second, n).error is None,
    ensures
        unkeyed(register_articles(one, model, articles, first, n).store) == unkeyed(
            register_articles(other, model, articles, second, n).store,
        ),
        ranged(register_articles(one, model, articles, first, n).store),
        ranged(register_articles(other, model, articles, second, n).store),
    decreases n,
{
    if n > 0 {
        let before = register_articles(one, model, articles, first, n - 1);
        let other_before = register_articles(other, model, articles, second, n - 1);
        lemma_articles_unkeyed(one, other, model, articles, first, second, n - 1);
        lemma_step_unkeyed(
            before,
            other_before,
            model,
            articles[n - 1],
            draw_at(first, n - 1),
            draw_at(second, n - 1),
        );
    }
}

/// The first pass over the first `n` of some documents leaves two stores
/// that are the same without the keys of their articles so, whatever is
/// drawn, where it ends without an error on both.
pub proof fn lemma_documents_unkeyed(
    one: Pass,
    other: Pass,
    model: Seq<ArticleTypeView>,
    documents: Seq<ReadFsDocumentView>,
    first: Option<Seq<Seq<u16>>>,
    second: Option<Seq<Seq<u16>>>,
    n: int,
)
    requires
        unkeyed(one.store) == unkeyed(other.store),
        ranged(one.store),
        ranged(other.store),
        register_documents(one, model, documents, first, n).error is None,
        register_documents(other, model, documents, second, n).error is None,
    ensures
        unkeyed(register_documents(one, model, documents, first, n).store) == unkeyed(
            register_documents(other, model, documents, second, n).store,
        ),
        ranged(register_documents(one, model, documents, first, n).store),
        ranged(register_documents(other, model, documents, second, n).store),
    decreases n,
{
    if n > 0 {
        let articles = documents[n - 1].document.read_articles;
        let before = register_documents(one, model, documents, first, n - 1);
        let other_before = register_documents(other, model, documents, second, n - 1);
        if before.error is Some {
            lemma_articles_stopped(
                before,
                model,
                articles,
                draw_at(first, n - 1),
                articles.len() as int,
            );
        }
        if other_before.error is Some {
            lemma_articles_stopped(
                other_before,
                model,
                articles,
                draw_at(second, n - 1),
                articles.len() as int,
            );
        }
        lemma_documents_unkeyed(one, other, model, documents, first, second, n - 1);
        lemma_articles_unkeyed(
            before,
            other_before,
            model,
            articles,
            draw_at(first, n - 1),
            draw_at(second, n - 1),
            articles.len() as int,
        );
    }
}

/// The numbers drawn decide the keys of the articles and nothing else:
/// two first passes over the same documents, from the same store, that
/// end without an error leave the same classes with the same keys, types
/// and links, and in each class as many articles with the same names and
/// content in the same order, registered under the same keys, whatever is
/// drawn in each, and also where one of them draws nothing.
pub proof fn law_draws_decide_keys_only(
    store: ClassesView,
    model: Seq<ArticleTypeView>,
    documents: Seq<ReadFsDocumentView>,
    first: Option<Seq<Seq<u16>>>,
    second: Option<Seq<Seq<u16>>>,
)
    requires
        store.wf(),
        register_documents(
            pass_from(store),
            model,
            documents,
            first,
            documents.len() as int,
        ).error is None,
        register_documents(
            pass_from(store),
            model,
            documents,
            second,
            documents.len() as int,
        ).error is None,
    ensures
        unkeyed(
            register_documents(pass_from(store), model, documents, first, documents.len() as int).store,
        ) == unkeyed(
            register_documents(
                pass_from(store),
                model,
                documents,
                second,
                documents.len() as int,
            ).store,
        ),
{
    lemma_documents_unkeyed(
        pass_from(store),
        pass_from(store),
        model,
        documents,
        first,
        second,
        documents.len() as int,
    );
}

} // verus!
