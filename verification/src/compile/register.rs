//! The first pass over the documents of a source: the registration of
//! the articles that the documents declare, and of their classes.

use vstd::prelude::*;
use rand::Rng;
use crate::class::Article;
use crate::class::ArticleId;
use crate::class::ArticleView;
use crate::class::Class;
use crate::class::Classes;
use crate::class::ClassesView;
use crate::class::lemma_insert_article_among;
use crate::class::lemma_insert_class_among;
use crate::class::lemma_set_article_key_among;
use crate::class::new_class;
use crate::model::ArticleTypeView;
use crate::model::Model;
use crate::model::find_type;
use crate::model::model_link_types;
use crate::model::model_wf;
use crate::read::article::ReadArticle;
use crate::read::article::ReadArticleView;
use crate::read::article::clone_content;
use crate::read::document::ReadFsDocument;
use crate::read::document::ReadFsDocumentView;
use crate::text::digits_injective;
use crate::text::hexadecimal;
use crate::text::hexadecimal_string;
use crate::text::join3;
use crate::views::clone_texts;
use crate::views::lemma_index_of;
use crate::views::views;

verus! {

/// The message for an article of a type that the model does not declare.
pub open spec fn undeclared_type_message(type_key: Seq<char>) -> Seq<char> {
    "Found non-declared type "@ + type_key + "."@
}

/// The message for an article whose class has another type than the one
/// that the article is declared with.
pub open spec fn different_type_message(article_key: Seq<char>) -> Seq<char> {
    "Article "@ + article_key + " declared with different type."@
}

/// The article that is registered for the declaration `read` in the class
/// `class`.
pub open spec fn declared_article(read: ReadArticleView, class: usize) -> ArticleView {
    ArticleView { class, key: read.article_key, names: read.names, content: read.content }
}

/// The outcome of registering the declaration `read` in `store`: the store
/// with the article, and the handle of the article; or the message of the
/// error, in which case the store stays as it is.
///
/// The type of the article must be declared in `model`. The article joins
/// the class that is registered under its class key, which must be of the
/// type of the article; where there is no such class, a class is made. An
/// article whose key is registered already is registered like any other,
/// and the key stays with the article that was registered first.
pub open spec fn register(
    store: ClassesView,
    model: Seq<ArticleTypeView>,
    read: ReadArticleView,
) -> Result<(ClassesView, ArticleId), Seq<char>> {
    match find_type(model, read.type_key) {
        None => Err(undeclared_type_message(read.type_key)),
        Some(article_type) => {
            match store.get_class(read.class_key) {
                Some(class) => {
                    if store.classes[class as int].article_type != article_type {
                        Err(different_type_message(read.article_key))
                    } else {
                        Ok(
                            (
                                store.insert_article(declared_article(read, class)),
                                ArticleId {
                                    class,
                                    variant: store.classes[class as int].articles.len() as usize,
                                },
                            ),
                        )
                    }
                },
                None => {
                    let class = store.classes.len() as usize;
                    Ok(
                        (
                            store.insert_class(
                                new_class(read.class_key, article_type as usize),
                            ).insert_article(declared_article(read, class)),
                            ArticleId { class, variant: 0 },
                        ),
                    )
                },
            }
        },
    }
}

/// Registers the article that `read_article` declares, and makes its class
/// where the class is not there yet.
///
/// An article whose key is registered already is registered too: that is
/// no error, and the key stays with the article that was registered first.
pub fn register_article(model: &Model, classes: &mut Classes, read_article: &ReadArticle) -> (r:
    Result<ArticleId, String>)
    requires
        model_wf(model@),
        old(classes)@.wf(),
    ensures
        final(classes)@.wf(),
        old(classes)@.links_among(model_link_types(model@)) ==> final(classes)@.links_among(
            model_link_types(model@),
        ),
        old(classes)@.populated() ==> final(classes)@.populated(),
        old(classes)@.typed_in(model@.len()) ==> final(classes)@.typed_in(model@.len()),
        match register(old(classes)@, model@, read_article@) {
            Ok((store, id)) => r == Ok::<ArticleId, String>(id) && final(classes)@ == store,
            Err(e) => r matches Err(message) && message@ == e && final(classes)@ == old(classes)@,
        },
        old(classes)@.articles_kept(final(classes)@),
        old(classes)@.classes_kept(final(classes)@),
        r matches Ok(id) ==> old(classes)@.article_added(final(classes)@, id),
        r matches Ok(id) ==> final(classes)@.article(id) == declared_article(
            read_article@,
            id.class,
        ),
        r matches Ok(id) ==> final(classes)@.classes[id.class as int].key == read_article@.class_key,
{
    let article_type = match model.get_type(read_article.type_key.as_str()) {
        Some(article_type) => article_type.index,
        None => {
            return Err(join3("Found non-declared type ", read_article.type_key.as_str(), "."));
        },
    };
    proof {
        let found = find_type(model@, read_article@.type_key)->0;
        lemma_index_of(crate::model::type_keys(model@), read_article@.type_key);
        assert(model@[found].index == found);
    }
    let class = match classes.get_class(read_article.class_key.as_str()) {
        Some(class) => {
            if classes.class(class).get_article_type() != article_type {
                return Err(
                    join3(
                        "Article ",
                        read_article.article_key.as_str(),
                        " declared with different type.",
                    ),
                );
            }
            class
        },
        None => classes.insert_class(Class::new(read_article.class_key.as_str(), article_type)),
    };
    let article = Article::new(
        class,
        read_article.article_key.clone(),
        clone_texts(&read_article.names),
        clone_content(&read_article.content),
    );
    let ghost middle = classes@;
    let id = classes.insert_article(article);
    proof {
        let types = model_link_types(model@);
        if old(classes)@.links_among(types) {
            if old(classes)@.get_class(read_article@.class_key) is None {
                lemma_insert_class_among(
                    old(classes)@,
                    new_class(read_article@.class_key, article_type),
                    types,
                );
            }
            lemma_insert_article_among(middle, declared_article(read_article@, class), types);
        }
    }
    Ok(id)
}

/// The key that hides where an article of the class with the key
/// `class_key` comes from: the key of the class, `#`, the number `draw` in
/// hexadecimal, and `@?`.
pub open spec fn obfuscated_key(class_key: Seq<char>, draw: u16) -> Seq<char> {
    class_key + "#"@ + hexadecimal(draw as nat) + "@?"@
}

/// The key that hides where an article of the class with the key
/// `class_key` comes from, for the number `draw`.
pub fn obfuscate_key(class_key: &str, draw: u16) -> (key: String)
    ensures
        key@ == obfuscated_key(class_key@, draw),
{
    let digits = hexadecimal_string(draw);
    let mut key = join3(class_key, "#", digits.as_str());
    key.append("@?");
    key
}

/// The number that is tried at the place `k` after the draw `draw`: the
/// numbers are gone through from the draw on, and after the last comes the
/// first.
pub open spec fn candidate(draw: u16, k: int) -> u16 {
    ((draw + k) % 65536) as u16
}

/// The first of the first `n` numbers from `draw` on whose obfuscated key
/// for the class with the key `class_key` no article of `store` has.
pub open spec fn free_draw_within(store: ClassesView, class_key: Seq<char>, draw: u16, n: int) -> Option<
    u16,
>
    decreases n,
{
    if n <= 0 {
        None
    } else {
        match free_draw_within(store, class_key, draw, n - 1) {
            Some(free) => Some(free),
            None => if store.key_taken(obfuscated_key(class_key, candidate(draw, n - 1))) {
                None
            } else {
                Some(candidate(draw, n - 1))
            },
        }
    }
}

/// The first number from `draw` on whose obfuscated key for the class with
/// the key `class_key` no article of `store` has; none where the keys for
/// all numbers are taken.
pub open spec fn free_draw(store: ClassesView, class_key: Seq<char>, draw: u16) -> Option<u16> {
    free_draw_within(store, class_key, draw, 65536)
}

/// Whether the key of the article `id` of `store` is an obfuscated key for
/// the key of its class.
pub open spec fn has_obfuscated_key(store: ClassesView, id: ArticleId) -> bool {
    exists|number: u16|
        store.article(id).key == #[trigger] obfuscated_key(
            store.classes[id.class as int].key,
            number,
        )
}

/// Whether every article of `after` that is none of `before` has an
/// obfuscated key for the key of its class.
pub open spec fn added_obfuscated(before: ClassesView, after: ClassesView) -> bool {
    forall|id: ArticleId|
        #![trigger after.article_in(id)]
        #![trigger after.article(id)]
        after.article_in(id) && !before.article_in(id) ==> has_obfuscated_key(after, id)
}

/// The message for a class all of whose obfuscated keys are taken.
pub open spec fn no_free_key_message(class_key: Seq<char>) -> Seq<char> {
    "No obfuscated key of class "@ + class_key + " is free."@
}

/// A free number that is found among the first `n` is found among more.
pub proof fn lemma_free_draw_stays(
    store: ClassesView,
    class_key: Seq<char>,
    draw: u16,
    n: int,
    m: int,
)
    requires
        n <= m,
        free_draw_within(store, class_key, draw, n) is Some,
    ensures
        free_draw_within(store, class_key, draw, m) == free_draw_within(store, class_key, draw, n),
    decreases m - n,
{
    if n < m {
        lemma_free_draw_stays(store, class_key, draw, n, m - 1);
    }
}

/// What `free_draw` finds is a number whose key is not taken.
pub proof fn lemma_free_draw_within(store: ClassesView, class_key: Seq<char>, draw: u16, n: int)
    ensures
        free_draw_within(store, class_key, draw, n) matches Some(free) ==> !store.key_taken(
            obfuscated_key(class_key, free),
        ),
    decreases n,
{
    if n > 0 {
        lemma_free_draw_within(store, class_key, draw, n - 1);
    }
}

/// The obfuscated key for the class with the key `class_key` and the
/// first number from `draw` on for which no article of the store has the
/// key; none where the keys for all numbers are taken.
pub fn pick_obfuscated_key(classes: &Classes, class_key: &str, draw: u16) -> (key: Option<String>)
    ensures
        match free_draw(classes@, class_key@, draw) {
            Some(free) => key matches Some(picked) && picked@ == obfuscated_key(class_key@, free),
            None => key is None,
        },
        key matches Some(picked) ==> !classes@.key_taken(picked@),
{
    let mut k: u32 = 0;
    while k < 65536
        invariant
            k <= 65536,
            free_draw_within(classes@, class_key@, draw, k as int) is None,
        decreases 65536 - k,
    {
        let number: u16 = ((draw as u32 + k) % 65536) as u16;
        assert(number == candidate(draw, k as int));
        let key = obfuscate_key(class_key, number);
        if !classes.has_article_key(key.as_str()) {
            proof {
                lemma_free_draw_stays(classes@, class_key@, draw, k + 1, 65536);
            }
            return Some(key);
        }
        k = k + 1;
    }
    None
}

/// A number drawn at random.
///
/// Calls `rand::rng` and `Rng::random` of the crate `rand`. Nothing is
/// claimed of the number.
#[verifier::external_body]
fn random_draw() -> (draw: u16) {
    rand::rng().random::<u16>()
}

/// How far a pass over the declarations of the sources has come: the store
/// as the pass has left it, and the message of the error on which the pass
/// has stopped, if it has.
pub ghost struct Pass {
    pub store: ClassesView,
    pub error: Option<Seq<char>>,
}

/// The pass that starts with the store `store`.
pub open spec fn pass_from(store: ClassesView) -> Pass {
    Pass { store, error: None }
}

/// The pass that has left the store `store` and has ended as `r` says.
pub open spec fn pass_of(store: ClassesView, r: Result<(), String>) -> Pass {
    Pass {
        store,
        error: match r {
            Ok(_) => None,
            Err(e) => Some(e@),
        },
    }
}

/// The draw at `i`, where there are draws.
pub open spec fn draw_at<T>(draws: Option<Seq<T>>, i: int) -> Option<T> {
    match draws {
        Some(draws) => Some(draws[i]),
        None => None,
    }
}

/// The first pass over one declaration: the article is registered, and
/// where there is a draw, its key is replaced by the obfuscated key for the
/// first number from the draw on whose key no article has. A pass that has
/// stopped stays as it is, and it stops where the article cannot be
/// registered or no such key is free.
pub open spec fn register_step(
    pass: Pass,
    model: Seq<ArticleTypeView>,
    read: ReadArticleView,
    draw: Option<u16>,
) -> Pass {
    if pass.error is Some {
        pass
    } else {
        match register(pass.store, model, read) {
            Err(e) => Pass { store: pass.store, error: Some(e) },
            Ok((store, id)) => match draw {
                None => Pass { store, error: None },
                Some(draw) => match free_draw(store, read.class_key, draw) {
                    Some(free) => Pass {
                        store: store.set_article_key(id, obfuscated_key(read.class_key, free)),
                        error: None,
                    },
                    None => Pass { store, error: Some(no_free_key_message(read.class_key)) },
                },
            },
        }
    }
}

/// The first pass over the first `n` of the declarations `articles`, in
/// order, with the draw at the index of a declaration for its article.
pub open spec fn register_articles(
    start: Pass,
    model: Seq<ArticleTypeView>,
    articles: Seq<ReadArticleView>,
    draws: Option<Seq<u16>>,
    n: int,
) -> Pass
    decreases n,
{
    if n <= 0 {
        start
    } else {
        register_step(
            register_articles(start, model, articles, draws, n - 1),
            model,
            articles[n - 1],
            draw_at(draws, n - 1),
        )
    }
}

/// The first pass over the first `n` of the documents `documents`, in
/// order, with the draws at the index of a document for its declarations.
pub open spec fn register_documents(
    start: Pass,
    model: Seq<ArticleTypeView>,
    documents: Seq<ReadFsDocumentView>,
    draws: Option<Seq<Seq<u16>>>,
    n: int,
) -> Pass
    decreases n,
{
    if n <= 0 {
        start
    } else {
        register_articles(
            register_documents(start, model, documents, draws, n - 1),
            model,
            documents[n - 1].document.read_articles,
            draw_at(draws, n - 1),
            documents[n - 1].document.read_articles.len() as int,
        )
    }
}

/// The draws `draws` where a source is obfuscated, and none where not.
pub open spec fn draws_if<T>(obfuscate: bool, draws: Seq<T>) -> Option<Seq<T>> {
    if obfuscate {
        Some(draws)
    } else {
        None
    }
}

/// A pass over declarations depends on the draws for those declarations
/// only.
pub proof fn lemma_articles_agree(
    start: Pass,
    model: Seq<ArticleTypeView>,
    articles: Seq<ReadArticleView>,
    first: Seq<u16>,
    second: Seq<u16>,
    n: int,
)
    requires
        forall|k: int| 0 <= k < n ==> first[k] == second[k],
    ensures
        register_articles(start, model, articles, Some(first), n) == register_articles(
            start,
            model,
            articles,
            Some(second),
            n,
        ),
    decreases n,
{
    if n > 0 {
        lemma_articles_agree(start, model, articles, first, second, n - 1);
    }
}

/// A pass over documents depends on the draws for those documents only.
pub proof fn lemma_documents_agree(
    start: Pass,
    model: Seq<ArticleTypeView>,
    documents: Seq<ReadFsDocumentView>,
    first: Seq<Seq<u16>>,
    second: Seq<Seq<u16>>,
    n: int,
)
    requires
        forall|k: int| 0 <= k < n ==> first[k] == second[k],
    ensures
        register_documents(start, model, documents, Some(first), n) == register_documents(
            start,
            model,
            documents,
            Some(second),
            n,
        ),
    decreases n,
{
    if n > 0 {
        lemma_documents_agree(start, model, documents, first, second, n - 1);
    }
}

/// A pass that has stopped stays as it is over any declarations.
pub proof fn lemma_articles_stopped(
    start: Pass,
    model: Seq<ArticleTypeView>,
    articles: Seq<ReadArticleView>,
    draws: Option<Seq<u16>>,
    n: int,
)
    requires
        start.error is Some,
    ensures
        register_articles(start, model, articles, draws, n) == start,
    decreases n,
{
    if n > 0 {
        lemma_articles_stopped(start, model, articles, draws, n - 1);
    }
}

/// A pass over declarations that has stopped after `n` of them is the same
/// after more of them.
pub proof fn lemma_articles_stay(
    start: Pass,
    model: Seq<ArticleTypeView>,
    articles: Seq<ReadArticleView>,
    draws: Option<Seq<u16>>,
    n: int,
    m: int,
)
    requires
        n <= m,
        register_articles(start, model, articles, draws, n).error is Some,
    ensures
        register_articles(start, model, articles, draws, m) == register_articles(
            start,
            model,
            articles,
            draws,
            n,
        ),
    decreases m - n,
{
    if n < m {
        lemma_articles_stay(start, model, articles, draws, n, m - 1);
    }
}

/// A pass over documents that has stopped after `n` of them is the same
/// after more of them.
pub proof fn lemma_documents_stay(
    start: Pass,
    model: Seq<ArticleTypeView>,
    documents: Seq<ReadFsDocumentView>,
    draws: Option<Seq<Seq<u16>>>,
    n: int,
    m: int,
)
    requires
        n <= m,
        register_documents(start, model, documents, draws, n).error is Some,
    ensures
        register_documents(start, model, documents, draws, m) == register_documents(
            start,
            model,
            documents,
            draws,
            n,
        ),
    decreases m - n,
{
    if n < m {
        lemma_documents_stay(start, model, documents, draws, n, m - 1);
        let before = register_documents(start, model, documents, draws, m - 1);
        let articles = documents[m - 1].document.read_articles;
        lemma_articles_stopped(
            before,
            model,
            articles,
            draw_at(draws, m - 1),
            articles.len() as int,
        );
    }
}

/// Registers the articles that `articles` declare, in order, and stops at
/// the first that cannot be registered. Where `obfuscate` is set, the key
/// of each article is replaced by the obfuscated key for the first number,
/// from a number drawn at random on, whose key no article has.
fn register_articles_of(
    model: &Model,
    classes: &mut Classes,
    articles: &Vec<ReadArticle>,
    obfuscate: bool,
) -> (r: Result<(), String>)
    requires
        model_wf(model@),
        old(classes)@.wf(),
    ensures
        final(classes)@.wf(),
        old(classes)@.links_among(model_link_types(model@)) ==> final(classes)@.links_among(
            model_link_types(model@),
        ),
        old(classes)@.populated() ==> final(classes)@.populated(),
        old(classes)@.typed_in(model@.len()) ==> final(classes)@.typed_in(model@.len()),
        old(classes)@.articles_kept(final(classes)@),
        old(classes)@.classes_kept(final(classes)@),
        obfuscate && r is Ok && old(classes)@.keys_distinct() ==> final(classes)@.keys_distinct(),
        obfuscate && r is Ok ==> added_obfuscated(old(classes)@, final(classes)@),
        exists|draws: Seq<u16>|
            pass_of(final(classes)@, r) == #[trigger] register_articles(
                pass_from(old(classes)@),
                model@,
                views(articles@),
                draws_if(obfuscate, draws),
                articles.len() as int,
            ),
{
    let ghost start = pass_from(classes@);
    let ghost read = views(articles@);
    let ghost mut draws: Seq<u16> = Seq::empty();
    let mut j: usize = 0;
    while j < articles.len()
        invariant
            j <= articles.len(),
            model_wf(model@),
            classes@.wf(),
            old(classes)@.links_among(model_link_types(model@)) ==> classes@.links_among(
                model_link_types(model@),
            ),
            old(classes)@.populated() ==> classes@.populated(),
            old(classes)@.typed_in(model@.len()) ==> classes@.typed_in(model@.len()),
            old(classes)@.articles_kept(classes@),
            old(classes)@.classes_kept(classes@),
            obfuscate && old(classes)@.keys_distinct() ==> classes@.keys_distinct(),
            obfuscate ==> added_obfuscated(old(classes)@, classes@),
            start == pass_from(old(classes)@),
            read == views(articles@),
            draws.len() == j,
            pass_from(classes@) == register_articles(
                start,
                model@,
                read,
                draws_if(obfuscate, draws),
                j as int,
            ),
        decreases articles.len() - j,
    {
        let read_article = &articles[j];
        assert(read[j as int] == read_article@);
        let ghost before = classes@;
        match register_article(model, classes, read_article) {
            Err(e) => {
                proof {
                    let row = draws_if(obfuscate, draws);
                    assert(register_articles(start, model@, read, row, j + 1) == (Pass {
                        store: before,
                        error: Some(e@),
                    }));
                    lemma_articles_stay(start, model@, read, row, j + 1, read.len() as int);
                }
                return Err(e);
            },
            Ok(id) => {
                if obfuscate {
                    let draw = random_draw();
                    let ghost registered = classes@;
                    proof {
                        assert(registered == register(before, model@, read_article@)->Ok_0.0);
                        lemma_articles_agree(start, model@, read, draws, draws.push(draw), j as int);
                        draws = draws.push(draw);
                    }
                    let key = match pick_obfuscated_key(
                        classes,
                        read_article.class_key.as_str(),
                        draw,
                    ) {
                        Some(key) => key,
                        None => {
                            proof {
                                lemma_kept_classes_twice(old(classes)@, before, classes@);
                                lemma_kept_twice(old(classes)@, before, classes@);
                                lemma_articles_stay(
                                    start,
                                    model@,
                                    read,
                                    Some(draws),
                                    j + 1,
                                    read.len() as int,
                                );
                            }
                            return Err(
                                join3(
                                    "No obfuscated key of class ",
                                    read_article.class_key.as_str(),
                                    " is free.",
                                ),
                            );
                        },
                    };
                    proof {
                        if classes@.links_among(model_link_types(model@)) {
                            lemma_set_article_key_among(
                                classes@,
                                id,
                                key@,
                                model_link_types(model@),
                            );
                        }
                    }
                    classes.set_article_key(id, key);
                    assert(old(classes)@.populated() ==> classes@.populated()) by {
                        if old(classes)@.populated() {
                            assert forall|i: int| 0 <= i < classes@.classes.len() implies (
                            #[trigger] classes@.classes[i]).articles.len() > 0 by {
                                assert(registered.classes[i].articles.len() > 0);
                            }
                        }
                    }
                    assert(old(classes)@.typed_in(model@.len()) ==> classes@.typed_in(
                        model@.len(),
                    )) by {
                        if old(classes)@.typed_in(model@.len()) {
                            assert forall|i: int| 0 <= i < classes@.classes.len() implies (
                            #[trigger] classes@.classes[i]).article_type < model@.len() by {
                                assert(registered.classes[i].article_type < model@.len());
                            }
                        }
                    }
                    proof {
                        lemma_rekeyed_kept(before, registered, classes@, id, key@);
                        lemma_kept_twice(old(classes)@, before, classes@);
                        if old(classes)@.keys_distinct() {
                            lemma_rekeyed_distinct(before, registered, classes@, id, key@);
                        }
                        lemma_kept_classes_twice(old(classes)@, before, registered);
                        lemma_kept_classes_twice(old(classes)@, registered, classes@);
                        lemma_rekeyed_obfuscated(
                            old(classes)@,
                            before,
                            registered,
                            classes@,
                            id,
                            read_article@.class_key,
                            free_draw(registered, read_article@.class_key, draw)->Some_0,
                        );
                    }
                } else {
                    proof {
                        draws = draws.push(0u16);
                        lemma_kept_classes_twice(old(classes)@, before, classes@);
                        lemma_kept_twice(old(classes)@, before, classes@);
                    }
                }
            },
        }
        j = j + 1;
    }
    Ok(())
}

/// The first pass over the documents of one source: registers the articles
/// that the documents declare, and makes their classes.
///
/// The pass goes through the documents and, in each, through the
/// declarations in order, and stops at the first article that cannot be
/// registered. Where `obfuscate` is set, the key of each article is replaced
/// by an obfuscated key: a number is drawn at random, and the key is that
/// for the first number from it on whose key no article has. The article
/// stays in its class and stays registered under the key that it was
/// declared with. The articles that were there stay as they were, and
/// where no two of them had one key, no two articles have one key after a
/// pass that obfuscates.
pub fn process_documents_1(
    model: &Model,
    classes: &mut Classes,
    read_documents: &[ReadFsDocument],
    resolution: &[String],
    obfuscate: bool,
) -> (r: Result<(), String>)
    requires
        model_wf(model@),
        old(classes)@.wf(),
    ensures
        final(classes)@.wf(),
        old(classes)@.links_among(model_link_types(model@)) ==> final(classes)@.links_among(
            model_link_types(model@),
        ),
        old(classes)@.populated() ==> final(classes)@.populated(),
        old(classes)@.typed_in(model@.len()) ==> final(classes)@.typed_in(model@.len()),
        old(classes)@.articles_kept(final(classes)@),
        old(classes)@.classes_kept(final(classes)@),
        obfuscate && r is Ok && old(classes)@.keys_distinct() ==> final(classes)@.keys_distinct(),
        obfuscate && r is Ok ==> added_obfuscated(old(classes)@, final(classes)@),
        exists|draws: Seq<Seq<u16>>|
            pass_of(final(classes)@, r) == #[trigger] register_documents(
                pass_from(old(classes)@),
                model@,
                views(read_documents@),
                draws_if(obfuscate, draws),
                read_documents.len() as int,
            ),
        !obfuscate ==> pass_of(final(classes)@, r) == register_documents(
            pass_from(old(classes)@),
            model@,
            views(read_documents@),
            None,
            read_documents.len() as int,
        ),
        extends(old(classes)@, final(classes)@),
        r is Ok ==> classes_registered(final(classes)@, views(read_documents@)),
{
    let ghost start = pass_from(classes@);
    let ghost read = views(read_documents@);
    let ghost mut draws: Seq<Seq<u16>> = Seq::empty();
    let mut i: usize = 0;
    while i < read_documents.len()
        invariant
            i <= read_documents.len(),
            model_wf(model@),
            classes@.wf(),
            old(classes)@.links_among(model_link_types(model@)) ==> classes@.links_among(
                model_link_types(model@),
            ),
            old(classes)@.populated() ==> classes@.populated(),
            old(classes)@.typed_in(model@.len()) ==> classes@.typed_in(model@.len()),
            old(classes)@.articles_kept(classes@),
            old(classes)@.classes_kept(classes@),
            obfuscate && old(classes)@.keys_distinct() ==> classes@.keys_distinct(),
            obfuscate ==> added_obfuscated(old(classes)@, classes@),
            start == pass_from(old(classes)@),
            read == views(read_documents@),
            draws.len() == i,
            pass_from(classes@) == register_documents(
                start,
                model@,
                read,
                draws_if(obfuscate, draws),
                i as int,
            ),
        decreases read_documents.len() - i,
    {
        let read_document = &read_documents[i];
        assert(read[i as int] == read_document@);
        let ghost before = classes@;
        let r = register_articles_of(model, classes, &read_document.document.read_articles, obfuscate);
        proof {
            lemma_kept_twice(old(classes)@, before, classes@);
            lemma_kept_classes_twice(old(classes)@, before, classes@);
            if obfuscate && r is Ok {
                lemma_added_obfuscated_twice(old(classes)@, before, classes@);
            }
            let articles = read[i as int].document.read_articles;
            let row = choose|row: Seq<u16>|
                pass_of(classes@, r) == #[trigger] register_articles(
                    pass_from(before),
                    model@,
                    articles,
                    draws_if(obfuscate, row),
                    articles.len() as int,
                );
            lemma_documents_agree(start, model@, read, draws, draws.push(row), i as int);
            draws = draws.push(row);
            assert(register_documents(start, model@, read, draws_if(obfuscate, draws), i + 1)
                == pass_of(classes@, r));
        }
        match r {
            Err(e) => {
                proof {
                    lemma_documents_stay(
                        start,
                        model@,
                        read,
                        draws_if(obfuscate, draws),
                        i + 1,
                        read.len() as int,
                    );
                    lemma_register_documents_extends(
                        start,
                        model@,
                        read,
                        draws_if(obfuscate, draws),
                        read.len() as int,
                    );
                }
                return Err(e);
            },
            Ok(_) => {},
        }
        i = i + 1;
    }
    proof {
        lemma_register_documents_extends(
            start,
            model@,
            read,
            draws_if(obfuscate, draws),
            read.len() as int,
        );
    }
    Ok(())
}

/// Whether a class is registered in `store` under the class key of every
/// declaration of `documents`.
pub open spec fn classes_registered(store: ClassesView, documents: Seq<ReadFsDocumentView>) -> bool {
    forall|i: int, j: int|
        0 <= i < documents.len() && 0 <= j < documents[i].document.read_articles.len()
            ==> store.class_map.contains_key(
            (#[trigger] documents[i].document.read_articles[j]).class_key,
        )
}

/// Whether everything that is registered in `before` is registered in
/// `after`, under the same keys: the keys of a store are added to and never
/// taken away or given to another class or article.
pub open spec fn extends(before: ClassesView, after: ClassesView) -> bool {
    &&& forall|key: Seq<char>| #[trigger]
        before.class_map.contains_key(key) ==> after.class_map.contains_key(key)
            && after.class_map[key] == before.class_map[key]
    &&& forall|key: Seq<char>| #[trigger]
        before.article_map.contains_key(key) ==> after.article_map.contains_key(key)
            && after.article_map[key] == before.article_map[key]
}

/// A declaration that is registered leaves what was registered before, and
/// is registered itself: its class key stands for a class, and its article
/// key for an article.
pub proof fn lemma_register_step_extends(
    pass: Pass,
    model: Seq<ArticleTypeView>,
    read: ReadArticleView,
    draw: Option<u16>,
)
    ensures
        extends(pass.store, register_step(pass, model, read, draw).store),
        pass.error is Some ==> register_step(pass, model, read, draw).error is Some,
        register_step(pass, model, read, draw).error is None ==> {
            &&& register_step(pass, model, read, draw).store.class_map.contains_key(
                read.class_key,
            )
            &&& register_step(pass, model, read, draw).store.article_map.contains_key(
                read.article_key,
            )
        },
{
}

/// A first pass over declarations leaves what was registered before, and
/// where it does not stop, all the declarations are registered.
pub proof fn lemma_register_articles_extends(
    start: Pass,
    model: Seq<ArticleTypeView>,
    articles: Seq<ReadArticleView>,
    draws: Option<Seq<u16>>,
    n: int,
)
    ensures
        extends(start.store, register_articles(start, model, articles, draws, n).store),
        start.error is Some ==> register_articles(start, model, articles, draws, n).error is Some,
        register_articles(start, model, articles, draws, n).error is None ==> forall|j: int|
            0 <= j < n ==> register_articles(
                start,
                model,
                articles,
                draws,
                n,
            ).store.class_map.contains_key((#[trigger] articles[j]).class_key),
    decreases n,
{
    if n > 0 {
        let before = register_articles(start, model, articles, draws, n - 1);
        lemma_register_articles_extends(start, model, articles, draws, n - 1);
        lemma_register_step_extends(before, model, articles[n - 1], draw_at(draws, n - 1));
    }
}

/// A first pass over documents leaves what was registered before, and
/// where it does not stop, all the declarations of the documents are
/// registered.
pub proof fn lemma_register_documents_extends(
    start: Pass,
    model: Seq<ArticleTypeView>,
    documents: Seq<ReadFsDocumentView>,
    draws: Option<Seq<Seq<u16>>>,
    n: int,
)
    ensures
        extends(start.store, register_documents(start, model, documents, draws, n).store),
        start.error is Some ==> register_documents(start, model, documents, draws, n).error
            is Some,
        register_documents(start, model, documents, draws, n).error is None && n
            >= documents.len() ==> classes_registered(
            register_documents(start, model, documents, draws, n).store,
            documents,
        ),
        register_documents(start, model, documents, draws, n).error is None ==> forall|
            i: int,
            j: int,
        |
            0 <= i < n && i < documents.len() && 0 <= j
                < documents[i].document.read_articles.len() ==> register_documents(
                start,
                model,
                documents,
                draws,
                n,
            ).store.class_map.contains_key(
                (#[trigger] documents[i].document.read_articles[j]).class_key,
            ),
    decreases n,
{
    if n > 0 {
        let before = register_documents(start, model, documents, draws, n - 1);
        let articles = documents[n - 1].document.read_articles;
        lemma_register_documents_extends(start, model, documents, draws, n - 1);
        lemma_register_articles_extends(
            before,
            model,
            articles,
            draw_at(draws, n - 1),
            articles.len() as int,
        );
    }
}

/// Declarations that are registered in a store are registered in every
/// store that extends it.
pub proof fn lemma_registered_extends(
    before: ClassesView,
    after: ClassesView,
    documents: Seq<ReadFsDocumentView>,
)
    requires
        classes_registered(before, documents),
        extends(before, after),
    ensures
        classes_registered(after, documents),
{
    assert forall|i: int, j: int|
        0 <= i < documents.len() && 0 <= j
            < documents[i].document.read_articles.len() implies after.class_map.contains_key(
        (#[trigger] documents[i].document.read_articles[j]).class_key,
    ) by {
        assert(before.class_map.contains_key(documents[i].document.read_articles[j].class_key));
    }
}

/// Whether a declaration of `documents` has the class key `key`.
pub open spec fn declares_class(documents: Seq<ReadFsDocumentView>, key: Seq<char>) -> bool {
    exists|i: int, j: int|
        0 <= i < documents.len() && 0 <= j < documents[i].document.read_articles.len() && (
        #[trigger] documents[i].document.read_articles[j]).class_key == key
}

/// Two obfuscated keys for a class are the same key if and only if they
/// are made for the same number: keys for different draws differ.
pub proof fn law_obfuscated_keys_differ(class_key: Seq<char>, first: u16, second: u16)
    ensures
        obfuscated_key(class_key, first) == obfuscated_key(class_key, second) <==> first
            == second,
{
    let head = class_key + "#"@;
    let tail = "@?"@;
    let a = hexadecimal(first as nat);
    let b = hexadecimal(second as nat);
    if obfuscated_key(class_key, first) == obfuscated_key(class_key, second) {
        assert((head + a + tail).skip(head.len() as int) =~= a + tail);
        assert((head + b + tail).skip(head.len() as int) =~= b + tail);
        assert((a + tail).len() == (b + tail).len());
        assert((a + tail).take(a.len() as int) =~= a);
        assert((b + tail).take(b.len() as int) =~= b);
        digits_injective(first as nat, second as nat, 16);
    }
}

/// Where no number is free among the first `n` from a draw on, the keys
/// for all of them are taken.
pub proof fn lemma_none_free(store: ClassesView, class_key: Seq<char>, draw: u16, n: int)
    requires
        free_draw_within(store, class_key, draw, n) is None,
    ensures
        forall|k: int|
            0 <= k < n ==> store.key_taken(obfuscated_key(class_key, #[trigger] candidate(draw, k))),
    decreases n,
{
    if n > 0 {
        lemma_none_free(store, class_key, draw, n - 1);
    }
}

/// A free number is found whatever is drawn, where there is one: a pass
/// that obfuscates stops for want of a key only where the obfuscated keys
/// of the class for all numbers are taken.
pub proof fn law_free_draw_found(store: ClassesView, class_key: Seq<char>, draw: u16, number: u16)
    requires
        !store.key_taken(obfuscated_key(class_key, number)),
    ensures
        free_draw(store, class_key, draw) is Some,
{
    if free_draw(store, class_key, draw) is None {
        lemma_none_free(store, class_key, draw, 65536);
        let k = (number - draw + 65536) % 65536;
        assert(candidate(draw, k) == number);
    }
}

/// Where no article has the obfuscated key for the number that is drawn,
/// that number is the one that is used: the keys of two articles of a class
/// for which different numbers are drawn then differ.
pub proof fn law_free_draw_is_used(store: ClassesView, class_key: Seq<char>, draw: u16)
    requires
        !store.key_taken(obfuscated_key(class_key, draw)),
    ensures
        free_draw(store, class_key, draw) == Some(draw),
{
    assert(candidate(draw, 0) == draw);
    assert(free_draw_within(store, class_key, draw, 0) is None);
    assert(free_draw_within(store, class_key, draw, 1) == Some(draw));
    lemma_free_draw_stays(store, class_key, draw, 1, 65536);
}

/// What the obfuscation of an article changes is its key and nothing else,
/// whatever number is drawn.
///
/// Where a declaration is registered with a draw, the article has the
/// obfuscated key for the first free number from the draw on, which no
/// article had, and the names and the content of the declaration, and it
/// is a variant of the class of the class key of the declaration. With
/// another draw, the store is the same but for the key of the article.
pub proof fn law_obfuscation_keeps(
    store: ClassesView,
    model: Seq<ArticleTypeView>,
    read: ReadArticleView,
    first: u16,
    second: u16,
)
    requires
        store.wf(),
        store.classes.len() < usize::MAX,
        forall|i: int|
            0 <= i < store.classes.len() ==> (#[trigger] store.classes[i]).articles.len()
                < usize::MAX,
        register(store, model, read) is Ok,
        free_draw(register(store, model, read)->Ok_0.0, read.class_key, first) is Some,
        free_draw(register(store, model, read)->Ok_0.0, read.class_key, second) is Some,
    ensures
        ({
            let registered = register(store, model, read)->Ok_0.0;
            let id = register(store, model, read)->Ok_0.1;
            let one = register_step(pass_from(store), model, read, Some(first)).store;
            let other = register_step(pass_from(store), model, read, Some(second)).store;
            let one_key = obfuscated_key(
                read.class_key,
                free_draw(registered, read.class_key, first)->Some_0,
            );
            let other_key = obfuscated_key(
                read.class_key,
                free_draw(registered, read.class_key, second)->Some_0,
            );
            &&& one.article_in(id)
            &&& one.article(id) == (ArticleView {
                class: id.class,
                key: one_key,
                names: read.names,
                content: read.content,
            })
            &&& !registered.key_taken(one_key)
            &&& one.classes[id.class as int].key == read.class_key
            &&& one.get_class(read.class_key) == Some(id.class)
            &&& other == one.set_article_key(id, other_key)
        }),
{
    let registered = register(store, model, read)->Ok_0.0;
    let id = register(store, model, read)->Ok_0.1;
    let one = register_step(pass_from(store), model, read, Some(first)).store;
    let other = register_step(pass_from(store), model, read, Some(second)).store;
    let key = obfuscated_key(
        read.class_key,
        free_draw(registered, read.class_key, second)->Some_0,
    );
    lemma_free_draw_within(registered, read.class_key, first, 65536);
    match store.get_class(read.class_key) {
        Some(class) => {
            assert(store.class_in(class));
        },
        None => {},
    }
    assert(other.classes[id.class as int].articles =~= one.set_article_key(
        id,
        key,
    ).classes[id.class as int].articles);
    assert(other.classes =~= one.set_article_key(id, key).classes);
}

/// What is kept from one store to a second and from the second to a third
/// is kept from the first to the third.
pub proof fn lemma_kept_twice(first: ClassesView, second: ClassesView, third: ClassesView)
    requires
        first.articles_kept(second),
        second.articles_kept(third),
    ensures
        first.articles_kept(third),
{
    assert forall|id: ArticleId| first.article_in(id) implies third.article_in(id)
        && third.article(id) == first.article(id) by {
        assert(second.article_in(id));
        assert(third.article_in(id));
    }
}

/// The classes that are kept from one store to a second and from the
/// second to a third are kept from the first to the third.
pub proof fn lemma_kept_classes_twice(first: ClassesView, second: ClassesView, third: ClassesView)
    requires
        first.classes_kept(second),
        second.classes_kept(third),
    ensures
        first.classes_kept(third),
{
    assert forall|i: int| 0 <= i < first.classes.len() implies (#[trigger] third.classes[i]).key
        == first.classes[i].key && third.classes[i].article_type
        == first.classes[i].article_type by {
        assert(second.classes[i].key == first.classes[i].key);
    }
}

/// An article with an obfuscated key has one in a store that keeps the
/// article and its class.
pub proof fn lemma_obfuscated_kept(before: ClassesView, after: ClassesView, id: ArticleId)
    requires
        before.article_in(id),
        has_obfuscated_key(before, id),
        before.articles_kept(after),
        before.classes_kept(after),
    ensures
        has_obfuscated_key(after, id),
{
    let number = choose|number: u16|
        before.article(id).key == #[trigger] obfuscated_key(
            before.classes[id.class as int].key,
            number,
        );
    assert(after.article(id) == before.article(id));
    assert(after.classes[id.class as int].key == before.classes[id.class as int].key);
    assert(after.article(id).key == obfuscated_key(after.classes[id.class as int].key, number));
}

/// Where the articles added from a first store to a second, and from the
/// second to a third, have obfuscated keys, the articles added from the
/// first to the third have.
pub proof fn lemma_added_obfuscated_twice(
    first: ClassesView,
    second: ClassesView,
    third: ClassesView,
)
    requires
        added_obfuscated(first, second),
        added_obfuscated(second, third),
        second.articles_kept(third),
        second.classes_kept(third),
    ensures
        added_obfuscated(first, third),
{
    assert forall|id: ArticleId|
        third.article_in(id) && !first.article_in(id) implies has_obfuscated_key(third, id) by {
        if second.article_in(id) {
            lemma_obfuscated_kept(second, third, id);
        }
    }
}

/// Where the articles added to a store have obfuscated keys, and an
/// article is registered and then given an obfuscated key for the key of
/// its class, the articles added to the store have obfuscated keys.
pub proof fn lemma_rekeyed_obfuscated(
    start: ClassesView,
    before: ClassesView,
    registered: ClassesView,
    after: ClassesView,
    id: ArticleId,
    class_key: Seq<char>,
    number: u16,
)
    requires
        added_obfuscated(start, before),
        before.article_added(registered, id),
        before.classes_kept(registered),
        registered.classes_kept(after),
        registered.classes[id.class as int].key == class_key,
        id.class < registered.classes.len(),
        rekeyed(registered, after, id, obfuscated_key(class_key, number)),
    ensures
        added_obfuscated(start, after),
{
    assert forall|other: ArticleId|
        after.article_in(other) && !start.article_in(other) implies has_obfuscated_key(
        after,
        other,
    ) by {
        assert(registered.article_in(other));
        if other == id {
            assert(after.classes[id.class as int].key == class_key);
            assert(after.article(id).key == obfuscated_key(
                after.classes[id.class as int].key,
                number,
            ));
        } else {
            assert(before.article_in(other));
            assert(registered.article(other) == before.article(other));
            assert(after.article(other) == before.article(other));
            assert(has_obfuscated_key(before, other));
            let n = choose|n: u16|
                before.article(other).key == #[trigger] obfuscated_key(
                    before.classes[other.class as int].key,
                    n,
                );
            assert(registered.classes[other.class as int].key
                == before.classes[other.class as int].key);
            assert(after.classes[other.class as int].key
                == registered.classes[other.class as int].key);
            assert(after.article(other).key == obfuscated_key(
                after.classes[other.class as int].key,
                n,
            ));
        }
    }
}

/// Whether `after` is `registered` with the key `key` for the article
/// `id`, and with nothing else changed of the articles.
pub open spec fn rekeyed(registered: ClassesView, after: ClassesView, id: ArticleId, key: Seq<char>) -> bool {
    &&& forall|other: ArticleId|
        #![trigger after.article_in(other)]
        #![trigger registered.article_in(other)]
        after.article_in(other) <==> registered.article_in(other)
    &&& forall|other: ArticleId|
        registered.article_in(other) ==> #[trigger] after.article(other) == if other == id {
            ArticleView { key, ..registered.article(other) }
        } else {
            registered.article(other)
        }
}

/// An article that is registered and then given another key leaves the
/// articles that were there as they were.
pub proof fn lemma_rekeyed_kept(
    before: ClassesView,
    registered: ClassesView,
    after: ClassesView,
    id: ArticleId,
    key: Seq<char>,
)
    requires
        before.article_added(registered, id),
        rekeyed(registered, after, id, key),
    ensures
        before.articles_kept(after),
{
    assert forall|other: ArticleId| before.article_in(other) implies after.article_in(other)
        && after.article(other) == before.article(other) by {
        assert(registered.article(other) == before.article(other));
        assert(registered.article_in(other));
        assert(other != id);
    }
}

/// Where no two articles have one key, and an article is registered and
/// then given a key that no article has, no two articles have one key.
pub proof fn lemma_rekeyed_distinct(
    before: ClassesView,
    registered: ClassesView,
    after: ClassesView,
    id: ArticleId,
    key: Seq<char>,
)
    requires
        before.keys_distinct(),
        before.article_added(registered, id),
        !registered.key_taken(key),
        rekeyed(registered, after, id, key),
    ensures
        after.keys_distinct(),
{
    assert forall|a: ArticleId, b: ArticleId|
        after.article_in(a) && after.article_in(b) && a != b implies (#[trigger] after.article(
        a,
    )).key != (#[trigger] after.article(b)).key by {
        assert(registered.article_in(a));
        assert(registered.article_in(b));
        if a == id {
            assert(registered.article(b).key != key);
        } else if b == id {
            assert(registered.article(a).key != key);
        } else {
            assert(before.article_in(a));
            assert(before.article_in(b));
            assert(registered.article(a) == before.article(a));
            assert(registered.article(b) == before.article(b));
        }
    }
}

} // verus!
