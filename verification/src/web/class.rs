//! The data of a class as JSON: its article type, its articles and its
//! links.

use vstd::prelude::*;
use crate::class::Article;
use crate::class::ArticleView;
use crate::class::Class;
use crate::class::Classes;
use crate::class::ClassesView;
use crate::class::LinkBucketView;
use crate::model::model_link_types;
use crate::model::ArticleTypeView;
use crate::model::Model;
use crate::text::join3;
use crate::views::views;
use crate::web::document::content_html;
use crate::web::document::generate_article_content;
use crate::web::document::renderable;
use crate::web::json::json_array;
use crate::web::json::json_map_insert;
use crate::web::json::json_map_new;
use crate::web::json::json_object;
use crate::web::json::json_object_value;
use crate::web::json::json_string;
use crate::web::json::json_text;
use crate::web::json::json_text_array;
use crate::web::json::json_to_string;
use crate::web::json::json_value;
use crate::web::json::json_values;
use crate::web::json::text_array;
use crate::web::json::JsonMap;
use crate::web::json::JsonView;

verus! {

/// The JSON of the article `article`: its names, and the markup of its
/// content.
pub open spec fn article_json(article: ArticleView) -> JsonView {
    JsonView::Object(
        Map::<Seq<char>, JsonView>::empty().insert("names"@, text_array(article.names)).insert(
            "content"@,
            JsonView::String(content_html(article.content, article.content.len() as int)),
        ),
    )
}

/// The JSON of the article `article`.
pub fn generate_article_json(article: &Article) -> (object: JsonMap)
    ensures
        JsonView::Object(json_object(object)) == article_json(article@),
{
    let mut object = json_map_new();
    json_map_insert(&mut object, String::from_str("names"), json_text_array(article.get_names()));
    let mut content = String::new();
    generate_article_content(&mut content, article.get_content());
    assert(content@ =~= content_html(article@.content, article@.content.len() as int));
    json_map_insert(&mut object, String::from_str("content"), json_string(content));
    object
}

/// The JSON of the first `n` of the articles `articles`, each under its
/// key; of articles with one key, the last is kept.
pub open spec fn articles_json(articles: Seq<ArticleView>, n: int) -> Map<Seq<char>, JsonView>
    decreases n,
{
    if n <= 0 {
        Map::empty()
    } else {
        articles_json(articles, n - 1).insert(articles[n - 1].key, article_json(articles[n - 1]))
    }
}

/// The keys of the classes `linked`, in order.
pub open spec fn class_keys(store: ClassesView, linked: Seq<usize>) -> Seq<Seq<char>> {
    Seq::new(linked.len(), |i: int| store.classes[linked[i] as int].key)
}

/// The links of the first `n` of the buckets `buckets` of links out of a
/// class, added to `start`: the keys of the linked classes under the key of
/// the link type.
pub open spec fn out_links_json(
    model: Seq<ArticleTypeView>,
    store: ClassesView,
    buckets: Seq<LinkBucketView>,
    start: Map<Seq<char>, JsonView>,
    n: int,
) -> Map<Seq<char>, JsonView>
    decreases n,
{
    if n <= 0 {
        start
    } else {
        let bucket = buckets[n - 1];
        let link = model[bucket.link_type.article_type as int].links[bucket.link_type.link as int];
        out_links_json(model, store, buckets, start, n - 1).insert(
            link.key,
            text_array(class_keys(store, bucket.classes)),
        )
    }
}

/// The links of the first `n` of the buckets `buckets` of links into a
/// class, added to `start`: for each link type that is shown at its
/// target, the keys of the linked classes under the key of the article
/// type of the origin, a colon and the key of the link type.
pub open spec fn in_links_json(
    model: Seq<ArticleTypeView>,
    store: ClassesView,
    buckets: Seq<LinkBucketView>,
    start: Map<Seq<char>, JsonView>,
    n: int,
) -> Map<Seq<char>, JsonView>
    decreases n,
{
    if n <= 0 {
        start
    } else {
        let bucket = buckets[n - 1];
        let origin = model[bucket.link_type.article_type as int];
        let link = origin.links[bucket.link_type.link as int];
        let before = in_links_json(model, store, buckets, start, n - 1);
        if link.target_show {
            before.insert(
                origin.key + ":"@ + link.key,
                text_array(class_keys(store, bucket.classes)),
            )
        } else {
            before
        }
    }
}

/// The JSON of the class `class`: the key of its article type, its
/// articles, and its links.
pub open spec fn class_json(model: Seq<ArticleTypeView>, store: ClassesView, class: usize) -> JsonView {
    let held = store.classes[class as int];
    JsonView::Object(
        Map::<Seq<char>, JsonView>::empty().insert(
            "type"@,
            JsonView::String(model[held.article_type as int].key),
        ).insert(
            "articles"@,
            JsonView::Object(articles_json(held.articles, held.articles.len() as int)),
        ).insert(
            "links"@,
            JsonView::Object(
                in_links_json(
                    model,
                    store,
                    held.links_in,
                    out_links_json(
                        model,
                        store,
                        held.links_out,
                        Map::empty(),
                        held.links_out.len() as int,
                    ),
                    held.links_in.len() as int,
                ),
            ),
        ),
    )
}

/// The array of the keys of the classes `linked`.
fn generate_class_keys(classes: &Classes, linked: &Vec<usize>) -> (value: serde_json::Value)
    requires
        forall|i: int| 0 <= i < linked.len() ==> classes@.class_in(#[trigger] linked[i]),
    ensures
        json_value(value) == text_array(class_keys(classes@, linked@)),
{
    let mut keys: Vec<serde_json::Value> = Vec::new();
    let mut i: usize = 0;
    while i < linked.len()
        invariant
            i <= linked.len(),
            forall|k: int| 0 <= k < linked.len() ==> classes@.class_in(#[trigger] linked[k]),
            keys.len() == i,
            forall|k: int|
                0 <= k < i ==> json_value(#[trigger] keys[k]) == JsonView::String(
                    classes@.classes[linked[k] as int].key,
                ),
        decreases linked.len() - i,
    {
        assert(classes@.class_in(linked[i as int]));
        keys.push(json_string(classes.class(linked[i]).get_key().clone()));
        i = i + 1;
    }
    assert(json_values(keys@) =~= Seq::new(
        linked.len() as nat,
        |i: int| JsonView::String(class_keys(classes@, linked@)[i]),
    ));
    json_array(keys)
}

/// Makes the data of the class `class` as a text of JSON.
pub fn generate_class_data(model: &Model, classes: &Classes, class: usize) -> (r: Result<
    String,
    String,
>)
    requires
        renderable(model@, classes@),
        classes@.class_in(class),
    ensures
        r matches Ok(data) && data@ == json_text(class_json(model@, classes@, class)),
{
    let held = classes.class(class);
    let ghost view = classes@.classes[class as int];
    proof {
        assert(classes@.class_wf(class as int));
        assert(classes@.class_links_among(class as int, model_link_types(model@)));
    }
    let mut class_json = json_map_new();
    let type_key = model.article_type(held.get_article_type()).key.clone();
    json_map_insert(&mut class_json, String::from_str("type"), json_string(type_key));
    let mut articles_json = json_map_new();
    let articles = held.get_articles();
    let mut v: usize = 0;
    while v < articles.len()
        invariant
            v <= articles.len(),
            views(articles@) == view.articles,
            json_object(articles_json) == self::articles_json(view.articles, v as int),
        decreases articles.len() - v,
    {
        assert(view.articles[v as int] == articles[v as int]@);
        let article_json = generate_article_json(&articles[v]);
        json_map_insert(
            &mut articles_json,
            articles[v].get_key().clone(),
            json_object_value(article_json),
        );
        v = v + 1;
    }
    json_map_insert(
        &mut class_json,
        String::from_str("articles"),
        json_object_value(articles_json),
    );
    let mut links_json = json_map_new();
    let outgoing = held.get_links_out();
    let mut j: usize = 0;
    while j < outgoing.len()
        invariant
            j <= outgoing.len(),
            renderable(model@, classes@),
            classes@.class_in(class),
            view == classes@.classes[class as int],
            classes@.class_wf(class as int),
            classes@.class_links_among(class as int, model_link_types(model@)),
            views(outgoing@) == view.links_out,
            json_object(links_json) == out_links_json(
                model@,
                classes@,
                view.links_out,
                Map::empty(),
                j as int,
            ),
        decreases outgoing.len() - j,
    {
        let bucket = &outgoing[j];
        assert(view.links_out[j as int] == bucket@);
        assert(model_link_types(model@).contains(view.links_out[j as int].link_type));
        let link = model.link_type(bucket.get_link_type());
        let linked = bucket.get_classes();
        assert forall|i: int| 0 <= i < linked.len() implies classes@.class_in(
            #[trigger] linked[i],
        ) by {
            assert(view.links_out[j as int].classes[i] < classes@.classes.len());
        }
        json_map_insert(&mut links_json, link.key.clone(), generate_class_keys(classes, linked));
        j = j + 1;
    }
    let ghost forth = json_object(links_json);
    let incoming = held.get_links_in();
    let mut j: usize = 0;
    while j < incoming.len()
        invariant
            j <= incoming.len(),
            renderable(model@, classes@),
            classes@.class_in(class),
            view == classes@.classes[class as int],
            classes@.class_wf(class as int),
            classes@.class_links_among(class as int, model_link_types(model@)),
            views(incoming@) == view.links_in,
            json_object(links_json) == in_links_json(
                model@,
                classes@,
                view.links_in,
                forth,
                j as int,
            ),
        decreases incoming.len() - j,
    {
        let bucket = &incoming[j];
        assert(view.links_in[j as int] == bucket@);
        assert(model_link_types(model@).contains(view.links_in[j as int].link_type));
        let id = bucket.get_link_type();
        let link = model.link_type(id);
        if link.target_show {
            let linked = bucket.get_classes();
            assert forall|i: int| 0 <= i < linked.len() implies classes@.class_in(
                #[trigger] linked[i],
            ) by {
                assert(view.links_in[j as int].classes[i] < classes@.classes.len());
            }
            let key = join3(model.article_type(id.article_type).key.as_str(), ":", link.key.as_str());
            json_map_insert(&mut links_json, key, generate_class_keys(classes, linked));
        }
        j = j + 1;
    }
    json_map_insert(&mut class_json, String::from_str("links"), json_object_value(links_json));
    let value = json_object_value(class_json);
    assert(json_value(value) == self::class_json(model@, classes@, class));
    Ok(json_to_string(&value).unwrap())
}

/// Makes the page of a class, which holds nothing.
pub fn generate_class_page(class: &Class) -> (r: Result<String, String>)
    ensures
        r matches Ok(page) && page@ == Seq::<char>::empty(),
{
    Ok(String::new())
}

} // verus!
