//! The data of the model as JSON, and the colours of its article types as
//! a style sheet.

use vstd::prelude::*;
use crate::model::ArticleType;
use crate::model::ArticleTypeView;
use crate::model::LinkType;
use crate::model::LinkTypeView;
use crate::model::Model;
use crate::views::views;
use crate::web::json::json_map_insert;
use crate::web::json::json_map_new;
use crate::web::json::json_map_set_string;
use crate::web::json::json_object;
use crate::web::json::json_object_value;
use crate::web::json::json_text;
use crate::web::json::json_to_string;
use crate::web::json::JsonMap;
use crate::web::json::JsonView;

verus! {

/// The JSON of the link type `link`: its names and descriptions at the
/// origin and at the target, and whether it is shown at the target, as the
/// text `true` or `false`.
pub open spec fn link_json(link: LinkTypeView) -> Map<Seq<char>, JsonView> {
    Map::<Seq<char>, JsonView>::empty().insert(
        "origin.name"@,
        JsonView::String(link.origin_name),
    ).insert("origin.description"@, JsonView::String(link.origin_description)).insert(
        "target.name"@,
        JsonView::String(link.target_name),
    ).insert("target.description"@, JsonView::String(link.target_description)).insert(
        "target.show"@,
        JsonView::String(
            if link.target_show {
                "true"@
            } else {
                "false"@
            },
        ),
    )
}

/// The JSON of the first `n` of the link types `links`, each under its
/// key.
pub open spec fn links_json(links: Seq<LinkTypeView>, n: int) -> Map<Seq<char>, JsonView>
    decreases n,
{
    if n <= 0 {
        Map::empty()
    } else {
        links_json(links, n - 1).insert(links[n - 1].key, JsonView::Object(link_json(links[n - 1])))
    }
}

/// The JSON of the article type `article_type`: its name and description;
/// its abbreviation and its colour, where it has them; and its link types,
/// where it has any.
pub open spec fn type_json(article_type: ArticleTypeView) -> Map<Seq<char>, JsonView> {
    let named = Map::<Seq<char>, JsonView>::empty().insert(
        "name"@,
        JsonView::String(article_type.name),
    ).insert("description"@, JsonView::String(article_type.description));
    let abbreviated = match article_type.abbreviation {
        Some(abbreviation) => named.insert("abbreviation"@, JsonView::String(abbreviation)),
        None => named,
    };
    let coloured = match article_type.colour {
        Some(colour) => abbreviated.insert("colour"@, JsonView::String(colour)),
        None => abbreviated,
    };
    if article_type.links.len() > 0 {
        coloured.insert(
            "links"@,
            JsonView::Object(links_json(article_type.links, article_type.links.len() as int)),
        )
    } else {
        coloured
    }
}

/// The JSON of the first `n` of the article types `types`, each under its
/// key.
pub open spec fn model_json(types: Seq<ArticleTypeView>, n: int) -> Map<Seq<char>, JsonView>
    decreases n,
{
    if n <= 0 {
        Map::empty()
    } else {
        model_json(types, n - 1).insert(types[n - 1].key, JsonView::Object(type_json(types[n - 1])))
    }
}

/// The JSON of the link type `link`.
fn generate_link_json(link: &LinkType) -> (object: JsonMap)
    ensures
        json_object(object) == link_json(link@),
{
    let mut object = json_map_new();
    json_map_set_string(&mut object, "origin.name", link.origin_name.as_str());
    json_map_set_string(&mut object, "origin.description", link.origin_description.as_str());
    json_map_set_string(&mut object, "target.name", link.target_name.as_str());
    json_map_set_string(&mut object, "target.description", link.target_description.as_str());
    json_map_set_string(
        &mut object,
        "target.show",
        if link.target_show {
            "true"
        } else {
            "false"
        },
    );
    object
}

/// The JSON of the article type `article_type`.
fn generate_type_json(article_type: &ArticleType) -> (object: JsonMap)
    ensures
        json_object(object) == type_json(article_type@),
{
    let mut object = json_map_new();
    json_map_set_string(&mut object, "name", article_type.name.as_str());
    json_map_set_string(&mut object, "description", article_type.description.as_str());
    match &article_type.abbreviation {
        Some(abbreviation) => {
            json_map_set_string(&mut object, "abbreviation", abbreviation.as_str());
        },
        None => {},
    }
    match &article_type.colour {
        Some(colour) => {
            json_map_set_string(&mut object, "colour", colour.as_str());
        },
        None => {},
    }
    if article_type.links.len() > 0 {
        let mut links = json_map_new();
        let mut j: usize = 0;
        while j < article_type.links.len()
            invariant
                j <= article_type.links.len(),
                json_object(links) == links_json(article_type@.links, j as int),
            decreases article_type.links.len() - j,
        {
            let link = &article_type.links[j];
            assert(article_type@.links[j as int] == link@);
            json_map_insert(
                &mut links,
                link.key.clone(),
                json_object_value(generate_link_json(link)),
            );
            j = j + 1;
        }
        json_map_insert(&mut object, String::from_str("links"), json_object_value(links));
    }
    object
}

/// Makes the data of the model `model` as a text of JSON: for the key of
/// each article type, its name, its description, its abbreviation, its
/// colour and its link types.
pub fn generate_model_data(model: &Model) -> (r: Result<String, String>)
    ensures
        r matches Ok(data) && data@ == json_text(
                JsonView::Object(model_json(model@, model@.len() as int)),
            ),
{
    let types = model.get_types();
    let mut object = json_map_new();
    let mut i: usize = 0;
    while i < types.len()
        invariant
            i <= types.len(),
            views(types@) == model@,
            json_object(object) == model_json(model@, i as int),
        decreases types.len() - i,
    {
        let article_type = &types[i];
        assert(model@[i as int] == article_type@);
        json_map_insert(
            &mut object,
            article_type.key.clone(),
            json_object_value(generate_type_json(article_type)),
        );
        i = i + 1;
    }
    Ok(json_to_string(&json_object_value(object)).unwrap())
}

/// The rule of the style sheet for the article type `article_type`: the
/// colour of the type, or `#353535` where it has none, for the class of the
/// elements of the type.
pub open spec fn css_rule(article_type: ArticleTypeView) -> Seq<char> {
    "."@ + article_type.key + "-type{"@ + "--type-colour:"@ + match article_type.colour {
        Some(colour) => colour,
        None => "#353535"@,
    } + ";"@ + "}"@
}

/// The rules of the style sheet for the first `n` of the article types
/// `types`.
pub open spec fn model_css(types: Seq<ArticleTypeView>, n: int) -> Seq<char>
    decreases n,
{
    if n <= 0 {
        Seq::empty()
    } else {
        model_css(types, n - 1) + css_rule(types[n - 1])
    }
}

/// Makes the style sheet of the model `model`: a rule with the colour of
/// each article type, in the order of the types.
pub fn generate_model_css(model: &Model) -> (r: Result<String, String>)
    ensures
        r matches Ok(css) && css@ == model_css(model@, model@.len() as int),
{
    let types = model.get_types();
    let mut css = String::new();
    let mut i: usize = 0;
    while i < types.len()
        invariant
            i <= types.len(),
            views(types@) == model@,
            css@ == model_css(model@, i as int),
        decreases types.len() - i,
    {
        let ghost before = css@;
        let article_type = &types[i];
        assert(model@[i as int] == article_type@);
        css.append(".");
        css.append(article_type.key.as_str());
        css.append("-type{");
        css.append("--type-colour:");
        match &article_type.colour {
            Some(colour) => {
                css.append(colour.as_str());
            },
            None => {
                css.append("#353535");
            },
        }
        css.append(";");
        css.append("}");
        assert(css@ =~= before + css_rule(model@[i as int]));
        i = i + 1;
    }
    Ok(css)
}

} // verus!
