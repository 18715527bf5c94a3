//! The rendering of a value as TeX, which the crate `khi` does.
//!
//! A value is handed to `khi` as a value of its own parsed document model,
//! built node by node. What `khi` renders is not stated here: it has a
//! name, and the contracts speak of the name.

use vstd::prelude::*;
use khi::tex::write_tex_with;
use khi::tex::BreakMode;
use khi::tex::PreprocessorError;
use crate::read::node::lemma_node_views;
use crate::read::node::message_at;
use crate::read::node::message_at_string;
use crate::read::node::text_is;
use crate::read::node::node_views;
use crate::read::node::Position;
use crate::read::node::Node;
use crate::read::node::NodeView;
use crate::text::text_view;

verus! {

/// An error of the rendering as TeX, with the place of the value that it
/// is about.
pub enum TexError {
    IllegalTable(Position),
    IllegalDictionary(Position),
    IllegalTuple(Position),
    ZeroTable(Position),
    MacroError(Position, String),
    MissingOptionalArgument(Position),
}

/// What a `TexError` holds.
pub ghost enum TexErrorView {
    IllegalTable(Position),
    IllegalDictionary(Position),
    IllegalTuple(Position),
    ZeroTable(Position),
    MacroError(Position, Seq<char>),
    MissingOptionalArgument(Position),
}

impl View for TexError {
    type V = TexErrorView;

    open spec fn view(&self) -> TexErrorView {
        match self {
            TexError::IllegalTable(at) => TexErrorView::IllegalTable(*at),
            TexError::IllegalDictionary(at) => TexErrorView::IllegalDictionary(*at),
            TexError::IllegalTuple(at) => TexErrorView::IllegalTuple(*at),
            TexError::ZeroTable(at) => TexErrorView::ZeroTable(*at),
            TexError::MacroError(at, message) => TexErrorView::MacroError(*at, message@),
            TexError::MissingOptionalArgument(at) => TexErrorView::MissingOptionalArgument(*at),
        }
    }
}

/// The message for the error `error`.
pub open spec fn tex_error_text(error: TexErrorView) -> Seq<char> {
    match error {
        TexErrorView::IllegalTable(at) => message_at("TeX: Illegal list at "@, at, "."@),
        TexErrorView::IllegalDictionary(at) => message_at(
            "TeX: Illegal dictionary at "@,
            at,
            "."@,
        ),
        TexErrorView::IllegalTuple(at) => message_at("TeX: Illegal tuple at "@, at, "."@),
        TexErrorView::ZeroTable(at) => message_at("TeX: Empty table at "@, at, "."@),
        TexErrorView::MacroError(at, message) => message_at("TeX: Macro error at "@, at, ":\n"@)
            + message,
        TexErrorView::MissingOptionalArgument(at) => message_at(
            "TeX: Missing optional argument at "@,
            at,
            "."@,
        ),
    }
}

/// The message for the error `error`.
pub fn tex_error_to_text(error: &TexError) -> (text: String)
    ensures
        text@ == tex_error_text(error@),
{
    match error {
        TexError::IllegalTable(at) => message_at_string("TeX: Illegal list at ", *at, "."),
        TexError::IllegalDictionary(at) => message_at_string(
            "TeX: Illegal dictionary at ",
            *at,
            ".",
        ),
        TexError::IllegalTuple(at) => message_at_string("TeX: Illegal tuple at ", *at, "."),
        TexError::ZeroTable(at) => message_at_string("TeX: Empty table at ", *at, "."),
        TexError::MacroError(at, message) => {
            let mut text = message_at_string("TeX: Macro error at ", *at, ":\n");
            text.append(message.as_str());
            text
        },
        TexError::MissingOptionalArgument(at) => message_at_string(
            "TeX: Missing optional argument at ",
            *at,
            ".",
        ),
    }
}

/// What is rendered of the values `values`, in order.
pub open spec fn tex_forms(values: Seq<NodeView>) -> Seq<NodeView>
    decreases values,
{
    Seq::new(
        values.len(),
        |i: int|
            if 0 <= i < values.len() {
                tex_form(values[i])
            } else {
                arbitrary()
            },
    )
}

/// What is rendered of the value `value`: the value without the attributes
/// of its tags and without the entries of its dictionaries, neither of
/// which the rendering reads.
pub open spec fn tex_form(value: NodeView) -> NodeView
    decreases value,
{
    match value {
        NodeView::Nil(from, to) => NodeView::Nil(from, to),
        NodeView::Text(text, from, to) => NodeView::Text(text, from, to),
        NodeView::Tagged(name, _, inner, from, to) => NodeView::Tagged(
            name,
            Seq::empty(),
            Box::new(tex_form(*inner)),
            from,
            to,
        ),
        NodeView::Tuple(values, from, to) => NodeView::Tuple(tex_forms(values), from, to),
        NodeView::Dictionary(_, from, to) => NodeView::Dictionary(Seq::empty(), from, to),
        NodeView::List(values, from, to) => NodeView::List(tex_forms(values), from, to),
        NodeView::Compound(values, whitespace, from, to) => NodeView::Compound(
            tex_forms(values),
            whitespace,
            from,
            to,
        ),
    }
}

/// Whether each of the values `values` can be rendered.
pub open spec fn all_tex_safe(values: Seq<NodeView>) -> bool
    decreases values,
{
    forall|i: int| 0 <= i < values.len() ==> tex_safe(#[trigger] values[i])
}

/// Whether the arguments `inner` of the macro with the name `name` are such
/// that the rendering can read them: the first of the three arguments of
/// `def!` is a text, and the argument of `lines!` is a text where it is no
/// tuple.
pub open spec fn macro_safe(name: Seq<char>, inner: NodeView) -> bool {
    &&& name == "def!"@ ==> (inner matches NodeView::Tuple(values, _, _) ==> values.len() == 3
        ==> values[0] is Text)
    &&& name == "lines!"@ ==> inner is Tuple || inner is Text
}

/// Whether the value `value` can be rendered: it has the shape that a
/// parsed value has, so that a tuple of one value holds a tuple and a
/// compound holds two values or more with a mark of white space for each
/// but the last, and the arguments of its macros can be read.
pub open spec fn tex_safe(value: NodeView) -> bool
    decreases value,
{
    match value {
        NodeView::Nil(_, _) => true,
        NodeView::Text(_, _, _) => true,
        NodeView::Tagged(name, _, inner, _, _) => macro_safe(name, *inner) && tex_safe(*inner),
        NodeView::Tuple(values, _, _) => (values.len() == 1 ==> values[0] is Tuple)
            && all_tex_safe(values),
        NodeView::Dictionary(_, _, _) => true,
        NodeView::List(values, _, _) => all_tex_safe(values),
        NodeView::Compound(values, whitespace, _, _) => values.len() >= 2 && whitespace.len() + 1
            == values.len() && all_tex_safe(values),
    }
}

/// The parsed values of `khi`, of which nothing is seen here but through
/// `parsed_view`.
#[verifier::external_type_specification]
#[verifier::external_body]
pub struct ExParsedValue(khi::pdm::ParsedValue);

/// What a parsed value of `khi` holds: the value with the same variant,
/// texts and places. A tuple holds no value where it is the unit, one where
/// it is single, and else all of its values; a tuple of several values
/// that holds fewer than two has no view that `tex_safe` admits. A
/// dictionary holds its entries in the order of their keys; a compound
/// holds its components and its marks of white space.
pub uninterp spec fn parsed_view(parsed: khi::pdm::ParsedValue) -> NodeView;

/// What `khi` renders as TeX, without line breaks, of a parsed value that
/// holds `value`: the text, or the error.
pub uninterp spec fn tex_rendering(value: NodeView) -> Result<Seq<char>, TexErrorView>;

/// What the parsed values `parsed` hold, in order.
pub open spec fn parsed_views(parsed: Seq<khi::pdm::ParsedValue>) -> Seq<NodeView> {
    Seq::new(parsed.len(), |i: int| parsed_view(parsed[i]))
}

/// What `khi` makes of the values `values` as a tuple: a single value that
/// is no tuple stands for itself.
pub open spec fn tuple_form(values: Seq<NodeView>, from: Position, to: Position) -> NodeView {
    if values.len() == 1 && !(values[0] is Tuple) {
        values[0]
    } else {
        NodeView::Tuple(values, from, to)
    }
}

/// What `khi` makes of the values `values` as the terms of a compound: no
/// term is nothing, and a single term stands for itself.
pub open spec fn compound_form(
    values: Seq<NodeView>,
    whitespace: Seq<bool>,
    from: Position,
    to: Position,
) -> NodeView {
    if values.len() == 0 {
        NodeView::Nil(from, to)
    } else if values.len() == 1 {
        values[0]
    } else {
        NodeView::Compound(values, whitespace, from, to)
    }
}

/// The parsed value that is nothing.
///
/// Calls `ParsedValue::nil` of `khi`, which makes the variant `Nil` with
/// the two places.
#[verifier::external_body]
fn parsed_nil(from: Position, to: Position) -> (parsed: khi::pdm::ParsedValue)
    ensures
        parsed_view(parsed) == NodeView::Nil(from, to),
{
    khi::pdm::ParsedValue::nil(
        khi::pdm::Position { index: from.index, line: from.line, column: from.column },
        khi::pdm::Position { index: to.index, line: to.line, column: to.column },
    )
}

/// The parsed value that is the text `text`.
///
/// Makes the variant `Text` of `ParsedValue` of `khi`, with a `ParsedText`
/// of the characters of `text`, none of them marked as escaped.
#[verifier::external_body]
fn parsed_text(text: &str, from: Position, to: Position) -> (parsed: khi::pdm::ParsedValue)
    ensures
        parsed_view(parsed) == NodeView::Text(text@, from, to),
{
    khi::pdm::ParsedValue::Text(
        khi::pdm::ParsedText { str: text.into(), escapes: Vec::new() },
        khi::pdm::Position { index: from.index, line: from.line, column: from.column },
        khi::pdm::Position { index: to.index, line: to.line, column: to.column },
    )
}

/// The parsed value that is a dictionary without entries.
///
/// Makes the variant `Dictionary` of `ParsedValue` of `khi`, with what
/// `ParsedDictionary::empty` gives.
#[verifier::external_body]
fn parsed_dictionary(from: Position, to: Position) -> (parsed: khi::pdm::ParsedValue)
    ensures
        parsed_view(parsed) == NodeView::Dictionary(Seq::empty(), from, to),
{
    khi::pdm::ParsedValue::Dictionary(
        khi::pdm::ParsedDictionary::empty(),
        khi::pdm::Position { index: from.index, line: from.line, column: from.column },
        khi::pdm::Position { index: to.index, line: to.line, column: to.column },
    )
}

/// The parsed value that is the list of the values `values`.
///
/// Makes the variant `List` of `ParsedValue` of `khi`, with a `ParsedList`
/// of the values.
#[verifier::external_body]
fn parsed_list(values: Vec<khi::pdm::ParsedValue>, from: Position, to: Position) -> (parsed:
    khi::pdm::ParsedValue)
    ensures
        parsed_view(parsed) == NodeView::List(parsed_views(values@), from, to),
{
    khi::pdm::ParsedValue::List(
        khi::pdm::ParsedList { elements: values },
        khi::pdm::Position { index: from.index, line: from.line, column: from.column },
        khi::pdm::Position { index: to.index, line: to.line, column: to.column },
    )
}

/// The parsed value that the values `values` make as a tuple.
///
/// Calls `ParsedValue::from_tuple` of `khi`: no value makes the unit, a
/// single value that is a tuple makes a single tuple, a single value that
/// is none stands for itself, and more values make a tuple of them.
#[verifier::external_body]
fn parsed_tuple(values: Vec<khi::pdm::ParsedValue>, from: Position, to: Position) -> (parsed:
    khi::pdm::ParsedValue)
    ensures
        parsed_view(parsed) == tuple_form(parsed_views(values@), from, to),
{
    khi::pdm::ParsedValue::from_tuple(
        values,
        khi::pdm::Position { index: from.index, line: from.line, column: from.column },
        khi::pdm::Position { index: to.index, line: to.line, column: to.column },
    )
}

/// The parsed value that the values `values` make as the terms of a
/// compound, with the marks of white space `whitespace`.
///
/// Calls `ParsedValue::from_terms` of `khi`: no term makes nothing, a
/// single term stands for itself, and more terms make a compound of them.
#[verifier::external_body]
fn parsed_compound(
    values: Vec<khi::pdm::ParsedValue>,
    whitespace: Vec<bool>,
    from: Position,
    to: Position,
) -> (parsed: khi::pdm::ParsedValue)
    ensures
        parsed_view(parsed) == compound_form(parsed_views(values@), whitespace@, from, to),
{
    khi::pdm::ParsedValue::from_terms(
        khi::pdm::Position { index: from.index, line: from.line, column: from.column },
        khi::pdm::Position { index: to.index, line: to.line, column: to.column },
        values,
        whitespace,
    )
}

/// The parsed value that is the value `value` under the tag `name`,
/// without attributes.
///
/// Makes the variant `Tagged` of `ParsedValue` of `khi`, with a
/// `ParsedTaggedValue` of the name, no attribute, and the value.
#[verifier::external_body]
fn parsed_tagged(name: &str, value: khi::pdm::ParsedValue, from: Position, to: Position) -> (parsed:
    khi::pdm::ParsedValue)
    ensures
        parsed_view(parsed) == NodeView::Tagged(
            name@,
            Seq::empty(),
            Box::new(parsed_view(value)),
            from,
            to,
        ),
{
    khi::pdm::ParsedValue::Tagged(
        khi::pdm::ParsedTaggedValue { name: name.into(), attributes: Vec::new(), value: Box::new(value) },
        khi::pdm::Position { index: from.index, line: from.line, column: from.column },
        khi::pdm::Position { index: to.index, line: to.line, column: to.column },
    )
}

/// What a result of the rendering holds.
pub open spec fn tex_result_view(r: Result<String, TexError>) -> Result<Seq<char>, TexErrorView> {
    match r {
        Ok(text) => Ok(text@),
        Err(e) => Err(e@),
    }
}

/// Renders the parsed value `parsed` as TeX, without line breaks.
///
/// Calls `write_tex_with` of `khi` with `BreakMode::Never`. The result is
/// the named rendering of what the parsed value holds; an error of `khi`
/// is handed on with its variant, place and message. The parsed value must
/// be one that `khi` can read without failing: see `tex_safe`.
#[verifier::external_body]
fn write_parsed_tex(parsed: &khi::pdm::ParsedValue) -> (r: Result<String, TexError>)
    requires
        tex_safe(parsed_view(*parsed)),
    ensures
        tex_result_view(r) == tex_rendering(parsed_view(*parsed)),
{
    let at = |p: khi::pdm::Position| Position { index: p.index, line: p.line, column: p.column };
    match write_tex_with(parsed, BreakMode::Never) {
        Ok(text) => Ok(text),
        Err(PreprocessorError::IllegalTable(p)) => Err(TexError::IllegalTable(at(p))),
        Err(PreprocessorError::IllegalDictionary(p)) => Err(TexError::IllegalDictionary(at(p))),
        Err(PreprocessorError::IllegalTuple(p)) => Err(TexError::IllegalTuple(at(p))),
        Err(PreprocessorError::ZeroTable(p)) => Err(TexError::ZeroTable(at(p))),
        Err(PreprocessorError::MacroError(p, e)) => Err(TexError::MacroError(at(p), e)),
        Err(PreprocessorError::MissingOptionalArgument(p)) => Err(TexError::MissingOptionalArgument(at(p))),
    }
}

/// What is rendered of a sequence of values is what is rendered of its
/// values, one by one.
pub proof fn lemma_tex_forms(values: Seq<NodeView>)
    ensures
        tex_forms(values).len() == values.len(),
        forall|i: int| 0 <= i < values.len() ==> #[trigger] tex_forms(values)[i] == tex_form(values[i]),
{
    reveal_with_fuel(tex_forms, 2);
}

/// What is rendered of a value can be rendered where the value can, and is
/// a tuple where the value is.
pub proof fn lemma_tex_form_safe(value: NodeView)
    requires
        tex_safe(value),
    ensures
        tex_safe(tex_form(value)),
        tex_form(value) is Tuple <==> value is Tuple,
        tex_form(value) is Text <==> value is Text,
    decreases value,
{
    match value {
        NodeView::Tagged(name, _, inner, _, _) => {
            lemma_tex_form_safe(*inner);
            match *inner {
                NodeView::Tuple(values, _, _) => {
                    lemma_tex_forms(values);
                    if values.len() == 3 {
                        reveal_with_fuel(tex_safe, 3);
                        assert(all_tex_safe(values));
                        assert(tex_safe(values[0]));
                        lemma_tex_form_safe(values[0]);
                    }
                },
                _ => {},
            }
        },
        NodeView::Tuple(values, _, _) => {
            lemma_tex_forms_safe(values);
        },
        NodeView::List(values, _, _) => {
            lemma_tex_forms_safe(values);
        },
        NodeView::Compound(values, _, _, _) => {
            lemma_tex_forms_safe(values);
        },
        _ => {},
    }
}

/// What is rendered of values that can be rendered can be rendered.
pub proof fn lemma_tex_forms_safe(values: Seq<NodeView>)
    requires
        all_tex_safe(values),
    ensures
        all_tex_safe(tex_forms(values)),
        tex_forms(values).len() == values.len(),
        forall|i: int|
            0 <= i < values.len() ==> (#[trigger] tex_forms(values)[i] is Tuple <==> values[i]
                is Tuple),
    decreases values,
{
    lemma_tex_forms(values);
    assert forall|i: int| 0 <= i < values.len() implies tex_safe(#[trigger] tex_forms(values)[i])
        && (tex_forms(values)[i] is Tuple <==> values[i] is Tuple) by {
        lemma_tex_form_safe(values[i]);
    }
}

/// Builds the parsed values of `khi` for what is rendered of the values
/// `values`.
fn to_parsed_all(values: &Vec<Node>) -> (parsed: Vec<khi::pdm::ParsedValue>)
    requires
        all_tex_safe(node_views(values@)),
    ensures
        parsed_views(parsed@) == tex_forms(node_views(values@)),
    decreases values,
{
    let ghost all = node_views(values@);
    proof {
        lemma_node_views(values@);
        lemma_tex_forms(all);
    }
    let mut parsed: Vec<khi::pdm::ParsedValue> = Vec::new();
    let mut i: usize = 0;
    while i < values.len()
        invariant
            i <= values.len(),
            all == node_views(values@),
            all.len() == values.len(),
            all_tex_safe(all),
            forall|k: int| 0 <= k < values.len() ==> #[trigger] all[k] == values[k]@,
            parsed.len() == i,
            forall|k: int| 0 <= k < i ==> parsed_view(#[trigger] parsed[k]) == tex_form(all[k]),
        decreases values.len() - i,
    {
        assert(tex_safe(all[i as int]));
        let one = to_parsed(&values[i]);
        parsed.push(one);
        i = i + 1;
    }
    assert(parsed_views(parsed@) =~= tex_forms(all));
    parsed
}

/// Builds the parsed value of `khi` for what is rendered of the value
/// `value`.
fn to_parsed(value: &Node) -> (parsed: khi::pdm::ParsedValue)
    requires
        tex_safe(value@),
    ensures
        parsed_view(parsed) == tex_form(value@),
    decreases value,
{
    match value {
        Node::Nil(from, to) => parsed_nil(*from, *to),
        Node::Text(text, from, to) => parsed_text(text.as_str(), *from, *to),
        Node::Tagged(name, _, inner, from, to) => {
            let parsed = to_parsed(inner);
            parsed_tagged(name.as_str(), parsed, *from, *to)
        },
        Node::Tuple(values, from, to) => {
            proof {
                lemma_node_views(values@);
                lemma_tex_forms_safe(node_views(values@));
            }
            let parsed = to_parsed_all(values);
            parsed_tuple(parsed, *from, *to)
        },
        Node::Dictionary(_, from, to) => parsed_dictionary(*from, *to),
        Node::List(values, from, to) => {
            let parsed = to_parsed_all(values);
            parsed_list(parsed, *from, *to)
        },
        Node::Compound(values, whitespace, from, to) => {
            proof {
                lemma_node_views(values@);
                lemma_tex_forms(node_views(values@));
            }
            let parsed = to_parsed_all(values);
            let marks = whitespace.clone();
            parsed_compound(parsed, marks, *from, *to)
        },
    }
}

/// Whether each of the values `values` can be rendered.
fn are_tex_safe(values: &Vec<Node>) -> (b: bool)
    ensures
        b == all_tex_safe(node_views(values@)),
    decreases values,
{
    let ghost all = node_views(values@);
    proof {
        lemma_node_views(values@);
    }
    let mut i: usize = 0;
    while i < values.len()
        invariant
            i <= values.len(),
            all == node_views(values@),
            all.len() == values.len(),
            forall|k: int| 0 <= k < values.len() ==> #[trigger] all[k] == values[k]@,
            forall|k: int| 0 <= k < i ==> tex_safe(#[trigger] all[k]),
        decreases values.len() - i,
    {
        if !is_tex_safe(&values[i]) {
            assert(!tex_safe(all[i as int]));
            return false;
        }
        i = i + 1;
    }
    true
}

/// Whether the arguments `inner` of the macro with the name `name` can be
/// read.
fn is_macro_safe(name: &str, inner: &Node) -> (b: bool)
    ensures
        b == macro_safe(name@, inner@),
{
    if text_is(name, "def!") {
        match inner {
            Node::Tuple(values, _, _) => {
                proof {
                    lemma_node_views(values@);
                    assert("def!"@ != "lines!"@) by {
                        reveal_strlit("def!");
                        reveal_strlit("lines!");
                        assert("def!"@.len() == 4);
                        assert("lines!"@.len() == 6);
                    }
                }
                if values.len() == 3 {
                    match &values[0] {
                        Node::Text(_, _, _) => true,
                        _ => false,
                    }
                } else {
                    true
                }
            },
            _ => {
                proof {
                    assert("def!"@ != "lines!"@) by {
                        reveal_strlit("def!");
                        reveal_strlit("lines!");
                        assert("def!"@.len() == 4);
                        assert("lines!"@.len() == 6);
                    }
                }
                true
            },
        }
    } else if text_is(name, "lines!") {
        match inner {
            Node::Tuple(_, _, _) => true,
            Node::Text(_, _, _) => true,
            _ => false,
        }
    } else {
        true
    }
}

/// Whether the value `value` can be rendered as TeX.
pub fn is_tex_safe(value: &Node) -> (b: bool)
    ensures
        b == tex_safe(value@),
    decreases value,
{
    match value {
        Node::Nil(_, _) => true,
        Node::Text(_, _, _) => true,
        Node::Tagged(name, _, inner, _, _) => is_macro_safe(name.as_str(), inner) && is_tex_safe(
            inner,
        ),
        Node::Tuple(values, _, _) => {
            proof {
                lemma_node_views(values@);
            }
            let single = if values.len() == 1 {
                match &values[0] {
                    Node::Tuple(_, _, _) => true,
                    _ => false,
                }
            } else {
                true
            };
            single && are_tex_safe(values)
        },
        Node::Dictionary(_, _, _) => true,
        Node::List(values, _, _) => are_tex_safe(values),
        Node::Compound(values, whitespace, _, _) => {
            proof {
                lemma_node_views(values@);
            }
            values.len() >= 2 && whitespace.len() == values.len() - 1 && are_tex_safe(values)
        },
    }
}

/// The message for a value that cannot be rendered.
pub open spec fn malformed_message(at: Position) -> Seq<char> {
    message_at("TeX: Malformed value at "@, at, "."@)
}

/// The rendering of the value `value` as TeX, without line breaks, or the
/// message of the error: that of the rendering, or that for a value that
/// cannot be rendered.
pub open spec fn tex_text(value: NodeView) -> Result<Seq<char>, Seq<char>> {
    if !tex_safe(value) {
        Err(malformed_message(value.from()))
    } else {
        match tex_rendering(tex_form(value)) {
            Ok(text) => Ok(text),
            Err(e) => Err(tex_error_text(e)),
        }
    }
}

/// Renders the value `value` as TeX, without line breaks.
pub fn write_tex(value: &Node) -> (r: Result<String, String>)
    ensures
        text_view(r) == tex_text(value@),
{
    if !is_tex_safe(value) {
        return Err(message_at_string("TeX: Malformed value at ", value.from(), "."));
    }
    let parsed = to_parsed(value);
    proof {
        lemma_tex_form_safe(value@);
    }
    match write_parsed_tex(&parsed) {
        Ok(text) => Ok(text),
        Err(e) => Err(tex_error_to_text(&e)),
    }
}

} // verus!
