//! The reading of content text: text with commands for mathematics, line
//! breaks, links and code, which are written out as markup.

use vstd::prelude::*;
use crate::read::tex::tex_text;
use crate::read::tex::write_tex;
use crate::read::node::lemma_node_views;
use crate::read::node::message_at;
use crate::read::node::message_at_string;
use crate::read::node::text_is;
use crate::read::node::node_views;
use crate::read::node::Position;
use crate::read::node::Node;
use crate::read::node::NodeView;
use crate::text::text_view;

verus! {

/// The message for a command `n` with a single argument.
pub open spec fn single_line_message(at: Position) -> Seq<char> {
    message_at(
        "<n> command at "@,
        at,
        " must take 0 or more than 2 arguments. Cannot take just 1."@,
    )
}

/// The markup of the first `n` of the lines `lines`, with a line break
/// between one line and the next; or the message of the first error.
pub open spec fn lines_text(lines: Seq<NodeView>, n: int) -> Result<Seq<char>, Seq<char>>
    decreases lines, n,
{
    if n <= 0 || n > lines.len() {
        Ok(Seq::empty())
    } else {
        match lines_text(lines, n - 1) {
            Err(e) => Err(e),
            Ok(before) => match content_text(lines[n - 1]) {
                Err(e) => Err(e),
                Ok(line) => Ok(
                    if n == 1 {
                        line
                    } else {
                        before + "<br>"@ + line
                    },
                ),
            },
        }
    }
}

/// The space that stands before the component at `i` of a compound with
/// the marks of white space `whitespace`, where white space follows the
/// component before it.
pub open spec fn space_before(whitespace: Seq<bool>, i: int) -> Seq<char> {
    if 1 <= i <= whitespace.len() && whitespace[i - 1] {
        " "@
    } else {
        Seq::empty()
    }
}

/// The markup of the first `n` of the components `components` of a
/// compound, with a space where white space follows a component; or the
/// message of the first error.
pub open spec fn compound_text(components: Seq<NodeView>, whitespace: Seq<bool>, n: int) -> Result<
    Seq<char>,
    Seq<char>,
>
    decreases components, n,
{
    if n <= 0 || n > components.len() {
        Ok(Seq::empty())
    } else {
        match compound_text(components, whitespace, n - 1) {
            Err(e) => Err(e),
            Ok(before) => match content_text(components[n - 1]) {
                Err(e) => Err(e),
                Ok(text) => Ok(before + space_before(whitespace, n - 1) + text),
            },
        }
    }
}

/// The markup of the value `inner` under the tag with the name `name`,
/// which stands at `at`.
pub open spec fn command_text(name: Seq<char>, inner: NodeView, at: Position) -> Result<
    Seq<char>,
    Seq<char>,
>
    decreases inner, 1int,
{
    if name == "$"@ {
        match tex_text(inner) {
            Ok(tex) => Ok("\\("@ + tex + "\\)"@),
            Err(e) => Err(e),
        }
    } else if name == "$$"@ {
        match tex_text(inner) {
            Ok(tex) => Ok("\\["@ + tex + "\\]"@),
            Err(e) => Err(e),
        }
    } else if name == "n"@ {
        match inner {
            NodeView::Tuple(lines, _, _) => {
                if lines.len() == 0 {
                    Ok("<br>"@)
                } else if lines.len() == 1 {
                    Err(single_line_message(at))
                } else {
                    lines_text(lines, lines.len() as int)
                }
            },
            _ => Err(single_line_message(inner.from())),
        }
    } else if name == "@"@ {
        match inner {
            NodeView::Tuple(arguments, _, _) => {
                if arguments.len() != 2 {
                    Err(
                        message_at(
                            "Link at "@,
                            inner.from(),
                            " must have a href argument and a label argument."@,
                        ),
                    )
                } else {
                    match arguments[0] {
                        NodeView::Text(href, _, _) => match content_text(arguments[1]) {
                            Ok(label) => Ok("<a href=\""@ + href + "\">"@ + label + "</a>"@),
                            Err(e) => Err(e),
                        },
                        _ => Err(
                            message_at(
                                "Link at "@,
                                inner.from(),
                                " must have a text as its href argument."@,
                            ),
                        ),
                    }
                }
            },
            _ => Err(
                message_at(
                    "Link at "@,
                    inner.from(),
                    " must have a href argument and a label argument."@,
                ),
            ),
        }
    } else if name == "code"@ {
        match inner {
            NodeView::Text(code, _, _) => Ok("<pre><code>"@ + code + "</code></pre>"@),
            _ => Err(message_at("Code at "@, inner.from(), " must be text."@)),
        }
    } else if name == "icode"@ {
        match inner {
            NodeView::Text(code, _, _) => Ok("<code>"@ + code + "</code>"@),
            _ => Err(message_at("Code at "@, inner.from(), " must be text."@)),
        }
    } else {
        Err(message_at("Unexpected command in content text at "@, at, "."@))
    }
}

/// The markup of the content text `value`, or the message of the first
/// error.
///
/// A text stands for itself and nothing for the empty text. A compound is
/// the markup of its components, with a space where white space parts them.
/// Of the commands, `$` and `$$` render their value as TeX between the
/// marks of inline and of displayed mathematics, `n` breaks the lines that
/// are its arguments, `@` links its second argument to the address that is
/// its first, and `code` and `icode` set their text as code. Any other
/// value is an error.
pub open spec fn content_text(value: NodeView) -> Result<Seq<char>, Seq<char>>
    decreases value, 2int,
{
    match value {
        NodeView::Text(text, _, _) => Ok(text),
        NodeView::Tagged(name, _, inner, from, _) => command_text(name, *inner, from),
        NodeView::Tuple(_, from, _) => Err(
            message_at("Unexpected tuple in content text at "@, from, "."@),
        ),
        NodeView::Dictionary(_, from, _) => Err(
            message_at("Unexpected dictionary in content text at "@, from, "."@),
        ),
        NodeView::List(_, from, _) => Err(
            message_at("Unexpected list in content text at "@, from, "."@),
        ),
        NodeView::Compound(components, whitespace, _, _) => compound_text(
            components,
            whitespace,
            components.len() as int,
        ),
        NodeView::Nil(_, _) => Ok(Seq::empty()),
    }
}

/// Whether `r` and the text `after` are the outcome `outcome` of writing
/// markup after the text `before`.
pub open spec fn appended(
    before: Seq<char>,
    after: Seq<char>,
    r: Result<(), String>,
    outcome: Result<Seq<char>, Seq<char>>,
) -> bool {
    match outcome {
        Ok(text) => r is Ok && after == before + text,
        Err(e) => r matches Err(message) && message@ == e,
    }
}

/// Reads the content text `input` and gives its markup.
pub fn read_content_text(input: &Node) -> (r: Result<String, String>)
    ensures
        text_view(r) == content_text(input@),
{
    let mut output = String::new();
    match convert_content_text(&mut output, input) {
        Ok(_) => {
            assert(output@ =~= content_text(input@)->Ok_0);
            Ok(output)
        },
        Err(e) => Err(e),
    }
}

/// Writes the markup of the lines `lines` to `output`.
fn convert_lines(output: &mut String, lines: &Vec<Node>) -> (r: Result<(), String>)
    ensures
        appended(
            old(output)@,
            final(output)@,
            r,
            lines_text(node_views(lines@), lines.len() as int),
        ),
    decreases lines, 0int,
{
    let ghost all = node_views(lines@);
    let ghost start = output@;
    proof {
        lemma_node_views(lines@);
    }
    let mut i: usize = 0;
    while i < lines.len()
        invariant
            i <= lines.len(),
            all == node_views(lines@),
            all.len() == lines.len(),
            forall|k: int| 0 <= k < lines.len() ==> #[trigger] all[k] == lines[k]@,
            start == old(output)@,
            lines_text(all, i as int) matches Ok(text) && output@ == start + text,
        decreases lines.len() - i,
    {
        if i > 0 {
            output.append("<br>");
        }
        let ghost before = output@;
        match convert_content_text(output, &lines[i]) {
            Err(e) => {
                proof {
                    lemma_lines_stay(all, i + 1, all.len() as int);
                }
                return Err(e);
            },
            Ok(_) => {},
        }
        proof {
            let so_far = lines_text(all, i as int)->Ok_0;
            let line = content_text(all[i as int])->Ok_0;
            if i == 0 {
                assert(so_far =~= Seq::<char>::empty());
                assert(output@ =~= start + line);
            } else {
                assert(output@ =~= start + (so_far + "<br>"@ + line));
            }
        }
        i = i + 1;
    }
    Ok(())
}

/// Lines of which the first `n` have an error have that error whatever
/// follows.
pub proof fn lemma_lines_stay(lines: Seq<NodeView>, n: int, m: int)
    requires
        n <= m <= lines.len(),
        lines_text(lines, n) is Err,
    ensures
        lines_text(lines, m) == lines_text(lines, n),
    decreases m - n,
{
    if n < m {
        lemma_lines_stay(lines, n, m - 1);
    }
}

/// Components of which the first `n` have an error have that error
/// whatever follows.
pub proof fn lemma_compound_stay(components: Seq<NodeView>, whitespace: Seq<bool>, n: int, m: int)
    requires
        n <= m <= components.len(),
        compound_text(components, whitespace, n) is Err,
    ensures
        compound_text(components, whitespace, m) == compound_text(components, whitespace, n),
    decreases m - n,
{
    if n < m {
        lemma_compound_stay(components, whitespace, n, m - 1);
    }
}

/// Writes the markup of the components `components` of a compound to
/// `output`.
fn convert_compound(output: &mut String, components: &Vec<Node>, whitespace: &Vec<bool>) -> (r:
    Result<(), String>)
    ensures
        appended(
            old(output)@,
            final(output)@,
            r,
            compound_text(node_views(components@), whitespace@, components.len() as int),
        ),
    decreases components, 0int,
{
    let ghost all = node_views(components@);
    let ghost start = output@;
    proof {
        lemma_node_views(components@);
    }
    let mut i: usize = 0;
    while i < components.len()
        invariant
            i <= components.len(),
            all == node_views(components@),
            all.len() == components.len(),
            forall|k: int| 0 <= k < components.len() ==> #[trigger] all[k] == components[k]@,
            start == old(output)@,
            compound_text(all, whitespace@, i as int) matches Ok(text) && output@ == start + text,
        decreases components.len() - i,
    {
        if i >= 1 && i <= whitespace.len() && whitespace[i - 1] {
            output.append(" ");
        }
        match convert_content_text(output, &components[i]) {
            Err(e) => {
                proof {
                    lemma_compound_stay(all, whitespace@, i + 1, all.len() as int);
                }
                return Err(e);
            },
            Ok(_) => {},
        }
        proof {
            let so_far = compound_text(all, whitespace@, i as int)->Ok_0;
            let text = content_text(all[i as int])->Ok_0;
            assert(output@ =~= start + (so_far + space_before(whitespace@, i as int) + text));
        }
        i = i + 1;
    }
    Ok(())
}

/// Writes `open`, the rendering of `inner` as TeX, and `close` to
/// `output`.
fn convert_mathematics(output: &mut String, inner: &Node, open: &str, close: &str) -> (r: Result<
    (),
    String,
>)
    ensures
        appended(
            old(output)@,
            final(output)@,
            r,
            match tex_text(inner@) {
                Ok(tex) => Ok(open@ + tex + close@),
                Err(e) => Err(e),
            },
        ),
{
    match write_tex(inner) {
        Err(e) => Err(e),
        Ok(tex) => {
            output.append(open);
            output.append(tex.as_str());
            output.append(close);
            assert(output@ =~= old(output)@ + (open@ + tex@ + close@));
            Ok(())
        },
    }
}

/// Writes `open`, the text that `inner` must be, and `close` to `output`.
fn convert_code(output: &mut String, inner: &Node, open: &str, close: &str) -> (r: Result<
    (),
    String,
>)
    ensures
        appended(
            old(output)@,
            final(output)@,
            r,
            match inner@ {
                NodeView::Text(code, _, _) => Ok(open@ + code + close@),
                _ => Err(message_at("Code at "@, inner@.from(), " must be text."@)),
            },
        ),
{
    match inner {
        Node::Text(code, _, _) => {
            output.append(open);
            output.append(code.as_str());
            output.append(close);
            assert(output@ =~= old(output)@ + (open@ + code@ + close@));
            Ok(())
        },
        _ => Err(message_at_string("Code at ", inner.from(), " must be text.")),
    }
}

/// Writes the markup of the value `inner` under the tag with the name
/// `name`, which stands at `at`, to `output`.
fn convert_command(output: &mut String, name: &str, inner: &Node, at: Position) -> (r: Result<
    (),
    String,
>)
    ensures
        appended(old(output)@, final(output)@, r, command_text(name@, inner@, at)),
    decreases inner, 1int,
{
    if text_is(name, "$") {
        convert_mathematics(output, inner, "\\(", "\\)")
    } else if text_is(name, "$$") {
        convert_mathematics(output, inner, "\\[", "\\]")
    } else if text_is(name, "n") {
        match inner {
            Node::Tuple(lines, _, _) => {
                proof {
                    lemma_node_views(lines@);
                }
                if lines.len() == 0 {
                    output.append("<br>");
                    Ok(())
                } else if lines.len() == 1 {
                    Err(
                        message_at_string(
                            "<n> command at ",
                            at,
                            " must take 0 or more than 2 arguments. Cannot take just 1.",
                        ),
                    )
                } else {
                    convert_lines(output, lines)
                }
            },
            _ => Err(
                message_at_string(
                    "<n> command at ",
                    inner.from(),
                    " must take 0 or more than 2 arguments. Cannot take just 1.",
                ),
            ),
        }
    } else if text_is(name, "@") {
        match inner {
            Node::Tuple(arguments, _, _) => {
                proof {
                    lemma_node_views(arguments@);
                }
                if arguments.len() != 2 {
                    return Err(
                        message_at_string(
                            "Link at ",
                            inner.from(),
                            " must have a href argument and a label argument.",
                        ),
                    );
                }
                match &arguments[0] {
                    Node::Text(href, _, _) => {
                        let label = match read_content_label(&arguments[1]) {
                            Ok(label) => label,
                            Err(e) => {
                                return Err(e);
                            },
                        };
                        output.append("<a href=\"");
                        output.append(href.as_str());
                        output.append("\">");
                        output.append(label.as_str());
                        output.append("</a>");
                        assert(output@ =~= old(output)@ + ("<a href=\""@ + href@ + "\">"@ + label@
                            + "</a>"@));
                        Ok(())
                    },
                    _ => Err(
                        message_at_string(
                            "Link at ",
                            inner.from(),
                            " must have a text as its href argument.",
                        ),
                    ),
                }
            },
            _ => Err(
                message_at_string(
                    "Link at ",
                    inner.from(),
                    " must have a href argument and a label argument.",
                ),
            ),
        }
    } else if text_is(name, "code") {
        convert_code(output, inner, "<pre><code>", "</code></pre>")
    } else if text_is(name, "icode") {
        convert_code(output, inner, "<code>", "</code>")
    } else {
        Err(message_at_string("Unexpected command in content text at ", at, "."))
    }
}

/// Reads the label of a link and gives its markup.
fn read_content_label(input: &Node) -> (r: Result<String, String>)
    ensures
        text_view(r) == content_text(input@),
    decreases input, 3int,
{
    let mut output = String::new();
    match convert_content_text(&mut output, input) {
        Ok(_) => {
            assert(output@ =~= content_text(input@)->Ok_0);
            Ok(output)
        },
        Err(e) => Err(e),
    }
}

/// Writes the markup of the content text `input` to `output`.
fn convert_content_text(output: &mut String, input: &Node) -> (r: Result<(), String>)
    ensures
        appended(old(output)@, final(output)@, r, content_text(input@)),
    decreases input, 2int,
{
    match input {
        Node::Text(text, _, _) => {
            output.append(text.as_str());
            Ok(())
        },
        Node::Tagged(name, _, inner, from, _) => convert_command(
            output,
            name.as_str(),
            inner,
            *from,
        ),
        Node::Tuple(_, from, _) => Err(
            message_at_string("Unexpected tuple in content text at ", *from, "."),
        ),
        Node::Dictionary(_, from, _) => Err(
            message_at_string("Unexpected dictionary in content text at ", *from, "."),
        ),
        Node::List(_, from, _) => Err(
            message_at_string("Unexpected list in content text at ", *from, "."),
        ),
        Node::Compound(components, whitespace, _, _) => convert_compound(
            output,
            components,
            whitespace,
        ),
        Node::Nil(_, _) => {
            assert(output@ =~= old(output)@ + Seq::<char>::empty());
            Ok(())
        },
    }
}

} // verus!
