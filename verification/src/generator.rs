//! The generator: renders classified content against a variable context.
//!
//! A variable line has each placeholder token replaced by the first value
//! bound to its name; a missing name there is a hard failure that propagates.
//! A directive renders its body when its condition holds: `Equal` compares
//! the bound values with the right operand's space-separated tokens, `In`
//! repeats the body once per bound value.  A missing name inside a directive
//! soft-fails to a blank rendering.

use vstd::prelude::*;
use crate::context::Context;
use crate::parser::{
    classify_spec, ConditionalView, Conditional, ContentType, ContentTypeView, ExpressionData,
    ExpressionDataView, OperationType, OperationTypeView, TagType, TagTypeView,
};
use crate::text::{
    find_char, first_char, lemma_first_char_from, replace_sub, replaced, split_by, split_by_exec,
    str_eq,
};
use crate::parser::get_content_type;

verus! {

// ---------------------------------------------------------------------------
// Rendering, modelled
// ---------------------------------------------------------------------------

/// The name inside a placeholder token: the text between two characters past
/// the first `{` and the first `}`.  `None` when the token is too mangled for
/// a name to be cut out of it.
pub open spec fn placeholder_name(v: Seq<char>) -> Option<Seq<char>> {
    match first_char(v, '{') {
        Some(i) => match first_char(v, '}') {
            Some(k) => if i + 2 <= k {
                Some(v.subrange(i + 2, k))
            } else {
                None
            },
            None => None,
        },
        None => None,
    }
}

/// One substitution step: the token's name is looked up and every occurrence
/// of the token in `html` is replaced by the first bound value.
pub open spec fn render_step(
    html: Seq<char>,
    v: Seq<char>,
    ctx: Map<Seq<char>, Seq<Seq<char>>>,
) -> Result<Seq<char>, Seq<char>> {
    match placeholder_name(v) {
        None => Err("Invalid placeholder"@),
        Some(name) => if !ctx.contains_key(name) {
            Err("Variable not found in context"@)
        } else if ctx[name].len() == 0 {
            Err("Variable binding is empty"@)
        } else {
            Ok(replaced(html, v, ctx[name][0]))
        },
    }
}

/// The substitution steps for all placeholder tokens, in order.
pub open spec fn render_vars(
    html: Seq<char>,
    vars: Seq<Seq<char>>,
    ctx: Map<Seq<char>, Seq<Seq<char>>>,
) -> Result<Seq<char>, Seq<char>>
    decreases vars.len(),
{
    if vars.len() == 0 {
        Ok(html)
    } else {
        match render_step(html, vars[0], ctx) {
            Err(e) => Err(e),
            Ok(h) => render_vars(h, vars.skip(1), ctx),
        }
    }
}

/// What rendering a variable line yields: its text with every placeholder
/// substituted, starting afresh from the line's own text.
pub open spec fn render_variable_spec(
    e: ExpressionDataView,
    ctx: Map<Seq<char>, Seq<Seq<char>>>,
) -> Result<Seq<char>, Seq<char>> {
    render_vars(e.expression, e.var_map, ctx)
}

/// What one `for` repetition emits for the current item, before its newline:
/// a literal body verbatim, a variable body with only its first placeholder
/// token replaced by the item, any other body nothing.
pub open spec fn for_piece(body: ContentTypeView, item: Seq<char>) -> Seq<char> {
    match body {
        ContentTypeView::Literal(t) => t,
        ContentTypeView::TemplateVariable(e) => if e.var_map.len() == 0 {
            Seq::<char>::empty()
        } else {
            replaced(e.expression, e.var_map[0], item)
        },
        _ => Seq::<char>::empty(),
    }
}

/// All `for` repetitions, one per bound item, each followed by a newline.
pub open spec fn for_items(body: ContentTypeView, items: Seq<Seq<char>>) -> Seq<char>
    decreases items.len(),
{
    if items.len() == 0 {
        Seq::<char>::empty()
    } else {
        for_piece(body, items[0]) + "\n"@ + for_items(body, items.skip(1))
    }
}

/// A variable body with no placeholder token at all cannot be iterated.
pub open spec fn body_lacks_placeholder(body: ContentTypeView) -> bool {
    match body {
        ContentTypeView::TemplateVariable(e) => e.var_map.len() == 0,
        _ => false,
    }
}

/// What rendering a directive yields.  A name missing from the context
/// soft-fails to a single blank; an unsupported operator's message flows into
/// the output verbatim.
pub open spec fn render_tag_spec(
    c: ConditionalView,
    ctx: Map<Seq<char>, Seq<Seq<char>>>,
) -> Result<Seq<char>, Seq<char>>
    decreases c,
{
    match c.condition.operation {
        OperationTypeView::Equal => {
            if !ctx.contains_key(c.condition.left_operand) {
                Ok(" "@)
            } else if split_by(c.condition.right_operand, " "@) == ctx[c.condition.left_operand] {
                render_body_spec(*c.expression, ctx)
            } else {
                Ok(Seq::<char>::empty())
            }
        },
        OperationTypeView::In => {
            if !ctx.contains_key(c.condition.right_operand) {
                Ok(" "@)
            } else if ctx[c.condition.right_operand].len() > 0 && body_lacks_placeholder(
                *c.expression,
            ) {
                Err("Missing placeholder"@)
            } else {
                Ok(for_items(*c.expression, ctx[c.condition.right_operand]))
            }
        },
        OperationTypeView::Nosoported(m) => Ok(m),
    }
}

/// What rendering an `Equal` directive's body yields: literal text verbatim,
/// a variable body via substitution, a nested directive recursively, and
/// unrecognized content nothing.
pub open spec fn render_body_spec(
    b: ContentTypeView,
    ctx: Map<Seq<char>, Seq<Seq<char>>>,
) -> Result<Seq<char>, Seq<char>>
    decreases b,
{
    match b {
        ContentTypeView::Literal(t) => Ok(t),
        ContentTypeView::TemplateVariable(e) => render_vars(e.expression, e.var_map, ctx),
        ContentTypeView::Tag(TagTypeView::IfTag(c)) => render_tag_spec(*c, ctx),
        ContentTypeView::Tag(TagTypeView::ForTag(c)) => render_tag_spec(*c, ctx),
        ContentTypeView::Unrecognized => Ok(Seq::<char>::empty()),
    }
}

/// What rendering one classified line yields at the top level, where
/// unrecognized content renders as a fixed marker.
pub open spec fn render_classified_spec(
    c: ContentTypeView,
    ctx: Map<Seq<char>, Seq<Seq<char>>>,
) -> Result<Seq<char>, Seq<char>> {
    match c {
        ContentTypeView::Literal(t) => Ok(t),
        ContentTypeView::TemplateVariable(e) => render_variable_spec(e, ctx),
        ContentTypeView::Tag(TagTypeView::IfTag(c)) => render_tag_spec(*c, ctx),
        ContentTypeView::Tag(TagTypeView::ForTag(c)) => render_tag_spec(*c, ctx),
        ContentTypeView::Unrecognized => Ok("Unrecognized input"@),
    }
}

/// What one raw input line renders to: classify, then render; an error on
/// either side propagates.
pub open spec fn render_line_spec(s: Seq<char>, ctx: Map<Seq<char>, Seq<Seq<char>>>) -> Result<
    Seq<char>,
    Seq<char>,
> {
    match classify_spec(s) {
        Err(e) => Err(e),
        Ok(c) => render_classified_spec(c, ctx),
    }
}

/// The renderings of a sequence of lines, one result per line, in order.
pub open spec fn render_all(
    lines: Seq<Seq<char>>,
    ctx: Map<Seq<char>, Seq<Seq<char>>>,
) -> Seq<Result<Seq<char>, Seq<char>>> {
    Seq::new(lines.len(), |i: int| render_line_spec(lines[i], ctx))
}

// ---------------------------------------------------------------------------
// Rendering, executable
// ---------------------------------------------------------------------------

/// Performs the substitution steps of `render_vars` on `expression`.
fn render_expression(expression: &str, var_map: &Vec<String>, context: &Context) -> (r: Result<
    String,
    String,
>)
    ensures
        match r {
            Ok(h) => render_vars(expression@, var_map.deep_view(), context@) == Ok::<
                Seq<char>,
                Seq<char>,
            >(h@),
            Err(e) => render_vars(expression@, var_map.deep_view(), context@) == Err::<
                Seq<char>,
                Seq<char>,
            >(e@),
        },
{
    let mut html: String = expression.to_owned();
    let n = var_map.len();
    let mut i: usize = 0;
    proof {
        assert(var_map.deep_view().skip(0) =~= var_map.deep_view());
    }
    while i < n
        invariant
            i <= n,
            n == var_map@.len(),
            render_vars(expression@, var_map.deep_view(), context@) == render_vars(
                html@,
                var_map.deep_view().skip(i as int),
                context@,
            ),
        decreases n - i,
    {
        let var = &var_map[i];
        proof {
            assert(var@ == var_map.deep_view()[i as int]);
            assert(var_map.deep_view().skip(i as int)[0] == var@);
            assert(var_map.deep_view().skip(i as int).skip(1) =~= var_map.deep_view().skip(
                i + 1,
            ));
            lemma_first_char_from(var@, '{', 0);
            lemma_first_char_from(var@, '}', 0);
        }
        let iopt = find_char(var.as_str(), '{');
        let kopt = find_char(var.as_str(), '}');
        let (iu, ku) = match (iopt, kopt) {
            (Some(a), Some(b)) => (a, b),
            _ => {
                return Err("Invalid placeholder".to_owned());
            },
        };
        if ku < 2 || iu > ku - 2 {
            return Err("Invalid placeholder".to_owned());
        }
        let name = var.substring_char(iu + 2, ku);
        match context.get(name) {
            None => {
                return Err("Variable not found in context".to_owned());
            },
            Some(vals) => {
                if vals.len() == 0 {
                    return Err("Variable binding is empty".to_owned());
                }
                proof {
                    assert(vals@[0]@ == vals.deep_view()[0]);
                }
                let val = &vals[0];
                html = replace_sub(html.as_str(), var.as_str(), val.as_str());
            },
        }
        i += 1;
    }
    proof {
        assert(var_map.deep_view().skip(n as int) =~= Seq::<Seq<char>>::empty());
    }
    Ok(html)
}

/// Generates output for a variable line: fills the line's output buffer with
/// its text, every placeholder substituted, and returns that text.  A name
/// missing from the context is a hard failure; the buffer is then untouched.
pub fn generate_html_template_var(content: &mut ExpressionData, context: &Context) -> (r: Result<
    String,
    String,
>)
    ensures
        final(content).expression == old(content).expression,
        final(content).var_map == old(content).var_map,
        match r {
            Ok(h) => render_variable_spec(old(content)@, context@) == Ok::<Seq<char>, Seq<char>>(
                h@,
            ) && final(content).gen_html@ == h@,
            Err(e) => render_variable_spec(old(content)@, context@) == Err::<Seq<char>, Seq<char>>(
                e@,
            ) && final(content).gen_html == old(content).gen_html,
        },
{
    match render_expression(content.expression.as_str(), &content.var_map, context) {
        Ok(h) => {
            content.gen_html = h.clone();
            Ok(h)
        },
        Err(e) => Err(e),
    }
}

/// Whether two lists of strings hold the same texts in the same order.
fn str_vecs_eq(a: &Vec<String>, b: &Vec<String>) -> (r: bool)
    ensures
        r == (a.deep_view() == b.deep_view()),
{
    let n = a.len();
    if n != b.len() {
        proof {
            assert(a.deep_view().len() != b.deep_view().len());
        }
        return false;
    }
    let mut i: usize = 0;
    while i < n
        invariant
            i <= n,
            n == a@.len(),
            n == b@.len(),
            forall|k: int| 0 <= k < i ==> a.deep_view()[k] == b.deep_view()[k],
        decreases n - i,
    {
        proof {
            assert(a@[i as int]@ == a.deep_view()[i as int]);
            assert(b@[i as int]@ == b.deep_view()[i as int]);
        }
        if !str_eq(a[i].as_str(), b[i].as_str()) {
            return false;
        }
        i += 1;
    }
    assert(a.deep_view() =~= b.deep_view());
    true
}

/// `for_items` distributes over concatenation of the item list.
proof fn lemma_for_items_concat(body: ContentTypeView, a: Seq<Seq<char>>, b: Seq<Seq<char>>)
    ensures
        for_items(body, a + b) == for_items(body, a) + for_items(body, b),
    decreases a.len(),
{
    if a.len() == 0 {
        assert(a + b =~= b);
        assert(for_items(body, a) + for_items(body, b) =~= for_items(body, b));
    } else {
        assert((a + b)[0] == a[0]);
        assert((a + b).skip(1) =~= a.skip(1) + b);
        lemma_for_items_concat(body, a.skip(1), b);
        assert(for_items(body, a + b) == for_piece(body, a[0]) + "\n"@ + (for_items(body, a.skip(1))
            + for_items(body, b)));
        assert(for_piece(body, a[0]) + "\n"@ + (for_items(body, a.skip(1)) + for_items(body, b))
            =~= (for_piece(body, a[0]) + "\n"@ + for_items(body, a.skip(1))) + for_items(body, b));
    }
}

/// Generates output for a directive line against the context.
pub fn generate_html_tag(content: &Conditional, context: &Context) -> (r: Result<String, String>)
    ensures
        match r {
            Ok(h) => render_tag_spec(content@, context@) == Ok::<Seq<char>, Seq<char>>(h@),
            Err(e) => render_tag_spec(content@, context@) == Err::<Seq<char>, Seq<char>>(e@),
        },
    decreases *content, 0int,
{
    match &content.condition.operation {
        OperationType::Equal => {
            proof {
                reveal_strlit(" ");
            }
            let right_operand = split_by_exec(content.condition.right_operand.as_str(), " ");
            match context.get(content.condition.left_operand.as_str()) {
                None => Ok(" ".to_owned()),
                Some(left_value) => {
                    if str_vecs_eq(&right_operand, left_value) {
                        render_body(&content.expression, context)
                    } else {
                        Ok(String::new())
                    }
                },
            }
        },
        OperationType::In => {
            match context.get(content.condition.right_operand.as_str()) {
                None => Ok(" ".to_owned()),
                Some(items) => {
                    let n = items.len();
                    if n > 0 {
                        if let ContentType::TemplateVariable(data) = &*content.expression {
                            if data.var_map.len() == 0 {
                                return Err("Missing placeholder".to_owned());
                            }
                        }
                    }
                    let ghost body = content_body_view(content);
                    let ghost item_seq = items.deep_view();
                    let mut html = String::new();
                    let mut idx: usize = 0;
                    proof {
                        assert(item_seq.subrange(0, 0) =~= Seq::<Seq<char>>::empty());
                    }
                    while idx < n
                        invariant
                            idx <= n,
                            n == items@.len(),
                            item_seq == items.deep_view(),
                            body == content_body_view(content),
                            html@ == for_items(body, item_seq.subrange(0, idx as int)),
                            n > 0 ==> !body_lacks_placeholder(body),
                        decreases n - idx,
                    {
                        let item = &items[idx];
                        proof {
                            assert(item@ == item_seq[idx as int]);
                        }
                        let piece: String = match &*content.expression {
                            ContentType::Literal(text) => text.clone(),
                            ContentType::TemplateVariable(data) => {
                                proof {
                                    assert(data.var_map@[0]@ == data.var_map.deep_view()[0]);
                                }
                                if data.var_map[0].as_str().is_empty() {
                                    data.expression.clone()
                                } else {
                                    replace_sub(
                                        data.expression.as_str(),
                                        data.var_map[0].as_str(),
                                        item.as_str(),
                                    )
                                }
                            },
                            _ => String::new(),
                        };
                        proof {
                            assert(piece@ == for_piece(body, item_seq[idx as int]));
                        }
                        let ghost html_prev = html@;
                        html.append(piece.as_str());
                        html.append("\n");
                        proof {
                            reveal_strlit("\n");
                            assert(item_seq.subrange(0, idx + 1) =~= item_seq.subrange(
                                0,
                                idx as int,
                            ) + seq![item_seq[idx as int]]);
                            lemma_for_items_concat(
                                body,
                                item_seq.subrange(0, idx as int),
                                seq![item_seq[idx as int]],
                            );
                            assert(seq![item_seq[idx as int]].skip(1)
                                =~= Seq::<Seq<char>>::empty());
                            assert(seq![item_seq[idx as int]][0] == item_seq[idx as int]);
                            assert(for_items(body, Seq::<Seq<char>>::empty())
                                == Seq::<char>::empty());
                            assert(for_items(body, seq![item_seq[idx as int]]) == for_piece(
                                body,
                                item_seq[idx as int],
                            ) + "\n"@ + Seq::<char>::empty());
                            assert(html@ =~= for_items(body, item_seq.subrange(0, idx + 1)));
                        }
                        idx += 1;
                    }
                    proof {
                        assert(item_seq.subrange(0, n as int) =~= item_seq);
                    }
                    Ok(html)
                },
            }
        },
        OperationType::Nosoported(e) => Ok(e.clone()),
    }
}

/// The view of a directive's body.
pub open spec fn content_body_view(c: &Conditional) -> ContentTypeView {
    *c@.expression
}

/// Renders the body of a satisfied `Equal` directive.
fn render_body(body: &ContentType, context: &Context) -> (r: Result<String, String>)
    ensures
        match r {
            Ok(h) => render_body_spec(body@, context@) == Ok::<Seq<char>, Seq<char>>(h@),
            Err(e) => render_body_spec(body@, context@) == Err::<Seq<char>, Seq<char>>(e@),
        },
    decreases *body, 1int,
{
    match body {
        ContentType::Literal(text) => Ok(text.clone()),
        ContentType::Tag(TagType::IfTag(data)) => generate_html_tag(&*data, context),
        ContentType::Tag(TagType::ForTag(data)) => generate_html_tag(&*data, context),
        ContentType::TemplateVariable(data) => render_expression(
            data.expression.as_str(),
            &data.var_map,
            context,
        ),
        ContentType::Unrecognized => Ok(String::new()),
    }
}

/// Renders one raw input line against the context: classification followed
/// by generation, with either side's error propagated.  One line in, one
/// rendered text unit out; the context is never changed.
pub fn render_line(line: &str, context: &Context) -> (r: Result<String, String>)
    ensures
        match r {
            Ok(h) => render_line_spec(line@, context@) == Ok::<Seq<char>, Seq<char>>(h@),
            Err(e) => render_line_spec(line@, context@) == Err::<Seq<char>, Seq<char>>(e@),
        },
{
    match get_content_type(line) {
        Err(e) => Err(e),
        Ok(content) => match content {
            ContentType::TemplateVariable(mut data) => generate_html_template_var(
                &mut data,
                context,
            ),
            ContentType::Literal(text) => Ok(text),
            ContentType::Tag(TagType::ForTag(content)) => generate_html_tag(&content, context),
            ContentType::Tag(TagType::IfTag(content)) => generate_html_tag(&content, context),
            ContentType::Unrecognized => Ok("Unrecognized input".to_owned()),
        },
    }
}

} // verus!
