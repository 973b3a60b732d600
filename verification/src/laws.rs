//! Laws of the engine: properties that hold across the classifier and the
//! generator, stated over their specification models and proved once for all
//! inputs.

use vstd::prelude::*;
use crate::parser::{classify_spec, conditional_spec, matching_pair, ConditionalView, ContentTypeView, OperationTypeView, TagTypeView};
use crate::generator::{render_all, render_line_spec, render_tag_spec};
use crate::text::{contains_sub, ends_with, lemma_count_matches_zero, match_at};

verus! {

/// A line holding none of `{{`, `}}`, `{%`, `%}` classifies as a literal,
/// carrying the line itself unchanged.
pub proof fn lemma_plain_line_is_literal(s: Seq<char>)
    requires
        !contains_sub(s, "{{"@),
        !contains_sub(s, "}}"@),
        !contains_sub(s, "{%"@),
        !contains_sub(s, "%}"@),
    ensures
        classify_spec(s) == Ok::<ContentTypeView, Seq<char>>(ContentTypeView::Literal(s)),
{
    reveal_strlit("{{");
    reveal_strlit("}}");
    reveal_strlit("{%");
    reveal_strlit("%}");
    lemma_count_matches_zero(s, "{{"@);
    lemma_count_matches_zero(s, "}}"@);
    lemma_count_matches_zero(s, "{%"@);
    lemma_count_matches_zero(s, "%}"@);
}

/// A directive line that does not end in its closing tag is rejected with a
/// format error — a recoverable value, never an abort.
pub proof fn lemma_unterminated_directive_is_error(s: Seq<char>)
    requires
        matching_pair(s, "{%"@, "%}"@),
        (contains_sub(s, "for"@) && contains_sub(s, "in"@)) || contains_sub(s, "endfor"@)
            || contains_sub(s, "if"@) || contains_sub(s, "endif"@),
        !ends_with(s, "{% endif %}"@),
        !ends_with(s, "{% endfor %}"@),
    ensures
        classify_spec(s) == Err::<ContentTypeView, Seq<char>>("Invalid input format"@),
{
}

/// A condition whose name is unbound in the context renders as a blank,
/// not as an error: `Equal` looks its left operand up, `In` its right.
pub proof fn lemma_unbound_name_renders_blank(
    c: ConditionalView,
    ctx: Map<Seq<char>, Seq<Seq<char>>>,
)
    requires
        match c.condition.operation {
            OperationTypeView::Equal => !ctx.contains_key(c.condition.left_operand),
            OperationTypeView::In => !ctx.contains_key(c.condition.right_operand),
            OperationTypeView::Nosoported(_) => false,
        },
    ensures
        render_tag_spec(c, ctx) == Ok::<Seq<char>, Seq<char>>(" "@),
{
}

/// Whatever a line classifies to, the text a literal classification carries
/// is the line itself.
pub proof fn lemma_literal_carries_line(s: Seq<char>, t: Seq<char>)
    requires
        classify_spec(s) == Ok::<ContentTypeView, Seq<char>>(ContentTypeView::Literal(t)),
    ensures
        t == s,
{
}

/// Rendering a line that classified as a literal returns the line unchanged,
/// and classifying that output yields the same literal again: no residual
/// markers appear.
pub proof fn lemma_literal_render_stable(s: Seq<char>, ctx: Map<Seq<char>, Seq<Seq<char>>>)
    requires
        classify_spec(s) matches Ok(c) && c matches ContentTypeView::Literal(_),
    ensures
        render_line_spec(s, ctx) == Ok::<Seq<char>, Seq<char>>(s),
        classify_spec(s) == Ok::<ContentTypeView, Seq<char>>(ContentTypeView::Literal(s)),
{
    let c = classify_spec(s)->Ok_0;
    let t = c->Literal_0;
    lemma_literal_carries_line(s, t);
}

/// The empty text and a single blank classify as literals: they hold no
/// marker at all.
pub proof fn lemma_blank_is_literal(s: Seq<char>)
    requires
        s =~= Seq::<char>::empty() || s =~= " "@,
    ensures
        classify_spec(s) == Ok::<ContentTypeView, Seq<char>>(ContentTypeView::Literal(s)),
{
    reveal_strlit(" ");
    reveal_strlit("{{");
    reveal_strlit("}}");
    reveal_strlit("{%");
    reveal_strlit("%}");
    assert(s.len() <= 1);
    assert(forall|i: int| !match_at(s, "{{"@, i));
    assert(forall|i: int| !match_at(s, "}}"@, i));
    assert(forall|i: int| !match_at(s, "{%"@, i));
    assert(forall|i: int| !match_at(s, "%}"@, i));
    lemma_plain_line_is_literal(s);
}

/// Rendering an `Equal` directive whose body is literal text gives output
/// that classifies as a literal again: the body came from a classification
/// that found it literal, and the blank and empty outputs of the unbound and
/// unequal cases are literal too.
pub proof fn lemma_equal_literal_render_stable(s: Seq<char>, ctx: Map<Seq<char>, Seq<Seq<char>>>)
    requires
        classify_spec(s) matches Ok(c0) && c0 matches ContentTypeView::Tag(tag) && (match tag {
            TagTypeView::IfTag(c) => c.condition.operation is Equal && *c.expression
                is Literal,
            TagTypeView::ForTag(c) => c.condition.operation is Equal && *c.expression
                is Literal,
        }),
        render_line_spec(s, ctx) matches Ok(_),
    ensures
        classify_spec(render_line_spec(s, ctx)->Ok_0) == Ok::<ContentTypeView, Seq<char>>(
            ContentTypeView::Literal(render_line_spec(s, ctx)->Ok_0),
        ),
{
    let tag = classify_spec(s)->Ok_0->Tag_0;
    let c = match tag {
        TagTypeView::IfTag(c) => *c,
        TagTypeView::ForTag(c) => *c,
    };
    let o = render_line_spec(s, ctx)->Ok_0;
    assert(render_tag_spec(c, ctx) == Ok::<Seq<char>, Seq<char>>(o));
    if !ctx.contains_key(c.condition.left_operand) {
        assert(o == " "@);
        lemma_blank_is_literal(o);
    } else if split_by_tokens(c.condition.right_operand) == ctx[c.condition.left_operand] {
        let t = (*c.expression)->Literal_0;
        assert(o == t);
        assert(conditional_spec(s) == Ok::<ConditionalView, Seq<char>>(c));
        lemma_directive_body_reclassifies(s, c);
        assert(classify_spec(t) == Ok::<ContentTypeView, Seq<char>>(ContentTypeView::Literal(t)));
    } else {
        assert(o =~= Seq::<char>::empty());
        lemma_blank_is_literal(o);
    }
}

/// The space-separated tokens an `Equal` comparison uses.
pub open spec fn split_by_tokens(right: Seq<char>) -> Seq<Seq<char>> {
    crate::text::split_by(right, " "@)
}

/// A parsed directive's body is exactly what classifying the trimmed body
/// text produced, so classifying a literal body's text again yields the same
/// literal.
pub proof fn lemma_directive_body_reclassifies(s: Seq<char>, c: ConditionalView)
    requires
        conditional_spec(s) == Ok::<ConditionalView, Seq<char>>(c),
        *c.expression is Literal,
    ensures
        classify_spec((*c.expression)->Literal_0) == Ok::<ContentTypeView, Seq<char>>(
            ContentTypeView::Literal((*c.expression)->Literal_0),
        ),
{
    let t = (*c.expression)->Literal_0;
    lemma_conditional_body_classified(s, c);
    let body = choose|body: Seq<char>|
        classify_spec(body) == Ok::<ContentTypeView, Seq<char>>(*c.expression);
    lemma_literal_carries_line(body, t);
}

/// A successful directive parse classified some body text into the
/// directive's body.
pub proof fn lemma_conditional_body_classified(s: Seq<char>, c: ConditionalView)
    requires
        conditional_spec(s) == Ok::<ConditionalView, Seq<char>>(c),
    ensures
        exists|body: Seq<char>|
            classify_spec(body) == Ok::<ContentTypeView, Seq<char>>(*c.expression),
{
    if ends_with(s, "{% endif %}"@) || ends_with(s, "{% endfor %}"@) {
        let start = match crate::text::first_match(s, "{% if "@) {
            Some(i) => i + "{% if "@.len(),
            None => match crate::text::first_match(s, "{% for "@) {
                Some(j) => j + "{% for "@.len(),
                None => -1,
            },
        };
        if start >= 0 {
            match crate::text::first_match(s, " %}"@) {
                None => {},
                Some(end_condition) => {
                    let end_expr = match crate::text::first_match(s, "{% endif %}"@) {
                        Some(i) => i,
                        None => match crate::text::first_match(s, "{% endfor %}"@) {
                            Some(j) => j,
                            None => -1,
                        },
                    };
                    if 0 <= end_expr && start < end_condition && end_condition + 3 <= end_expr {
                        let body = crate::text::trimmed(
                            s.subrange(end_condition + 3, end_expr),
                        );
                        assert(classify_spec(body) == Ok::<ContentTypeView, Seq<char>>(
                            *c.expression,
                        ));
                    }
                },
            }
        }
    }
}

/// Per-line rendering is a pure function of the line and the context, so
/// rendering the same lines in any shuffled order gives the same outputs,
/// matched position for position through the shuffle.
pub proof fn lemma_render_order_independent(
    lines1: Seq<Seq<char>>,
    lines2: Seq<Seq<char>>,
    perm: Seq<int>,
    ctx: Map<Seq<char>, Seq<Seq<char>>>,
)
    requires
        perm.len() == lines1.len(),
        lines2.len() == lines1.len(),
        forall|j: int| 0 <= j < perm.len() ==> 0 <= #[trigger] perm[j] < lines1.len(),
        forall|j: int| 0 <= j < perm.len() ==> lines2[j] == lines1[#[trigger] perm[j]],
    ensures
        forall|j: int|
            0 <= j < perm.len() ==> render_all(lines2, ctx)[j] == render_all(lines1, ctx)[#[trigger] perm[j]],
{
}

} // verus!
