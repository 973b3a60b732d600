//! The classifier and tag parser of the templating engine.
//!
//! One input line is classified as literal text, a template variable, an
//! `if`/`for` directive, or unrecognized content.  A directive line carries a
//! condition (`LEFT OP RIGHT`) and a body, itself classified recursively, so
//! directives may nest within one line.  Malformed directives are reported as
//! recoverable errors, never as aborts.

use vstd::prelude::*;
use crate::text::{
    contains_sub, contains_sub_exec, count_matches, count_sub, ends_with, ends_with_exec,
    find_char, find_sub, first_char, first_match, lemma_first_match_from, lemma_trimmed_len,
    split_by, split_by_exec, str_eq, trim_exec, trimmed, words_of, split_ws,
};

verus! {

// ---------------------------------------------------------------------------
// The content types
// ---------------------------------------------------------------------------

/// What one input line can be.
#[derive(Debug, PartialEq)]
pub enum ContentType {
    Literal(String),
    TemplateVariable(ExpressionData),
    Tag(TagType),
    Unrecognized,
}

/// A line holding `{{name}}` placeholders: the line itself, the placeholder
/// tokens found in it, and the output buffer the generator fills.
#[derive(Debug, PartialEq)]
pub struct ExpressionData {
    pub expression: String,
    pub var_map: Vec<String>,
    pub gen_html: String,
}

/// A parsed directive: its condition and its classified body.
#[derive(Debug, PartialEq)]
pub struct Conditional {
    pub condition: ConditionData,
    pub expression: Box<ContentType>,
}

/// A structured condition: `LEFT OP RIGHT`.
#[derive(Debug, PartialEq)]
pub struct ConditionData {
    pub left_operand: String,
    pub operation: OperationType,
    pub right_operand: String,
}

/// The comparison a condition asks for.
#[derive(Debug, PartialEq)]
pub enum OperationType {
    Equal,
    In,
    Nosoported(String),
}

/// Which directive a tag line is.
#[derive(Debug, PartialEq)]
pub enum TagType {
    ForTag(Box<Conditional>),
    IfTag(Box<Conditional>),
}

// ---------------------------------------------------------------------------
// Mathematical views of the content types
// ---------------------------------------------------------------------------

pub enum ContentTypeView {
    Literal(Seq<char>),
    TemplateVariable(ExpressionDataView),
    Tag(TagTypeView),
    Unrecognized,
}

pub struct ExpressionDataView {
    pub expression: Seq<char>,
    pub var_map: Seq<Seq<char>>,
    pub gen_html: Seq<char>,
}

pub struct ConditionalView {
    pub condition: ConditionDataView,
    pub expression: Box<ContentTypeView>,
}

pub struct ConditionDataView {
    pub left_operand: Seq<char>,
    pub operation: OperationTypeView,
    pub right_operand: Seq<char>,
}

pub enum OperationTypeView {
    Equal,
    In,
    Nosoported(Seq<char>),
}

pub enum TagTypeView {
    ForTag(Box<ConditionalView>),
    IfTag(Box<ConditionalView>),
}

pub open spec fn content_type_view(c: ContentType) -> ContentTypeView
    decreases c,
{
    match c {
        ContentType::Literal(s) => ContentTypeView::Literal(s@),
        ContentType::TemplateVariable(e) => ContentTypeView::TemplateVariable(e@),
        ContentType::Tag(t) => ContentTypeView::Tag(tag_type_view(t)),
        ContentType::Unrecognized => ContentTypeView::Unrecognized,
    }
}

pub open spec fn tag_type_view(t: TagType) -> TagTypeView
    decreases t,
{
    match t {
        TagType::ForTag(c) => TagTypeView::ForTag(Box::new(conditional_view(*c))),
        TagType::IfTag(c) => TagTypeView::IfTag(Box::new(conditional_view(*c))),
    }
}

pub open spec fn conditional_view(c: Conditional) -> ConditionalView
    decreases c,
{
    ConditionalView {
        condition: c.condition@,
        expression: Box::new(content_type_view(*c.expression)),
    }
}

impl View for ContentType {
    type V = ContentTypeView;

    open spec fn view(&self) -> ContentTypeView {
        content_type_view(*self)
    }
}

impl View for TagType {
    type V = TagTypeView;

    open spec fn view(&self) -> TagTypeView {
        tag_type_view(*self)
    }
}

impl View for Conditional {
    type V = ConditionalView;

    open spec fn view(&self) -> ConditionalView {
        conditional_view(*self)
    }
}

impl View for ExpressionData {
    type V = ExpressionDataView;

    open spec fn view(&self) -> ExpressionDataView {
        ExpressionDataView {
            expression: self.expression@,
            var_map: self.var_map.deep_view(),
            gen_html: self.gen_html@,
        }
    }
}

impl View for ConditionData {
    type V = ConditionDataView;

    open spec fn view(&self) -> ConditionDataView {
        ConditionDataView {
            left_operand: self.left_operand@,
            operation: self.operation@,
            right_operand: self.right_operand@,
        }
    }
}

impl View for OperationType {
    type V = OperationTypeView;

    open spec fn view(&self) -> OperationTypeView {
        match self {
            OperationType::Equal => OperationTypeView::Equal,
            OperationType::In => OperationTypeView::In,
            OperationType::Nosoported(m) => OperationTypeView::Nosoported(m@),
        }
    }
}

// ---------------------------------------------------------------------------
// The classification, modelled
// ---------------------------------------------------------------------------

/// Both markers of a pair occur equally often, and at least once.
pub open spec fn matching_pair(s: Seq<char>, left: Seq<char>, right: Seq<char>) -> bool {
    count_matches(s, left) == count_matches(s, right) && count_matches(s, left) != 0
}

/// A whitespace-delimited token is a placeholder when it holds both markers.
pub open spec fn is_placeholder_token(t: Seq<char>) -> bool {
    contains_sub(t, "{{"@) && contains_sub(t, "}}"@)
}

pub open spec fn placeholder_pred() -> spec_fn(Seq<char>) -> bool {
    |t: Seq<char>| is_placeholder_token(t)
}

/// The expression data extracted from a variable line: the line itself, its
/// whitespace-delimited placeholder tokens in order (duplicates kept), and an
/// empty output buffer.
pub open spec fn expr_data_spec(s: Seq<char>) -> ExpressionDataView {
    ExpressionDataView {
        expression: s,
        var_map: words_of(s).filter(placeholder_pred()),
        gen_html: Seq::<char>::empty(),
    }
}

/// The operation a condition's operator token stands for.
pub open spec fn operation_of(op: Seq<char>) -> OperationTypeView {
    if op == "="@ {
        OperationTypeView::Equal
    } else if op == "in"@ {
        OperationTypeView::In
    } else {
        OperationTypeView::Nosoported("Unrecognized operator"@)
    }
}

/// Splitting a condition on one operator: exactly two parts, each trimmed.
pub open spec fn split_cond_spec(t: Seq<char>, op: Seq<char>) -> Result<
    ConditionDataView,
    Seq<char>,
> {
    let parts = split_by(t, op);
    if parts.len() != 2 {
        Err("Invalid format"@)
    } else {
        Ok(
            ConditionDataView {
                left_operand: trimmed(parts[0]),
                operation: operation_of(op),
                right_operand: trimmed(parts[1]),
            },
        )
    }
}

/// A condition is split on the first operator of the fixed, ordered list
/// `>`, `>=`, `=`, `<=`, `<`, `in` that occurs in its trimmed text; when none
/// occurs, or the split gives other than two parts, the condition is invalid.
pub open spec fn condition_spec(c: Seq<char>) -> Result<ConditionDataView, Seq<char>> {
    let t = trimmed(c);
    if contains_sub(t, ">"@) {
        split_cond_spec(t, ">"@)
    } else if contains_sub(t, ">="@) {
        split_cond_spec(t, ">="@)
    } else if contains_sub(t, "="@) {
        split_cond_spec(t, "="@)
    } else if contains_sub(t, "<="@) {
        split_cond_spec(t, "<="@)
    } else if contains_sub(t, "<"@) {
        split_cond_spec(t, "<"@)
    } else if contains_sub(t, "in"@) {
        split_cond_spec(t, "in"@)
    } else {
        Err("Invalid format"@)
    }
}

/// How a directive line is taken apart: it must end with a closing tag; the
/// condition runs from just after `{% if ` (or `{% for `) to the first ` %}`;
/// the body runs from there to the first closing tag and is classified
/// recursively after trimming.
pub open spec fn conditional_spec(s: Seq<char>) -> Result<ConditionalView, Seq<char>>
    decreases s.len(), 0int,
    via conditional_spec_decreases
{
    if !ends_with(s, "{% endif %}"@) && !ends_with(s, "{% endfor %}"@) {
        Err("Invalid input format"@)
    } else {
        let start = match first_match(s, "{% if "@) {
            Some(i) => i + "{% if "@.len(),
            None => match first_match(s, "{% for "@) {
                Some(j) => j + "{% for "@.len(),
                None => -1,
            },
        };
        if start < 0 {
            Err("Invalid input format"@)
        } else {
            match first_match(s, " %}"@) {
                None => Err("Invalid input format"@),
                Some(end_condition) => {
                    let end_expr = match first_match(s, "{% endif %}"@) {
                        Some(i) => i,
                        None => match first_match(s, "{% endfor %}"@) {
                            Some(j) => j,
                            None => -1,
                        },
                    };
                    if end_expr < 0 {
                        Err("Invalid input format"@)
                    } else if start >= end_condition {
                        Err("Invalid input format"@)
                    } else if end_expr < end_condition + 3 {
                        Err("Invalid input format"@)
                    } else {
                        match condition_spec(s.subrange(start, end_condition)) {
                            Err(e) => Err(e),
                            Ok(cond) => {
                                let body = trimmed(s.subrange(end_condition + 3, end_expr));
                                match classify_spec(body) {
                                    Err(e) => Err(e),
                                    Ok(inner) => Ok(
                                        ConditionalView {
                                            condition: cond,
                                            expression: Box::new(inner),
                                        },
                                    ),
                                }
                            },
                        }
                    }
                },
            }
        }
    }
}

#[via_fn]
proof fn conditional_spec_decreases(s: Seq<char>) {
    reveal_strlit("{% endif %}");
    reveal_strlit("{% endfor %}");
    reveal_strlit(" %}");
    lemma_first_match_from(s, "{% endif %}"@, 0);
    lemma_first_match_from(s, "{% endfor %}"@, 0);
    lemma_first_match_from(s, " %}"@, 0);
    if ends_with(s, "{% endif %}"@) || ends_with(s, "{% endfor %}"@) {
        match first_match(s, " %}"@) {
            None => {},
            Some(end_condition) => {
                let end_expr = match first_match(s, "{% endif %}"@) {
                    Some(i) => i,
                    None => match first_match(s, "{% endfor %}"@) {
                        Some(j) => j,
                        None => -1,
                    },
                };
                if 0 <= end_expr && end_condition + 3 <= end_expr {
                    lemma_trimmed_len(s.subrange(end_condition + 3, end_expr));
                }
            },
        }
    }
}

/// How one line is classified.  Marker counting decides the shape; the
/// keyword tests are plain substring containment; a directive line is parsed
/// and its parse error, if any, surfaces as the classification's error.
pub open spec fn classify_spec(s: Seq<char>) -> Result<ContentTypeView, Seq<char>>
    decreases s.len(), 1int,
{
    let is_tag = matching_pair(s, "{%"@, "%}"@);
    let is_for = (contains_sub(s, "for"@) && contains_sub(s, "in"@)) || contains_sub(
        s,
        "endfor"@,
    );
    let is_if = contains_sub(s, "if"@) || contains_sub(s, "endif"@);
    let is_var = matching_pair(s, "{{"@, "}}"@);
    if is_tag && is_for {
        match conditional_spec(s) {
            Ok(c) => Ok(ContentTypeView::Tag(TagTypeView::ForTag(Box::new(c)))),
            Err(e) => Err(e),
        }
    } else if is_tag && is_if {
        match conditional_spec(s) {
            Ok(c) => Ok(ContentTypeView::Tag(TagTypeView::IfTag(Box::new(c)))),
            Err(e) => Err(e),
        }
    } else if is_var {
        Ok(ContentTypeView::TemplateVariable(expr_data_spec(s)))
    } else if !is_tag && !is_var {
        Ok(ContentTypeView::Literal(s))
    } else {
        Ok(ContentTypeView::Unrecognized)
    }
}

// ---------------------------------------------------------------------------
// The classifier and parser, executable
// ---------------------------------------------------------------------------

/// Whether `pattern` occurs in `input`.
pub fn check_symbol_string(input: &str, pattern: &str) -> (b: bool)
    ensures
        b == contains_sub(input@, pattern@),
{
    contains_sub_exec(input, pattern)
}

/// Whether the markers of a pair occur equally often, and at least once.
pub fn check_matching_pair(input: &str, left_pat: &str, right_pat: &str) -> (b: bool)
    requires
        left_pat@.len() >= 1,
        right_pat@.len() >= 1,
    ensures
        b == matching_pair(input@, left_pat@, right_pat@),
{
    let count_left_pattern = count_sub(input, left_pat);
    let count_right_pattern = count_sub(input, right_pat);
    count_left_pattern == count_right_pattern && count_left_pattern != 0
}

/// The starting index of the first occurrence of `symbol` in `input`.
pub fn get_index_for_symbol(input: &str, symbol: char) -> (r: Option<usize>)
    ensures
        match r {
            Some(u) => first_char(input@, symbol) == Some(u as int),
            None => first_char(input@, symbol) is None,
        },
{
    find_char(input, symbol)
}

/// Collects the whitespace-delimited placeholder tokens of a variable line.
pub fn get_expression_data(input: &str) -> (e: ExpressionData)
    ensures
        e@ == expr_data_spec(input@),
{
    let words = split_ws(input);
    let mut var_map: Vec<String> = Vec::new();
    let n = words.len();
    let mut i: usize = 0;
    proof {
        assert(words_of(input@).subrange(0, 0) =~= Seq::<Seq<char>>::empty());
        reveal(Seq::filter);
        assert(var_map.deep_view() =~= words_of(input@).subrange(0, 0).filter(
            placeholder_pred(),
        ));
    }
    while i < n
        invariant
            i <= n,
            n == words@.len(),
            words.deep_view() == words_of(input@),
            var_map.deep_view() == words_of(input@).subrange(0, i as int).filter(
                placeholder_pred(),
            ),
        decreases n - i,
    {
        let ghost taken = words_of(input@).subrange(0, i as int);
        let w = &words[i];
        proof {
            assert(w@ == words.deep_view()[i as int]);
        }
        if check_symbol_string(w.as_str(), "{{") && check_symbol_string(w.as_str(), "}}") {
            let ghost prev = var_map.deep_view();
            var_map.push(words[i].clone());
            proof {
                assert(var_map.deep_view() =~= prev.push(w@));
            }
        }
        proof {
            reveal(Seq::filter);
            let next = words_of(input@).subrange(0, i + 1);
            assert(next.drop_last() =~= taken);
            assert(next.last() == w@);
            assert(next.filter(placeholder_pred()) == if is_placeholder_token(w@) {
                taken.filter(placeholder_pred()).push(w@)
            } else {
                taken.filter(placeholder_pred())
            });
        }
        i += 1;
    }
    proof {
        assert(words_of(input@).subrange(0, n as int) =~= words_of(input@));
    }
    ExpressionData { expression: input.to_owned(), var_map, gen_html: String::new() }
}

/// The operation an operator token stands for.
pub fn get_operation_type(input: &str) -> (r: OperationType)
    ensures
        r@ == operation_of(input@),
{
    if str_eq(input, "=") {
        OperationType::Equal
    } else if str_eq(input, "in") {
        OperationType::In
    } else {
        OperationType::Nosoported("Unrecognized operator".to_owned())
    }
}

/// Splits the trimmed condition text `t` once on `op`.
fn split_condition(t: &str, op: &str) -> (r: Result<ConditionData, String>)
    requires
        op@.len() >= 1,
    ensures
        match r {
            Ok(c) => split_cond_spec(t@, op@) == Ok::<ConditionDataView, Seq<char>>(c@),
            Err(e) => split_cond_spec(t@, op@) == Err::<ConditionDataView, Seq<char>>(e@),
        },
{
    let parts = split_by_exec(t, op);
    if parts.len() != 2 {
        return Err("Invalid format".to_owned());
    }
    proof {
        assert(parts@[0].deep_view() == parts.deep_view()[0]);
        assert(parts@[1].deep_view() == parts.deep_view()[1]);
    }
    let left_operand = trim_exec(parts[0].as_str());
    let right_operand = trim_exec(parts[1].as_str());
    let operation = get_operation_type(op);
    Ok(ConditionData { left_operand, operation, right_operand })
}

/// Structures a condition: the text between a directive's keyword and its
/// ` %}`, split on the first operator of the fixed list that occurs in it.
pub fn get_conditional_expression(input: &str) -> (r: Result<ConditionData, String>)
    ensures
        match r {
            Ok(c) => condition_spec(input@) == Ok::<ConditionDataView, Seq<char>>(c@),
            Err(e) => condition_spec(input@) == Err::<ConditionDataView, Seq<char>>(e@),
        },
{
    let t = trim_exec(input);
    proof {
        reveal_strlit(">");
        reveal_strlit(">=");
        reveal_strlit("=");
        reveal_strlit("<=");
        reveal_strlit("<");
        reveal_strlit("in");
    }
    if check_symbol_string(t.as_str(), ">") {
        split_condition(t.as_str(), ">")
    } else if check_symbol_string(t.as_str(), ">=") {
        split_condition(t.as_str(), ">=")
    } else if check_symbol_string(t.as_str(), "=") {
        split_condition(t.as_str(), "=")
    } else if check_symbol_string(t.as_str(), "<=") {
        split_condition(t.as_str(), "<=")
    } else if check_symbol_string(t.as_str(), "<") {
        split_condition(t.as_str(), "<")
    } else if check_symbol_string(t.as_str(), "in") {
        split_condition(t.as_str(), "in")
    } else {
        Err("Invalid format".to_owned())
    }
}

/// Parses a directive line into its condition and its classified body.
pub fn get_conditional_data(input: &str) -> (r: Result<Conditional, String>)
    ensures
        match r {
            Ok(c) => conditional_spec(input@) == Ok::<ConditionalView, Seq<char>>(c@),
            Err(e) => conditional_spec(input@) == Err::<ConditionalView, Seq<char>>(e@),
        },
    decreases input@.len(), 0int,
{
    let n = input.unicode_len();
    proof {
        reveal_strlit("{% endif %}");
        reveal_strlit("{% endfor %}");
        reveal_strlit("{% if ");
        reveal_strlit("{% for ");
        reveal_strlit(" %}");
        lemma_first_match_from(input@, "{% if "@, 0);
        lemma_first_match_from(input@, "{% for "@, 0);
        lemma_first_match_from(input@, " %}"@, 0);
        lemma_first_match_from(input@, "{% endif %}"@, 0);
        lemma_first_match_from(input@, "{% endfor %}"@, 0);
    }
    if !ends_with_exec(input, "{% endif %}") && !ends_with_exec(input, "{% endfor %}") {
        return Err("Invalid input format".to_owned());
    }
    let start = match find_sub(input, "{% if ") {
        Some(i) => i + 6,
        None => match find_sub(input, "{% for ") {
            Some(j) => j + 7,
            None => {
                return Err("Invalid input format".to_owned());
            },
        },
    };
    let end_condition = match find_sub(input, " %}") {
        Some(e) => e,
        None => {
            return Err("Invalid input format".to_owned());
        },
    };
    let end_expr = match find_sub(input, "{% endif %}") {
        Some(e) => e,
        None => match find_sub(input, "{% endfor %}") {
            Some(e) => e,
            None => {
                return Err("Invalid input format".to_owned());
            },
        },
    };
    if start >= end_condition {
        return Err("Invalid input format".to_owned());
    }
    if end_expr < end_condition + 3 {
        return Err("Invalid input format".to_owned());
    }
    let cond_text = input.substring_char(start, end_condition);
    let condition = match get_conditional_expression(cond_text) {
        Ok(c) => c,
        Err(e) => {
            return Err(e);
        },
    };
    let body_raw = input.substring_char(end_condition + 3, end_expr);
    let body = trim_exec(body_raw);
    proof {
        lemma_trimmed_len(body_raw@);
    }
    match get_content_type(body.as_str()) {
        Ok(inner) => Ok(Conditional { condition, expression: Box::new(inner) }),
        Err(e) => Err(e),
    }
}

/// Classifies one input line.  The entry point of the parser.
pub fn get_content_type(input: &str) -> (r: Result<ContentType, String>)
    ensures
        match r {
            Ok(c) => classify_spec(input@) == Ok::<ContentTypeView, Seq<char>>(c@),
            Err(e) => classify_spec(input@) == Err::<ContentTypeView, Seq<char>>(e@),
        },
    decreases input@.len(), 1int,
{
    proof {
        reveal_strlit("{%");
        reveal_strlit("%}");
        reveal_strlit("{{");
        reveal_strlit("}}");
    }
    let is_tag_expression = check_matching_pair(input, "{%", "%}");
    let is_for_tag = (check_symbol_string(input, "for") && check_symbol_string(input, "in"))
        || check_symbol_string(input, "endfor");
    let is_if_tag = check_symbol_string(input, "if") || check_symbol_string(input, "endif");
    let is_template_variable = check_matching_pair(input, "{{", "}}");
    if is_tag_expression && is_for_tag {
        match get_conditional_data(input) {
            Ok(content) => Ok(ContentType::Tag(TagType::ForTag(Box::new(content)))),
            Err(e) => Err(e),
        }
    } else if is_tag_expression && is_if_tag {
        match get_conditional_data(input) {
            Ok(content) => Ok(ContentType::Tag(TagType::IfTag(Box::new(content)))),
            Err(e) => Err(e),
        }
    } else if is_template_variable {
        Ok(ContentType::TemplateVariable(get_expression_data(input)))
    } else if !is_tag_expression && !is_template_variable {
        Ok(ContentType::Literal(input.to_owned()))
    } else {
        Ok(ContentType::Unrecognized)
    }
}

} // verus!
