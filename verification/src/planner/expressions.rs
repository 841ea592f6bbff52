//! From the expressions of a query to those of a plan.

use vstd::prelude::*;
use crate::error::{plan_error, result_view, ArborError, ErrorView};
use crate::float::{float_of_text, settle, settled, text_to_float};
use crate::parser::ast::{
    ArgView, BinaryOperator, Function, FunctionArg, OpView, SqlExpr, SqlView, Value, ValueView,
};
use crate::planner::logical_plan::{column_key, key_of, AggFunc, BinaryOp, Expr, ExprView};
use crate::text::{
    ends, ends_with, find_char, first_index, join2, join3, lemma_first_index, numeral_in, parse_i64,
};
use crate::types::{names, position, views, DataType, FieldView, ScalarValue, ScalarView, Schema};

verus! {

/// A text in upper case.
pub uninterp spec fn upper(s: Seq<char>) -> Seq<char>;

/// The character is one of the 128 of ASCII.
pub open spec fn is_ascii_char(c: char) -> bool {
    c as int <= 0x7f
}

/// An ASCII letter in upper case; any other ASCII character as it is.
pub open spec fn ascii_upper(c: char) -> int {
    if 'a' <= c && c <= 'z' { c as int - 32 } else { c as int }
}

/// `str::to_uppercase` of std. On ASCII text it maps each letter to its capital.
#[verifier::external_body]
pub(crate) fn to_upper(s: &str) -> (r: String)
    ensures
        r@ == upper(s@),
        (forall|i: int| 0 <= i < s@.len() ==> is_ascii_char(#[trigger] s@[i])) ==> r@.len()
            == s@.len() && forall|i: int|
            0 <= i < s@.len() ==> #[trigger] (r@[i]) as int == ascii_upper(s@[i]),
{
    s.to_uppercase()
}

/// The last part of a dotted name; nothing where there is none.
pub open spec fn last_part(parts: Seq<Seq<char>>) -> Seq<char> {
    if parts.len() == 0 { Seq::empty() } else { parts.last() }
}

/// The name of a function in upper case.
pub open spec fn upper_name(parts: Seq<Seq<char>>) -> Seq<char> {
    if parts.len() == 0 { Seq::empty() } else { upper(parts.last()) }
}

/// The aggregate function of a name in upper case.
pub open spec fn agg_func(name: Seq<char>) -> Option<AggFunc> {
    if name == "SUM"@ {
        Some(AggFunc::Sum)
    } else if name == "COUNT"@ {
        Some(AggFunc::Count)
    } else if name == "AVG"@ {
        Some(AggFunc::Avg)
    } else if name == "MIN"@ {
        Some(AggFunc::Min)
    } else if name == "MAX"@ {
        Some(AggFunc::Max)
    } else {
        None
    }
}

/// The expression is an aggregate, perhaps in parentheses or under a cast.
pub open spec fn is_aggregate(e: SqlView) -> bool
    decreases e,
{
    match e {
        SqlView::Function { name, .. } => agg_func(upper_name(name)) is Some,
        SqlView::Nested(inner) => is_aggregate(*inner),
        SqlView::Cast(inner) => is_aggregate(*inner),
        _ => false,
    }
}

/// The operator of the plan for an operator of the query.
pub open spec fn plan_op(op: OpView) -> Result<BinaryOp, ErrorView> {
    match op {
        OpView::Eq => Ok(BinaryOp::Eq),
        OpView::NotEq => Ok(BinaryOp::Neq),
        OpView::Lt => Ok(BinaryOp::Lt),
        OpView::Gt => Ok(BinaryOp::Gt),
        OpView::LtEq => Ok(BinaryOp::LtEq),
        OpView::GtEq => Ok(BinaryOp::GtEq),
        OpView::And => Ok(BinaryOp::And),
        OpView::Or => Ok(BinaryOp::Or),
        OpView::Plus => Ok(BinaryOp::Plus),
        OpView::Minus => Ok(BinaryOp::Minus),
        OpView::Multiply => Ok(BinaryOp::Mul),
        OpView::Divide => Ok(BinaryOp::Div),
        OpView::Other(s) => Err(ErrorView::Plan("unsupported binary operator: "@ + s)),
    }
}

/// The constant that a literal stands for: a number is an integer where it fits, else a float.
pub open spec fn literal(v: ValueView) -> Result<ScalarView, ErrorView> {
    match v {
        ValueView::Number(s) => match numeral_in(s, true, i64::MIN as int, i64::MAX as int) {
            Some(n) => Ok(ScalarView::Int64(n as i64)),
            None => match float_of_text(s) {
                Some(f) => Ok(ScalarView::Float64(settled(f))),
                None => Err(ErrorView::Plan("invalid number literal '"@ + s + "'"@)),
            },
        },
        ValueView::SingleQuoted(s) => Ok(ScalarView::Utf8(s)),
        ValueView::DoubleQuoted(s) => Ok(ScalarView::Utf8(s)),
        ValueView::Boolean(b) => Ok(ScalarView::Boolean(b)),
        ValueView::Null => Ok(ScalarView::Null),
        ValueView::Other(s) => Err(ErrorView::Plan("unsupported literal: "@ + s)),
    }
}

/// The field is `name`, or `name` under some qualifier.
pub open spec fn named_so(field: Seq<char>, name: Seq<char>) -> bool {
    field == name || ends(field, "."@ + name)
}

/// The indices of the fields that are `name` under some qualifier, ascending.
pub open spec fn suffix_matches(list: Seq<Seq<char>>, name: Seq<char>) -> Seq<int>
    decreases list.len(),
{
    if list.len() == 0 {
        Seq::empty()
    } else {
        let rest = suffix_matches(list.drop_last(), name);
        if named_so(list.last(), name) { rest.push(list.len() - 1) } else { rest }
    }
}

/// A field as a column: what stands before the first dot is the qualifier.
pub open spec fn split_field(field: Seq<char>, name: Seq<char>) -> ExprView {
    if field.contains('.') {
        let dot = first_index(field, '.');
        ExprView::Column { name: field.skip(dot + 1), relation: Some(field.take(dot)) }
    } else {
        ExprView::Column { name, relation: None }
    }
}

/// The column that a bare name means: the field of that name, else the only one that has it under
/// a qualifier.
pub open spec fn resolve(name: Seq<char>, schema: Seq<FieldView>) -> Result<ExprView, ErrorView> {
    if names(schema).contains(name) {
        Ok(ExprView::Column { name, relation: None })
    } else {
        let found = suffix_matches(names(schema), name);
        if found.len() == 1 {
            Ok(split_field(names(schema)[found[0]], name))
        } else if found.len() == 0 {
            Err(ErrorView::Plan("unknown column '"@ + name + "'"@))
        } else {
            Err(ErrorView::Plan("ambiguous column '"@ + name + "'"@))
        }
    }
}

/// The column that a dotted name means.
pub open spec fn resolve_compound(parts: Seq<Seq<char>>, schema: Seq<FieldView>) -> Result<
    ExprView,
    ErrorView,
> {
    if parts.len() != 2 {
        Err(ErrorView::Plan("qualified identifiers must have one qualifier"@))
    } else if names(schema).contains(parts[0] + "."@ + parts[1]) || names(schema).contains(
        parts[1],
    ) {
        Ok(ExprView::Column { name: parts[1], relation: Some(parts[0]) })
    } else {
        Err(ErrorView::Plan("unknown column "@ + parts[0] + "."@ + parts[1]))
    }
}

/// The plan's expression for an expression of the query.
pub open spec fn convert(e: SqlView, schema: Seq<FieldView>) -> Result<ExprView, ErrorView>
    decreases e,
{
    match e {
        SqlView::Identifier(name) => resolve(name, schema),
        SqlView::Compound(parts) => resolve_compound(parts, schema),
        SqlView::Value(v) => match literal(v) {
            Ok(s) => Ok(ExprView::Literal(s)),
            Err(x) => Err(x),
        },
        SqlView::Unary(op) => Err(ErrorView::Plan("unsupported unary operator: "@ + op)),
        SqlView::Binary { left, op, right } => match convert(*left, schema) {
            Err(x) => Err(x),
            Ok(l) => match plan_op(op) {
                Err(x) => Err(x),
                Ok(o) => match convert(*right, schema) {
                    Err(x) => Err(x),
                    Ok(r) => Ok(
                        ExprView::Binary { left: Box::new(l), op: o, right: Box::new(r) },
                    ),
                },
            },
        },
        SqlView::Nested(inner) => convert(*inner, schema),
        SqlView::Function { name, args } => match agg_func(upper_name(name)) {
            None => Err(ErrorView::Plan("unsupported function '"@ + upper_name(name) + "'"@)),
            Some(func) => if args.len() == 1 {
                match args[0] {
                    ArgView::Wildcard => Ok(
                        ExprView::Aggregate { func, arg: Box::new(ExprView::Wildcard) },
                    ),
                    ArgView::Expr(a) => match convert(a, schema) {
                        Ok(x) => Ok(ExprView::Aggregate { func, arg: Box::new(x) }),
                        Err(x) => Err(x),
                    },
                    ArgView::Other => Err(one_argument()),
                }
            } else {
                Err(one_argument())
            },
        },
        SqlView::Cast(_) => Err(ErrorView::Plan("CAST is not supported in planner"@)),
        SqlView::Other(s) => Err(ErrorView::Plan("unsupported expression in planner: "@ + s)),
    }
}

/// The error for an aggregate call that does not have one argument.
pub open spec fn one_argument() -> ErrorView {
    ErrorView::Plan("only single-argument aggregates (or COUNT(*)) supported"@)
}

/// The output name of an expression that has no label.
pub open spec fn default_name(e: ExprView) -> Seq<char> {
    match e {
        ExprView::Column { name, relation } => key_of(name, relation),
        ExprView::Alias { name, .. } => name,
        ExprView::Aggregate { func, .. } => match func {
            AggFunc::Sum => "sum"@,
            AggFunc::Count => "count"@,
            AggFunc::Avg => "avg"@,
            AggFunc::Min => "min"@,
            AggFunc::Max => "max"@,
        },
        _ => "expr"@,
    }
}

/// The operator computes a truth value.
pub open spec fn is_boolean_op(op: BinaryOp) -> bool {
    !(op == BinaryOp::Plus || op == BinaryOp::Minus || op == BinaryOp::Mul || op == BinaryOp::Div)
}

/// The type of a column: the field under its key, else the field under its bare name.
pub open spec fn column_type(
    name: Seq<char>,
    relation: Option<Seq<char>>,
    schema: Seq<FieldView>,
) -> Result<DataType, ErrorView> {
    match position(names(schema), key_of(name, relation)) {
        Some(i) => Ok(schema[i].data_type),
        None => match position(names(schema), name) {
            Some(i) => Ok(schema[i].data_type),
            None => Err(ErrorView::Plan("unknown column '"@ + name + "' in schema"@)),
        },
    }
}

/// The type of an expression over rows of a schema.
pub open spec fn infer(e: ExprView, schema: Seq<FieldView>) -> Result<DataType, ErrorView>
    decreases e,
{
    match e {
        ExprView::Column { name, relation } => column_type(name, relation, schema),
        ExprView::Literal(s) => Ok(
            match s {
                ScalarView::Int64(_) => DataType::Int64,
                ScalarView::Float64(_) => DataType::Float64,
                ScalarView::Utf8(_) => DataType::Utf8,
                ScalarView::Boolean(_) => DataType::Boolean,
                ScalarView::Null => DataType::Null,
            },
        ),
        ExprView::Aggregate { func, arg } => match func {
            AggFunc::Count => Ok(DataType::Int64),
            AggFunc::Avg => Ok(DataType::Float64),
            AggFunc::Sum => match infer(*arg, schema) {
                Ok(t) => Ok(if t == DataType::Int64 { DataType::Int64 } else { DataType::Float64 }),
                Err(x) => Err(x),
            },
            _ => infer(*arg, schema),
        },
        ExprView::Alias { expr, .. } => infer(*expr, schema),
        ExprView::Binary { left, op, right } => if is_boolean_op(op) {
            Ok(DataType::Boolean)
        } else {
            match infer(*left, schema) {
                Err(x) => Err(x),
                Ok(t) => match infer(*right, schema) {
                    Err(x) => Err(x),
                    Ok(_) => Ok(t),
                },
            }
        },
        ExprView::Wildcard => Ok(DataType::Int64),
    }
}

/// The last part of a dotted name; nothing where there is none.
pub fn object_name_last(parts: &Vec<String>) -> (r: String)
    ensures
        r@ == last_part(views(parts@)),
{
    if parts.len() == 0 {
        String::new()
    } else {
        parts[parts.len() - 1].clone()
    }
}

fn function_name_upper(f: &Function) -> (r: String)
    ensures
        r@ == upper_name(views(f.name@)),
{
    if f.name.len() == 0 {
        String::new()
    } else {
        to_upper(f.name[f.name.len() - 1].as_str())
    }
}

/// The aggregate function of a name in upper case.
fn agg_func_of(name: &str) -> (r: Option<AggFunc>)
    ensures
        r == agg_func(name@),
{
    if *name == *"SUM" {
        Some(AggFunc::Sum)
    } else if *name == *"COUNT" {
        Some(AggFunc::Count)
    } else if *name == *"AVG" {
        Some(AggFunc::Avg)
    } else if *name == *"MIN" {
        Some(AggFunc::Min)
    } else if *name == *"MAX" {
        Some(AggFunc::Max)
    } else {
        None
    }
}

fn function_is_aggregate(f: &Function) -> (r: bool)
    ensures
        r == (agg_func(upper_name(views(f.name@))) is Some),
{
    let name = function_name_upper(f);
    agg_func_of(name.as_str()).is_some()
}

/// Whether the expression is an aggregate, perhaps in parentheses or under a cast.
pub fn is_aggregate_sql_expr(e: &SqlExpr) -> (r: bool)
    ensures
        r == is_aggregate(e@),
    decreases e,
{
    match e {
        SqlExpr::Function(f) => function_is_aggregate(f),
        SqlExpr::Nested(inner) => is_aggregate_sql_expr(inner),
        SqlExpr::Cast(inner) => is_aggregate_sql_expr(inner),
        _ => false,
    }
}

fn map_binary_op(op: &BinaryOperator) -> (r: Result<BinaryOp, ArborError>)
    ensures
        match r {
            Ok(o) => plan_op(op@) == Ok::<BinaryOp, ErrorView>(o),
            Err(x) => plan_op(op@) == Err::<BinaryOp, ErrorView>(x@),
        },
{
    match op {
        BinaryOperator::Eq => Ok(BinaryOp::Eq),
        BinaryOperator::NotEq => Ok(BinaryOp::Neq),
        BinaryOperator::Lt => Ok(BinaryOp::Lt),
        BinaryOperator::Gt => Ok(BinaryOp::Gt),
        BinaryOperator::LtEq => Ok(BinaryOp::LtEq),
        BinaryOperator::GtEq => Ok(BinaryOp::GtEq),
        BinaryOperator::And => Ok(BinaryOp::And),
        BinaryOperator::Or => Ok(BinaryOp::Or),
        BinaryOperator::Plus => Ok(BinaryOp::Plus),
        BinaryOperator::Minus => Ok(BinaryOp::Minus),
        BinaryOperator::Multiply => Ok(BinaryOp::Mul),
        BinaryOperator::Divide => Ok(BinaryOp::Div),
        BinaryOperator::Other(s) => Err(
            ArborError::Plan(join2("unsupported binary operator: ", s.as_str())),
        ),
    }
}

fn sql_value_to_scalar(v: &Value) -> (r: Result<ScalarValue, ArborError>)
    ensures
        result_view(r) == literal(v@),
{
    match v {
        Value::Number(s) => {
            match parse_i64(s.as_str()) {
                Some(n) => return Ok(ScalarValue::Int64(n)),
                None => {},
            }
            match text_to_float(s.as_str()) {
                Some(f) => return Ok(ScalarValue::Float64(settle(f))),
                None => {},
            }
            Err(ArborError::Plan(join3("invalid number literal '", s.as_str(), "'")))
        },
        Value::SingleQuotedString(s) => Ok(ScalarValue::Utf8(s.clone())),
        Value::DoubleQuotedString(s) => Ok(ScalarValue::Utf8(s.clone())),
        Value::Boolean(b) => Ok(ScalarValue::Boolean(*b)),
        Value::Null => Ok(ScalarValue::Null),
        Value::Other(s) => Err(ArborError::Plan(join2("unsupported literal: ", s.as_str()))),
    }
}

/// Whether the schema has a field of that name.
fn has_field(schema: &Schema, name: &str) -> (r: bool)
    ensures
        r == names(schema@).contains(name@),
{
    proof {
        crate::types::lemma_position(names(schema@), name@);
    }
    schema.field_by_name(name).is_some()
}

fn resolve_unqualified_column(name: &str, input_schema: &Schema) -> (r: Result<Expr, ArborError>)
    ensures
        result_view(r) == resolve(name@, input_schema@),
{
    if has_field(input_schema, name) {
        return Ok(Expr::Column { name: name.to_string(), relation: None });
    }
    let ghost list = names(input_schema@);
    let dotted = join2(".", name);
    let mut found: Vec<usize> = Vec::new();
    let mut i: usize = 0;
    proof {
        assert(list.take(0) =~= Seq::empty());
    }
    while i < input_schema.fields.len()
        invariant
            i <= input_schema.fields.len(),
            list == names(input_schema@),
            dotted@ == "."@ + name@,
            found.len() == suffix_matches(list.take(i as int), name@).len(),
            forall|k: int|
                0 <= k < found.len() ==> (#[trigger] found[k]) as int == suffix_matches(
                    list.take(i as int),
                    name@,
                )[k] && found[k] < i,
        decreases input_schema.fields.len() - i,
    {
        proof {
            let t = list.take(i + 1);
            assert(t.drop_last() =~= list.take(i as int));
            assert(t.last() == input_schema.fields[i as int].name@);
        }
        let field = input_schema.fields[i].name.as_str();
        if *field == *name || ends_with(field, dotted.as_str()) {
            found.push(i);
        }
        i = i + 1;
    }
    proof {
        assert(list.take(i as int) =~= list);
    }
    if found.len() == 1 {
        let field = input_schema.fields[found[0]].name.as_str();
        proof {
            assert(field@ == list[suffix_matches(list, name@)[0]]);
            lemma_first_index(field@, '.');
        }
        return match find_char(field, '.') {
            Some(dot) => {
                let n: usize = field.unicode_len();
                let relation = field.substring_char(0, dot).to_string();
                let base = field.substring_char(dot + 1, n).to_string();
                proof {
                    assert(relation@ =~= field@.take(dot as int));
                    assert(base@ =~= field@.skip(dot + 1));
                    assert(field@.contains(field@[dot as int]));
                }
                Ok(Expr::Column { name: base, relation: Some(relation) })
            },
            None => Ok(Expr::Column { name: name.to_string(), relation: None }),
        };
    }
    if found.len() == 0 {
        return Err(ArborError::Plan(join3("unknown column '", name, "'")));
    }
    Err(ArborError::Plan(join3("ambiguous column '", name, "'")))
}

/// Converts an expression of a query into a planner [`Expr`] against `input_schema`.
pub fn convert_expr(sql_expr: &SqlExpr, input_schema: &Schema) -> (r: Result<Expr, ArborError>)
    ensures
        result_view(r) == convert(sql_expr@, input_schema@),
    decreases sql_expr,
{
    match sql_expr {
        SqlExpr::Identifier(id) => resolve_unqualified_column(id.as_str(), input_schema),
        SqlExpr::CompoundIdentifier(parts) => {
            if parts.len() != 2 {
                return Err(plan_error("qualified identifiers must have one qualifier"));
            }
            let rel = parts[0].clone();
            let name = parts[1].clone();
            let qualified = join3(rel.as_str(), ".", name.as_str());
            if has_field(input_schema, qualified.as_str()) {
                return Ok(Expr::Column { name, relation: Some(rel) });
            }
            if has_field(input_schema, name.as_str()) {
                return Ok(Expr::Column { name, relation: Some(rel) });
            }
            let text = join2("unknown column ", rel.as_str());
            Err(ArborError::Plan(join3(text.as_str(), ".", name.as_str())))
        },
        SqlExpr::Value(v) => match sql_value_to_scalar(v) {
            Ok(s) => Ok(Expr::Literal(s)),
            Err(x) => Err(x),
        },
        SqlExpr::UnaryOp(op) => Err(
            ArborError::Plan(join2("unsupported unary operator: ", op.as_str())),
        ),
        SqlExpr::BinaryOp { left, op, right } => {
            let l = match convert_expr(left, input_schema) {
                Ok(l) => l,
                Err(x) => return Err(x),
            };
            let o = match map_binary_op(op) {
                Ok(o) => o,
                Err(x) => return Err(x),
            };
            let r = match convert_expr(right, input_schema) {
                Ok(r) => r,
                Err(x) => return Err(x),
            };
            Ok(Expr::BinaryExpr { left: Box::new(l), op: o, right: Box::new(r) })
        },
        SqlExpr::Nested(inner) => convert_expr(inner, input_schema),
        SqlExpr::Function(f) => convert_sql_function(f, input_schema),
        SqlExpr::Cast(_) => Err(plan_error("CAST is not supported in planner")),
        SqlExpr::Other(s) => Err(
            ArborError::Plan(join2("unsupported expression in planner: ", s.as_str())),
        ),
    }
}

fn convert_sql_function(f: &Function, input_schema: &Schema) -> (r: Result<Expr, ArborError>)
    ensures
        result_view(r) == convert(SqlExpr::Function(*f)@, input_schema@),
    decreases f,
{
    let upper = function_name_upper(f);
    let func = match agg_func_of(upper.as_str()) {
        Some(func) => func,
        None => {
            return Err(ArborError::Plan(join3("unsupported function '", upper.as_str(), "'")));
        },
    };
    if f.args.len() != 1 {
        return Err(plan_error("only single-argument aggregates (or COUNT(*)) supported"));
    }
    proof {
        let whole = SqlExpr::Function(*f)@;
        assert(whole matches SqlView::Function { args, .. } && args.len() == 1 && args[0]
            == f.args[0]@);
        assert(f.args[0]@ == match f.args[0] {
            FunctionArg::Wildcard => ArgView::Wildcard,
            FunctionArg::Expr(e) => ArgView::Expr(e@),
            FunctionArg::Other => ArgView::Other,
        });
    }
    let arg = match &f.args[0] {
        FunctionArg::Wildcard => {
            let star = Expr::Wildcard;
            proof {
                assert(star@ == ExprView::Wildcard);
            }
            star
        },
        FunctionArg::Expr(e) => match convert_expr(e, input_schema) {
            Ok(x) => x,
            Err(x) => return Err(x),
        },
        FunctionArg::Other => {
            return Err(plan_error("only single-argument aggregates (or COUNT(*)) supported"));
        },
    };
    Ok(Expr::AggregateFunc { func, arg: Box::new(arg) })
}

/// The output name of an expression that has no label.
pub fn default_output_name(e: &Expr) -> (r: String)
    ensures
        r@ == default_name(e@),
{
    match e {
        Expr::Column { name, relation } => column_key(name.as_str(), relation.as_ref()),
        Expr::Alias { name, .. } => name.clone(),
        Expr::AggregateFunc { func, .. } => {
            let s = match func {
                AggFunc::Sum => "sum",
                AggFunc::Count => "count",
                AggFunc::Avg => "avg",
                AggFunc::Min => "min",
                AggFunc::Max => "max",
            };
            s.to_string()
        },
        _ => "expr".to_string(),
    }
}

/// A result by its value and the view of its error.
pub open spec fn outcome<T>(r: Result<T, ArborError>) -> Result<T, ErrorView> {
    match r {
        Ok(v) => Ok(v),
        Err(x) => Err(x@),
    }
}

/// The type of an expression over rows of `input_schema`.
pub fn infer_expr_type(e: &Expr, input_schema: &Schema) -> (r: Result<DataType, ArborError>)
    ensures
        outcome(r) == infer(e@, input_schema@),
    decreases e,
{
    match e {
        Expr::Column { name, relation } => {
            let key = column_key(name.as_str(), relation.as_ref());
            let idx: usize = match input_schema.index_of(key.as_str()) {
                Ok(i) => i,
                Err(_) => match input_schema.index_of(name.as_str()) {
                    Ok(i) => i,
                    Err(x) => return Err(x),
                },
            };
            Ok(input_schema.fields[idx].data_type.clone())
        },
        Expr::Literal(s) => Ok(
            match s {
                ScalarValue::Int64(_) => DataType::Int64,
                ScalarValue::Float64(_) => DataType::Float64,
                ScalarValue::Utf8(_) => DataType::Utf8,
                ScalarValue::Boolean(_) => DataType::Boolean,
                ScalarValue::Null => DataType::Null,
            },
        ),
        Expr::AggregateFunc { func, arg } => match func {
            AggFunc::Count => Ok(DataType::Int64),
            AggFunc::Avg => Ok(DataType::Float64),
            AggFunc::Sum => match infer_expr_type(arg, input_schema) {
                Ok(t) => match t {
                    DataType::Int64 => Ok(DataType::Int64),
                    _ => Ok(DataType::Float64),
                },
                Err(x) => Err(x),
            },
            AggFunc::Min => infer_expr_type(arg, input_schema),
            AggFunc::Max => infer_expr_type(arg, input_schema),
        },
        Expr::Alias { expr, .. } => infer_expr_type(expr, input_schema),
        Expr::BinaryExpr { left, op, right } => match op {
            BinaryOp::Eq
            | BinaryOp::Neq
            | BinaryOp::Lt
            | BinaryOp::Gt
            | BinaryOp::LtEq
            | BinaryOp::GtEq
            | BinaryOp::And
            | BinaryOp::Or => Ok(DataType::Boolean),
            _ => {
                let lt = match infer_expr_type(left, input_schema) {
                    Ok(t) => t,
                    Err(x) => return Err(x),
                };
                match infer_expr_type(right, input_schema) {
                    Ok(_) => Ok(lt),
                    Err(x) => Err(x),
                }
            },
        },
        Expr::Wildcard => Ok(DataType::Int64),
    }
}

} // verus!
