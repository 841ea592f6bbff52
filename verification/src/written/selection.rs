//! The rows of a SELECT without aggregates: WHERE and the SELECT list.

use vstd::prelude::*;
use crate::executor::batch::Cell;
use crate::executor::expr_eval::column_at;
use crate::executor::sums::Sums;
use crate::optimizer::predicate_pushdown::{bindings, strip_alias, substitute};
use crate::parser::ast::{GroupByView, ItemView, SelectView, SqlView};
use crate::planner::expressions::{convert, default_name, last_part};
use crate::planner::logical_plan::{key_of, ExprView, PlanView};
use crate::planner::query::{
    belongs, from_plan, item_outputs, lists_aggregate, relation_outputs, select_plan,
    selection_plan, simple_outputs,
};
use crate::semantics::pushdown::lemma_bindings;
use crate::semantics::values::lemma_rows_where_same;
use crate::semantics::where_below::where_below;
use crate::semantics::{
    expr_type, fields_of, holds, meaning, projected_row, projected_rows, value_in,
};
use crate::types::{lemma_position, names, FieldView};
use crate::written::conditions::{
    decided, law_expressions_have_their_value, law_where_selects, lemma_named_column,
};
use crate::written::tables::{
    from_fields, from_rows, law_from_gives_joined_rows, lemma_filter_fits, linked, tables_typed,
};
use crate::written::{divides, field_named, is_true, row_fits, type_of, value_of};

verus! {

/// The cells of the fields that have the qualifier, in order.
pub open spec fn cells_under(fields: Seq<FieldView>, row: Seq<Cell>, qualifier: Seq<char>) -> Seq<Cell>
    decreases fields.len(),
{
    if fields.len() == 0 {
        Seq::empty()
    } else {
        let rest = cells_under(fields.drop_last(), row, qualifier);
        if exists|name: Seq<char>| fields.last().name == #[trigger] (qualifier + "."@) + name {
            rest.push(row[fields.len() - 1])
        } else {
            rest
        }
    }
}

/// The values that one item of a SELECT list gives in a row.
pub open spec fn item_values(item: ItemView, fields: Seq<FieldView>, row: Seq<Cell>) -> Seq<Cell> {
    match item {
        ItemView::Unnamed(e) => seq![value_of(e, fields, row)],
        ItemView::Aliased { expr, .. } => seq![value_of(expr, fields, row)],
        ItemView::Wildcard => row,
        ItemView::QualifiedWildcard(parts) => cells_under(
            fields,
            row,
            if parts.len() == 0 { Seq::empty() } else { parts.last() },
        ),
    }
}

/// The row that a SELECT list makes of a row: the values of its items, one after the other.
pub open spec fn selected(items: Seq<ItemView>, fields: Seq<FieldView>, row: Seq<Cell>) -> Seq<Cell>
    decreases items.len(),
{
    if items.len() == 0 {
        Seq::empty()
    } else {
        item_values(items[0], fields, row) + selected(items.skip(1), fields, row)
    }
}

/// The expression without parentheses around it.
pub open spec fn bare(e: SqlView) -> SqlView
    decreases e,
{
    match e {
        SqlView::Nested(inner) => bare(*inner),
        _ => e,
    }
}

/// The expression is the name of a column.
pub open spec fn is_name(e: SqlView) -> bool {
    e is Identifier || e is Compound
}

/// The whole name that a name stands for.
pub open spec fn whole_name(e: SqlView, fields: Seq<FieldView>) -> Seq<char> {
    match e {
        SqlView::Compound(parts) => parts[0] + "."@ + parts[1],
        _ => fields[field_named(e, fields)].name,
    }
}

/// What an item without a label is called: a column by its whole name, anything else `expr`.
pub open spec fn own_label(e: SqlView, fields: Seq<FieldView>) -> Seq<char> {
    if is_name(bare(e)) { whole_name(bare(e), fields) } else { "expr"@ }
}

/// The expression reads no column under the name, but for the field `i` where it is given.
pub open spec fn reads_only(
    e: SqlView,
    fields: Seq<FieldView>,
    name: Seq<char>,
    i: Option<int>,
) -> bool
    decreases e,
{
    match e {
        SqlView::Identifier(_) => whole_name(e, fields) == name ==> i == Some(
            field_named(e, fields),
        ),
        SqlView::Compound(_) => whole_name(e, fields) == name ==> i == Some(field_named(e, fields)),
        SqlView::Binary { left, right, .. } => reads_only(*left, fields, name, i) && reads_only(
            *right,
            fields,
            name,
            i,
        ),
        SqlView::Nested(inner) => reads_only(*inner, fields, name, i),
        _ => true,
    }
}

/// The field that an expression is, where it is the name of one.
pub open spec fn field_of(e: SqlView, fields: Seq<FieldView>) -> Option<int> {
    if is_name(bare(e)) { Some(field_named(bare(e), fields)) } else { None }
}

/// The item gives nothing else under a name that the condition reads.
pub open spec fn leaves_name(item: ItemView, e: SqlView, fields: Seq<FieldView>) -> bool {
    match item {
        ItemView::Unnamed(x) => reads_only(e, fields, own_label(x, fields), field_of(x, fields)),
        ItemView::Aliased { expr, alias } => reads_only(e, fields, alias, field_of(expr, fields)),
        _ => true,
    }
}

/// No item of the SELECT list gives something else under a name that the condition reads.
pub open spec fn leaves_names(items: Seq<ItemView>, e: SqlView, fields: Seq<FieldView>) -> bool {
    forall|i: int| 0 <= i < items.len() ==> leaves_name(#[trigger] items[i], e, fields)
}

/// The item has a value in the row.
pub open spec fn item_decided(item: ItemView, fields: Seq<FieldView>, row: Seq<Cell>) -> bool {
    match item {
        ItemView::Unnamed(e) => type_of(e, fields) is Some && divides(e, fields, row),
        ItemView::Aliased { expr, .. } => type_of(expr, fields) is Some && divides(
            expr,
            fields,
            row,
        ),
        _ => true,
    }
}

/// Every item has a value in the row.
pub open spec fn items_decided(items: Seq<ItemView>, fields: Seq<FieldView>, row: Seq<Cell>) -> bool {
    forall|i: int| 0 <= i < items.len() ==> item_decided(#[trigger] items[i], fields, row)
}

/// A name has the same column whatever parentheses stand around it.
pub proof fn lemma_bare(e: SqlView, schema: Seq<FieldView>, f: Seq<FieldView>)
    ensures
        convert(bare(e), schema) == convert(e, schema),
        type_of(bare(e), f) == type_of(e, f),
        !(bare(e) is Nested),
    decreases e,
{
    match e {
        SqlView::Nested(inner) => { lemma_bare(*inner, schema, f); },
        _ => {},
    }
}

/// The label of an expression is the name that planning gives it.
pub proof fn lemma_own_label(e: SqlView, schema: Seq<FieldView>, f: Seq<FieldView>)
    requires
        convert(e, schema) is Ok,
        names(f) == names(schema),
        type_of(e, f) is Some,
    ensures
        default_name(convert(e, schema)->Ok_0) == own_label(e, f),
        is_name(bare(e)) ==> (convert(e, schema) matches Ok(ExprView::Column { name, relation })
            && column_at(f, name, relation) == field_of(e, f)),
{
    lemma_bare(e, schema, f);
    if is_name(bare(e)) {
        lemma_named_column(bare(e), schema, f);
    }
}

/// The columns of a relation: the fields that have its name as qualifier.
proof fn lemma_relation(
    schema: Seq<FieldView>,
    f: Seq<FieldView>,
    whole: Seq<FieldView>,
    wide: Seq<Cell>,
    q: Seq<char>,
)
    requires
        names(f) == names(schema),
        names(whole).no_duplicates(),
        wide.len() == whole.len(),
        f.len() <= whole.len(),
        f == whole.take(f.len() as int),
    ensures
        ({
            let o = relation_outputs(schema, q);
            &&& o.0.len() == o.1.len()
            &&& projected_row(o.0, whole, wide) == cells_under(f, wide, q)
            &&& forall|j: int|
                0 <= j < o.0.len() ==> (#[trigger] o.0[j] matches ExprView::Column { name, relation }
                    && key_of(name, relation) == o.1[j].name && names(whole).contains(o.1[j].name))
        }),
    decreases schema.len(),
{
    let o = relation_outputs(schema, q);
    assert(schema.len() == names(schema).len() && f.len() == names(f).len());
    if schema.len() > 0 {
        let n = schema.len() - 1;
        let init = f.drop_last();
        assert(names(init) =~= names(schema.drop_last())) by {
            assert forall|i: int| 0 <= i < n implies names(init)[i] == names(schema.drop_last())[i] by {
                assert(names(f)[i] == names(schema)[i]);
            }
        }
        assert(init =~= whole.take(init.len() as int));
        lemma_relation(schema.drop_last(), init, whole, wide, q);
        let rest = relation_outputs(schema.drop_last(), q);
        let name = schema.last().name;
        assert(names(f)[n] == names(schema)[n]);
        assert(f.last().name == name);
        assert(names(whole)[n] == name);
        let p = q + "."@;
        if belongs(name, q) {
            let tail = name.skip(p.len() as int);
            assert(name =~= p + tail);
            reveal_strlit(".");
            assert(p.len() == q.len() + 1);
            let x = ExprView::Column { name: name.skip(q.len() as int + 1), relation: Some(q) };
            assert(q + "."@ + tail =~= name);
            assert(key_of(name.skip(q.len() as int + 1), Some(q)) == name);
            crate::types::lemma_position(names(whole), name);
            let at = crate::types::position(names(whole), name)->Some_0;
            assert(names(whole).contains(name));
            assert(at == n);
            assert(value_in(x, whole, wide) == wide[n]);
            assert(o.0 == rest.0.push(x));
            assert(projected_row(o.0, whole, wide) =~= projected_row(rest.0, whole, wide).push(
                wide[n],
            ));
            assert forall|j: int| 0 <= j < o.0.len() implies (#[trigger] o.0[j] matches ExprView::Column {
                name,
                relation,
            } && key_of(name, relation) == o.1[j].name && names(whole).contains(o.1[j].name)) by {
                if j < rest.0.len() {
                    assert(o.0[j] == rest.0[j]);
                }
            }
        } else {
            if exists|m: Seq<char>| name == #[trigger] (q + "."@) + m {
                let m = choose|m: Seq<char>| name == #[trigger] (q + "."@) + m;
                assert(name.take(p.len() as int) =~= p);
            }
        }
    } else {
        assert(projected_row(o.0, whole, wide) =~= cells_under(f, wide, q));
    }
}

/// What one item of a SELECT list is planned as: its values, and columns under the names that are
/// left to them.
pub proof fn lemma_item(item: ItemView, schema: Seq<FieldView>, f: Seq<FieldView>, row: Seq<Cell>)
    requires
        item_outputs(item, schema) is Ok,
        names(f) == names(schema),
        names(f).no_duplicates(),
        row_fits(f, row),
        item_decided(item, f, row),
    ensures
        ({
            let o = item_outputs(item, schema)->Ok_0;
            &&& o.0.len() == o.1.len()
            &&& projected_row(o.0, f, row) == item_values(item, f, row)
        }),
{
    let o = item_outputs(item, schema)->Ok_0;
    match item {
        ItemView::Unnamed(e) => {
            law_expressions_have_their_value(e, schema, f, row);
            assert(projected_row(o.0, f, row) =~= item_values(item, f, row));
        },
        ItemView::Aliased { expr, .. } => {
            law_expressions_have_their_value(expr, schema, f, row);
            assert(projected_row(o.0, f, row) =~= item_values(item, f, row));
        },
        ItemView::Wildcard => {
            assert(schema.len() == names(schema).len() && f.len() == names(f).len());
            assert forall|j: int| 0 <= j < f.len() implies #[trigger] projected_row(o.0, f, row)[j]
                == row[j] by {
                let name = schema[j].name;
                assert(names(f)[j] == names(schema)[j]);
                lemma_position(names(f), name);
                assert(names(f).contains(names(f)[j]));
            }
            assert(projected_row(o.0, f, row) =~= row);
        },
        ItemView::QualifiedWildcard(parts) => {
            assert(f.take(f.len() as int) =~= f);
            lemma_relation(schema, f, f, row, last_part(parts));
        },
    }
}

/// An output under the name that a condition reads is the column that it reads.
proof fn lemma_item_name(
    item: ItemView,
    schema: Seq<FieldView>,
    f: Seq<FieldView>,
    row: Seq<Cell>,
    e: SqlView,
    j: int,
)
    requires
        item_outputs(item, schema) is Ok,
        names(f) == names(schema),
        names(f).no_duplicates(),
        row_fits(f, row),
        item_decided(item, f, row),
        is_name(e),
        convert(e, schema) is Ok,
        leaves_name(item, e, f),
        0 <= j < item_outputs(item, schema)->Ok_0.1.len(),
        item_outputs(item, schema)->Ok_0.1[j].name == whole_name(e, f),
    ensures
        ({
            let x = strip_alias(item_outputs(item, schema)->Ok_0.0[j]);
            &&& value_in(x, f, row) == row[field_named(e, f)]
            &&& expr_type(x, f) == f[field_named(e, f)].data_type
        }),
{
    let o = item_outputs(item, schema)->Ok_0;
    let k = whole_name(e, f);
    lemma_named_column(e, schema, f);
    match item {
        ItemView::Unnamed(x) => {
            lemma_own_label(x, schema, f);
            lemma_bare(x, schema, f);
        },
        ItemView::Aliased { expr, alias } => {
            lemma_own_label(expr, schema, f);
            lemma_bare(expr, schema, f);
        },
        ItemView::Wildcard => {
            let i = field_named(e, f);
            assert(names(f)[j] == names(schema)[j]);
            lemma_position(names(f), k);
            assert(names(f).contains(k));
            assert(names(f)[i] == f[i].name);
        },
        ItemView::QualifiedWildcard(parts) => {
            assert(f.take(f.len() as int) =~= f);
            lemma_relation(schema, f, f, row, last_part(parts));
            assert(o.0[j] is Column);
            lemma_position(names(f), k);
        },
    }
}

/// The values of a SELECT list are those of its items.
proof fn lemma_selected(
    items: Seq<ItemView>,
    schema: Seq<FieldView>,
    f: Seq<FieldView>,
    row: Seq<Cell>,
)
    requires
        simple_outputs(items, schema) is Ok,
        names(f) == names(schema),
        names(f).no_duplicates(),
        row_fits(f, row),
        items_decided(items, f, row),
    ensures
        ({
            let o = simple_outputs(items, schema)->Ok_0;
            &&& o.0.len() == o.1.len()
            &&& projected_row(o.0, f, row) == selected(items, f, row)
        }),
    decreases items.len(),
{
    let o = simple_outputs(items, schema)->Ok_0;
    if items.len() > 0 {
        let rest = items.skip(1);
        assert(item_decided(items[0], f, row));
        assert(items_decided(rest, f, row)) by {
            assert forall|i: int| 0 <= i < rest.len() implies item_decided(#[trigger] rest[i], f, row) by {
                assert(rest[i] == items[i + 1]);
            }
        }
        lemma_item(items[0], schema, f, row);
        lemma_selected(rest, schema, f, row);
        let head = item_outputs(items[0], schema)->Ok_0;
        let tail = simple_outputs(rest, schema)->Ok_0;
        assert(o.0 == head.0 + tail.0);
        assert(projected_row(o.0, f, row) =~= projected_row(head.0, f, row) + projected_row(
            tail.0,
            f,
            row,
        ));
    } else {
        assert(projected_row(o.0, f, row) =~= selected(items, f, row));
    }
}

/// An output of a SELECT list under the name that a condition reads is the column that it reads.
proof fn lemma_output_name(
    items: Seq<ItemView>,
    schema: Seq<FieldView>,
    f: Seq<FieldView>,
    row: Seq<Cell>,
    e: SqlView,
    j: int,
)
    requires
        simple_outputs(items, schema) is Ok,
        names(f) == names(schema),
        names(f).no_duplicates(),
        row_fits(f, row),
        items_decided(items, f, row),
        is_name(e),
        convert(e, schema) is Ok,
        leaves_names(items, e, f),
        0 <= j < simple_outputs(items, schema)->Ok_0.1.len(),
        simple_outputs(items, schema)->Ok_0.1[j].name == whole_name(e, f),
    ensures
        ({
            let x = strip_alias(simple_outputs(items, schema)->Ok_0.0[j]);
            &&& value_in(x, f, row) == row[field_named(e, f)]
            &&& expr_type(x, f) == f[field_named(e, f)].data_type
        }),
    decreases items.len(),
{
    if items.len() > 0 {
        let rest = items.skip(1);
        assert(item_decided(items[0], f, row));
        assert(leaves_name(items[0], e, f));
        assert(items_decided(rest, f, row) && leaves_names(rest, e, f)) by {
            assert forall|i: int| 0 <= i < rest.len() implies item_decided(#[trigger] rest[i], f, row)
                && leaves_name(rest[i], e, f) by {
                assert(rest[i] == items[i + 1]);
            }
        }
        lemma_item(items[0], schema, f, row);
        let head = item_outputs(items[0], schema)->Ok_0;
        let tail = simple_outputs(rest, schema)->Ok_0;
        let o = simple_outputs(items, schema)->Ok_0;
        lemma_output_len(rest, schema);
        if j < head.1.len() {
            assert(o.1[j] == head.1[j] && o.0[j] == head.0[j]);
            lemma_item_name(items[0], schema, f, row, e, j);
        } else {
            assert(o.1[j] == tail.1[j - head.1.len()] && o.0[j] == tail.0[j - head.0.len()]);
            lemma_output_name(rest, schema, f, row, e, j - head.1.len());
        }
    }
}

/// The names that a condition leaves are left by its parts.
proof fn lemma_leaves_parts(items: Seq<ItemView>, e: SqlView, f: Seq<FieldView>)
    requires
        leaves_names(items, e, f),
    ensures
        e matches SqlView::Binary { left, right, .. } ==> leaves_names(items, *left, f)
            && leaves_names(items, *right, f),
        e matches SqlView::Nested(inner) ==> leaves_names(items, *inner, f),
{
    match e {
        SqlView::Binary { left, right, .. } => {
            assert forall|i: int| 0 <= i < items.len() implies leaves_name(
                #[trigger] items[i],
                *left,
                f,
            ) && leaves_name(items[i], *right, f) by {
                assert(leaves_name(items[i], e, f));
            }
        },
        SqlView::Nested(inner) => {
            assert forall|i: int| 0 <= i < items.len() implies leaves_name(
                #[trigger] items[i],
                *inner,
                f,
            ) by {
                assert(leaves_name(items[i], e, f));
            }
        },
        _ => {},
    }
}

/// A condition reads below the SELECT list the columns that it names.
proof fn lemma_reads_table(
    items: Seq<ItemView>,
    schema: Seq<FieldView>,
    f: Seq<FieldView>,
    row: Seq<Cell>,
    e: SqlView,
)
    requires
        simple_outputs(items, schema) is Ok,
        names(f) == names(schema),
        names(f).no_duplicates(),
        row_fits(f, row),
        items_decided(items, f, row),
        convert(e, schema) is Ok,
        type_of(e, f) is Some,
        divides(e, f, row),
        leaves_names(items, e, f),
    ensures
        ({
            let o = simple_outputs(items, schema)->Ok_0;
            let x = substitute(convert(e, schema)->Ok_0, bindings(o.0, names(o.1)));
            &&& value_in(x, f, row) == value_of(e, f, row)
            &&& expr_type(x, f) == type_of(e, f)->Some_0
        }),
    decreases e,
{
    let o = simple_outputs(items, schema)->Ok_0;
    let outs = names(o.1);
    let m = bindings(o.0, outs);
    let x = convert(e, schema)->Ok_0;
    lemma_selected(items, schema, f, row);
    lemma_leaves_parts(items, e, f);
    law_expressions_have_their_value(e, schema, f, row);
    match e {
        SqlView::Binary { left, right, .. } => {
            lemma_reads_table(items, schema, f, row, *left);
            lemma_reads_table(items, schema, f, row, *right);
            law_expressions_have_their_value(*left, schema, f, row);
            law_expressions_have_their_value(*right, schema, f, row);
        },
        SqlView::Nested(inner) => { lemma_reads_table(items, schema, f, row, *inner); },
        _ => {
            if is_name(e) {
                lemma_named_column(e, schema, f);
                let k = whole_name(e, f);
                match x {
                    ExprView::Column { name, relation } => {
                        assert(key_of(name, relation) == k);
                        lemma_bindings(o.0, outs, k);
                        if m.dom().contains(k) {
                            let j = choose|j: int|
                                0 <= j < o.0.len() && #[trigger] outs[j] == k && m[k]
                                    == strip_alias(o.0[j]);
                            assert(o.1[j].name == k);
                            lemma_output_name(items, schema, f, row, e, j);
                        }
                    },
                    _ => {},
                }
            }
        },
    }
}

/// The SELECT has no aggregates and no groups.
pub open spec fn is_plain(select: SelectView) -> bool {
    &&& !lists_aggregate(select.projection)
    &&& select.group_by matches GroupByView::Expressions(groups) && groups.len() == 0
}

/// WHERE is TRUE in the row, or there is none.
pub open spec fn is_kept(
    selection: Option<SqlView>,
    fields: Seq<FieldView>,
    row: Seq<Cell>,
) -> bool {
    match selection {
        Some(e) => is_true(e, fields, row),
        None => true,
    }
}

/// WHERE and the SELECT list have a value in every row, and the SELECT list gives nothing else under
/// a name that WHERE reads.
pub open spec fn readable(select: SelectView, fields: Seq<FieldView>, rows: Seq<Seq<Cell>>) -> bool {
    &&& names(fields).no_duplicates()
    &&& forall|i: int|
        0 <= i < rows.len() ==> items_decided(select.projection, fields, #[trigger] rows[i])
    &&& select.selection matches Some(e) ==> decided(e, fields, rows) && leaves_names(
        select.projection,
        e,
        fields,
    )
}

/// The rows of a SELECT without aggregates: of the rows of FROM those in which WHERE is TRUE, in
/// their order, and of each the values that the SELECT list asks for.
pub open spec fn select_rows(
    select: SelectView,
    catalog: Map<Seq<char>, Seq<FieldView>>,
    t: Map<Seq<char>, Seq<Seq<Cell>>>,
) -> Seq<Seq<Cell>> {
    let n = select.from[0].joins.len();
    let fields = from_fields(select.from[0], catalog, n);
    let kept = from_rows(select.from[0], catalog, t, n).filter(
        |r: Seq<Cell>| is_kept(select.selection, fields, r),
    );
    Seq::new(kept.len(), |i: int| selected(select.projection, fields, kept[i]))
}

/// What is asked of every row holds of the rows that are selected from them.
pub proof fn lemma_decided_filter(
    items: Seq<ItemView>,
    f: Seq<FieldView>,
    rows: Seq<Seq<Cell>>,
    p: spec_fn(Seq<Cell>) -> bool,
)
    requires
        forall|i: int| 0 <= i < rows.len() ==> items_decided(items, f, #[trigger] rows[i]),
    ensures
        forall|i: int|
            0 <= i < rows.filter(p).len() ==> items_decided(items, f, #[trigger] rows.filter(p)[i]),
    decreases rows.len(),
{
    reveal(Seq::filter);
    if rows.len() > 0 {
        let rest = rows.drop_last();
        assert forall|i: int| 0 <= i < rest.len() implies items_decided(items, f, #[trigger] rest[i]) by {
            assert(rest[i] == rows[i]);
        }
        lemma_decided_filter(items, f, rest, p);
        assert(items_decided(items, f, rows[rows.len() - 1]));
        let a = rest.filter(p);
        let b = rows.filter(p);
        assert forall|i: int| 0 <= i < b.len() implies items_decided(items, f, #[trigger] b[i]) by {
            if i < a.len() {
                assert(b[i] == a[i]);
            }
        }
    }
}

/// Law: a planned SELECT without aggregates means, with WHERE read below the SELECT list, exactly the
/// rows of FROM in which the written condition is TRUE, each with the values that the SELECT list
/// writes.
pub proof fn law_select_gives_written_rows(
    select: SelectView,
    catalog: Map<Seq<char>, Seq<FieldView>>,
    t: Map<Seq<char>, Seq<Seq<Cell>>>,
    o: Sums,
)
    requires
        select_plan(select, catalog) is Ok,
        is_plain(select),
        tables_typed(catalog, t),
        linked(select.from[0], catalog, t),
        readable(
            select,
            from_fields(select.from[0], catalog, select.from[0].joins.len()),
            from_rows(select.from[0], catalog, t, select.from[0].joins.len()),
        ),
    ensures
        meaning(where_below(select_plan(select, catalog)->Ok_0), t, o) == select_rows(
            select,
            catalog,
            t,
        ),
{
    let p = select_plan(select, catalog)->Ok_0;
    let from = from_plan(select.from[0], catalog)->Ok_0;
    let n = select.from[0].joins.len();
    let f = from_fields(select.from[0], catalog, n);
    let rows = from_rows(select.from[0], catalog, t, n);
    let items = select.projection;
    law_from_gives_joined_rows(select.from[0], catalog, t, o);
    let schema = from.1;
    let out = simple_outputs(items, schema)->Ok_0;
    assert(selection_plan(select, from.0, schema) == Ok::<_, crate::error::ErrorView>(p));
    let want = |r: Seq<Cell>| is_kept(select.selection, f, r);
    let kept = rows.filter(want);
    lemma_filter_fits(f, rows, want);
    lemma_decided_filter(items, f, rows, want);
    match select.selection {
        None => {
            reveal(Seq::filter);
            lemma_filter_all(rows, want);
            assert(where_below(p) == p);
        },
        Some(e) => {
            let x = convert(e, schema)->Ok_0;
            let s = substitute(x, bindings(out.0, names(out.1)));
            law_where_selects(e, schema, f, rows);
            assert forall|i: int| 0 <= i < rows.len() implies holds(s, f, #[trigger] rows[i]) == holds(
                x,
                f,
                rows[i],
            ) by {
                assert(items_decided(items, f, rows[i]));
                assert(row_fits(f, rows[i]) && divides(e, f, rows[i]));
                lemma_reads_table(items, schema, f, rows[i], e);
                law_expressions_have_their_value(e, schema, f, rows[i]);
            }
            lemma_rows_where_same(s, f, x, f, rows);
            assert((|r: Seq<Cell>| is_true(e, f, r)) =~= want);
            let below = PlanView::Filter { predicate: s, input: Box::new(from.0) };
            assert(meaning(below, t, o) == kept);
            assert(fields_of(below) == f);
            assert(where_below(p) == PlanView::Projection {
                exprs: out.0,
                schema: out.1,
                input: Box::new(below),
            });
        },
    }
    let result = meaning(where_below(p), t, o);
    lemma_output_len(items, schema);
    assert(result == projected_rows(out.0, f, kept));
    assert forall|i: int| 0 <= i < kept.len() implies #[trigger] result[i] == selected(
        items,
        f,
        kept[i],
    ) by {
        assert(row_fits(f, kept[i]));
        assert(items_decided(items, f, kept[i]));
        lemma_selected(items, schema, f, kept[i]);
    }
    assert(result =~= select_rows(select, catalog, t));
}

/// A SELECT list has as many names as expressions.
pub proof fn lemma_output_len(items: Seq<ItemView>, schema: Seq<FieldView>)
    ensures
        simple_outputs(items, schema) matches Ok(o) ==> o.0.len() == o.1.len(),
    decreases items.len(),
{
    if items.len() > 0 {
        lemma_output_len(items.skip(1), schema);
        match items[0] {
            ItemView::QualifiedWildcard(parts) => { lemma_relation_len(schema, last_part(parts)); },
            _ => {},
        }
    }
}

proof fn lemma_relation_len(schema: Seq<FieldView>, q: Seq<char>)
    ensures
        relation_outputs(schema, q).0.len() == relation_outputs(schema, q).1.len(),
    decreases schema.len(),
{
    if schema.len() > 0 {
        lemma_relation_len(schema.drop_last(), q);
    }
}

/// Rows that are all wanted are all kept.
pub proof fn lemma_filter_all(rows: Seq<Seq<Cell>>, p: spec_fn(Seq<Cell>) -> bool)
    requires
        forall|r: Seq<Cell>| #[trigger] p(r),
    ensures
        rows.filter(p) == rows,
    decreases rows.len(),
{
    reveal(Seq::filter);
    if rows.len() > 0 {
        lemma_filter_all(rows.drop_last(), p);
        assert(p(rows.last()));
        assert(rows.drop_last().push(rows.last()) =~= rows);
    }
}

} // verus!
