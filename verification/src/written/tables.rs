//! The rows of FROM: a table, or tables joined by conditions.

use vstd::prelude::*;
use vstd::pervasive::arbitrary;
use crate::executor::batch::{fits, normal_type, Cell};
use crate::executor::sums::Sums;
use crate::optimizer::columns::columns;
use crate::optimizer::predicate_pushdown::{names_after, names_before};
use crate::optimizer::projection_pruning::{left_keys, right_keys};
use crate::parser::ast::{
    ConstraintView, FactorView, FromView, JoinOpView, JoinView, OpView, SqlView,
};
use crate::planner::expressions::convert;
use crate::planner::logical_plan::{ExprView, JoinType, PlanView};
use crate::planner::query::{
    and_parts, equalities, equality, factor_plan, from_plan, join_keys, joined, merged_fields,
};
use crate::semantics::values::{
    lemma_names_concat, lemma_value_left, lemma_value_right, reads_within,
};
use crate::semantics::{fields_of, join_rows, matches_of, meaning, row_key, value_in};
use crate::types::{lemma_position, names, FieldView};
use crate::written::conditions::{law_expressions_have_their_value, lemma_named_column};
use crate::written::{divides, field_named, row_fits, type_of, value_of};

verus! {

/// Every left row beside every right row: the first left row beside each right row, then the next.
pub open spec fn side_by_side(left: Seq<Seq<Cell>>, right: Seq<Seq<Cell>>) -> Seq<Seq<Cell>>
    decreases left.len(),
{
    if left.len() == 0 {
        Seq::empty()
    } else {
        side_by_side(left.drop_last(), right) + Seq::new(
            right.len(),
            |j: int| left.last() + right[j],
        )
    }
}

/// The condition of a join holds in the row: every equality in it, through AND and parentheses, has
/// the same value on both sides. NULL and NULL are the same value here.
pub open spec fn joins_on(c: SqlView, fields: Seq<FieldView>, row: Seq<Cell>) -> bool
    decreases c,
{
    match c {
        SqlView::Nested(inner) => joins_on(*inner, fields, row),
        SqlView::Binary { left, op: OpView::And, right } => joins_on(*left, fields, row) && joins_on(
            *right,
            fields,
            row,
        ),
        SqlView::Binary { left, op: OpView::Eq, right } => value_of(*left, fields, row) == value_of(
            *right,
            fields,
            row,
        ),
        _ => false,
    }
}

/// How many equalities the condition of a join has.
pub open spec fn equality_count(c: SqlView) -> nat
    decreases c,
{
    match c {
        SqlView::Nested(inner) => equality_count(*inner),
        SqlView::Binary { left, op: OpView::And, right } => equality_count(*left) + equality_count(
            *right,
        ),
        _ => 1,
    }
}

/// Every name in the expression means one of the fields from `lo` to `hi`, a qualified one by the
/// field's whole name.
pub open spec fn reads_between(e: SqlView, fields: Seq<FieldView>, lo: int, hi: int) -> bool
    decreases e,
{
    match e {
        SqlView::Identifier(_) => lo <= field_named(e, fields) < hi,
        SqlView::Compound(parts) => lo <= field_named(e, fields) < hi && fields[field_named(
            e,
            fields,
        )].name == parts[0] + "."@ + parts[1],
        SqlView::Binary { left, right, .. } => reads_between(*left, fields, lo, hi) && reads_between(
            *right,
            fields,
            lo,
            hi,
        ),
        SqlView::Nested(inner) => reads_between(*inner, fields, lo, hi),
        _ => true,
    }
}

/// Each equality of the condition has on one side only names of the first `width` fields, those of
/// the left input, and on the other only names of the right one.
pub open spec fn links(c: SqlView, fields: Seq<FieldView>, width: int) -> bool
    decreases c,
{
    match c {
        SqlView::Nested(inner) => links(*inner, fields, width),
        SqlView::Binary { left, op: OpView::And, right } => links(*left, fields, width) && links(
            *right,
            fields,
            width,
        ),
        SqlView::Binary { left, op: OpView::Eq, right } => {
            &&& type_of(*left, fields) is Some
            &&& type_of(*right, fields) is Some
            &&& {
                ||| reads_between(*left, fields, 0, width) && reads_between(
                    *right,
                    fields,
                    width,
                    fields.len() as int,
                )
                ||| reads_between(*right, fields, 0, width) && reads_between(
                    *left,
                    fields,
                    width,
                    fields.len() as int,
                )
            }
        },
        _ => true,
    }
}

/// A planned expression reads columns among the fields that its names mean.
proof fn lemma_reads_between(
    e: SqlView,
    schema: Seq<FieldView>,
    f: Seq<FieldView>,
    lo: int,
    hi: int,
    k: Seq<char>,
)
    requires
        convert(e, schema) is Ok,
        names(f) == names(schema),
        type_of(e, f) is Some,
        reads_between(e, f, lo, hi),
        columns(convert(e, schema)->Ok_0).contains(k),
    ensures
        exists|i: int| lo <= i < hi && 0 <= i < f.len() && #[trigger] names(f)[i] == k,
    decreases e,
{
    match e {
        SqlView::Identifier(name) => {
            lemma_named_column(e, schema, f);
            lemma_position(names(f), k);
            lemma_position(names(f), name);
            let i = field_named(e, f);
            assert(names(f)[i] == k);
        },
        SqlView::Compound(parts) => {
            lemma_named_column(e, schema, f);
            let i = field_named(e, f);
            assert(names(f)[i] == f[i].name);
            assert(names(f)[i] == k);
        },
        SqlView::Binary { left, right, .. } => {
            if columns(convert(*left, schema)->Ok_0).contains(k) {
                lemma_reads_between(*left, schema, f, lo, hi, k);
            } else {
                lemma_reads_between(*right, schema, f, lo, hi, k);
            }
        },
        SqlView::Nested(inner) => { lemma_reads_between(*inner, schema, f, lo, hi, k); },
        _ => {},
    }
}

/// The names of the first `width` fields, or of the others, hold what an expression of theirs reads,
/// and nothing of the other side's.
proof fn lemma_side(
    e: SqlView,
    schema: Seq<FieldView>,
    lf: Seq<FieldView>,
    rf: Seq<FieldView>,
    right: bool,
)
    requires
        convert(e, schema) is Ok,
        names(lf + rf) == names(schema),
        names(schema).no_duplicates(),
        type_of(e, lf + rf) is Some,
        !right ==> reads_between(e, lf + rf, 0, lf.len() as int),
        right ==> reads_between(e, lf + rf, lf.len() as int, (lf + rf).len() as int),
    ensures
        !right ==> reads_within(convert(e, schema)->Ok_0, lf) && columns(
            convert(e, schema)->Ok_0,
        ).subset_of(names_before(schema, lf.len())),
        right ==> reads_within(convert(e, schema)->Ok_0, rf) && columns(
            convert(e, schema)->Ok_0,
        ).subset_of(names_after(schema, lf.len())),
        right ==> forall|k: Seq<char>| #[trigger]
            columns(convert(e, schema)->Ok_0).contains(k) ==> !names(lf).contains(k),
        right && columns(convert(e, schema)->Ok_0) != Set::<Seq<char>>::empty() ==> !columns(
            convert(e, schema)->Ok_0,
        ).subset_of(names_before(schema, lf.len())),
        !right && columns(convert(e, schema)->Ok_0) != Set::<Seq<char>>::empty() ==> !columns(
            convert(e, schema)->Ok_0,
        ).subset_of(names_after(schema, lf.len())),
{
    let f = lf + rf;
    let ns = names(schema);
    let x = convert(e, schema)->Ok_0;
    let w = lf.len() as int;
    lemma_names_concat(lf, rf);
    assert(ns.len() == f.len());
    assert(schema.len() == ns.len());
    let (lo, hi) = if right { (w, f.len() as int) } else { (0int, w) };
    let before = ns.subrange(0, w);
    let after = ns.subrange(w, ns.len() as int);
    assert(names_before(schema, lf.len()) == before.to_set());
    assert(names_after(schema, lf.len()) == after.to_set());
    assert forall|k: Seq<char>| #[trigger] columns(x).contains(k) implies if right {
        names(rf).contains(k) && after.contains(k) && !names(lf).contains(k) && !before.contains(k)
    } else {
        names(lf).contains(k) && before.contains(k) && !after.contains(k)
    } by {
        lemma_reads_between(e, schema, f, lo, hi, k);
        let i = choose|i: int| lo <= i < hi && 0 <= i < f.len() && #[trigger] names(f)[i] == k;
        if right {
            assert(names(rf)[i - w] == k);
            assert(after[i - w] == k);
            if names(lf).contains(k) {
                let j = choose|j: int| 0 <= j < names(lf).len() && names(lf)[j] == k;
                assert(ns[j] == k);
                assert(ns[i] == k);
            }
            if before.contains(k) {
                let j = choose|j: int| 0 <= j < before.len() && before[j] == k;
                assert(ns[j] == k);
            }
        } else {
            assert(names(lf)[i] == k);
            assert(before[i] == k);
            if after.contains(k) {
                let j = choose|j: int| 0 <= j < after.len() && after[j] == k;
                assert(ns[j + w] == k);
            }
        }
    }
    if columns(x) != Set::<Seq<char>>::empty() {
        if forall|k: Seq<char>| !#[trigger] columns(x).contains(k) {
            assert(columns(x) =~= Set::empty());
        }
        let k = choose|k: Seq<char>| #[trigger] columns(x).contains(k);
        assert(columns(x).contains(k));
    }
}

/// Two rows have the same key in every pair.
pub open spec fn keys_meet(
    on: Seq<(ExprView, ExprView)>,
    lf: Seq<FieldView>,
    l: Seq<Cell>,
    rf: Seq<FieldView>,
    r: Seq<Cell>,
) -> bool {
    forall|i: int|
        0 <= i < on.len() ==> value_in((#[trigger] on[i]).0, lf, l) == value_in(on[i].1, rf, r)
}

proof fn lemma_keys_meet(
    on: Seq<(ExprView, ExprView)>,
    lf: Seq<FieldView>,
    l: Seq<Cell>,
    rf: Seq<FieldView>,
    r: Seq<Cell>,
)
    ensures
        (row_key(right_keys(on), rf, r) == row_key(left_keys(on), lf, l)) == keys_meet(
            on,
            lf,
            l,
            rf,
            r,
        ),
{
    let a = row_key(left_keys(on), lf, l);
    let b = row_key(right_keys(on), rf, r);
    if keys_meet(on, lf, l, rf, r) {
        assert forall|i: int| 0 <= i < on.len() implies a[i] == b[i] by {
            assert(value_in(on[i].0, lf, l) == value_in(on[i].1, rf, r));
        }
        assert(a =~= b);
    }
    if a == b {
        assert forall|i: int| 0 <= i < on.len() implies value_in((#[trigger] on[i]).0, lf, l)
            == value_in(on[i].1, rf, r) by {
            assert(a[i] == b[i]);
        }
    }
}

/// The key pairs of two lists of equalities are those of the one, then those of the other.
proof fn lemma_equalities_concat(
    a: Seq<SqlView>,
    b: Seq<SqlView>,
    schema: Seq<FieldView>,
    width: nat,
)
    ensures
        equalities(a + b, schema, width) matches Ok(on) ==> {
            &&& equalities(a, schema, width) matches Ok(x)
            &&& equalities(b, schema, width) matches Ok(y)
            &&& on == x + y
        },
    decreases a.len(),
{
    if a.len() == 0 {
        assert(a + b =~= b);
        match equalities(b, schema, width) {
            Ok(y) => { assert(Seq::<(ExprView, ExprView)>::empty() + y =~= y); },
            Err(_) => {},
        }
    } else {
        assert((a + b).skip(1) =~= a.skip(1) + b);
        assert((a + b)[0] == a[0]);
        lemma_equalities_concat(a.skip(1), b, schema, width);
        match equalities(a + b, schema, width) {
            Ok(on) => {
                let x = equalities(a.skip(1), schema, width)->Ok_0;
                let y = equalities(b, schema, width)->Ok_0;
                let head = equality(a[0], schema, width)->Ok_0;
                assert(seq![head] + (x + y) =~= (seq![head] + x) + y);
            },
            Err(_) => {},
        }
    }
}

/// The key pairs of a condition meet where its equalities hold, and there is one for each.
proof fn lemma_pairs(
    c: SqlView,
    schema: Seq<FieldView>,
    lf: Seq<FieldView>,
    rf: Seq<FieldView>,
    l: Seq<Cell>,
    r: Seq<Cell>,
)
    requires
        equalities(and_parts(c), schema, lf.len()) is Ok,
        names(lf + rf) == names(schema),
        names(schema).no_duplicates(),
        links(c, lf + rf, lf.len() as int),
        row_fits(lf, l),
        row_fits(rf, r),
        divides(c, lf + rf, l + r),
    ensures
        ({
            let on = equalities(and_parts(c), schema, lf.len())->Ok_0;
            keys_meet(on, lf, l, rf, r) == joins_on(c, lf + rf, l + r)
        }),
    decreases c,
{
    let f = lf + rf;
    let row = l + r;
    let on = equalities(and_parts(c), schema, lf.len())->Ok_0;
    assert(row_fits(f, row)) by {
        assert forall|i: int| 0 <= i < row.len() implies fits(f[i].data_type, #[trigger] row[i]) by {
            if i < l.len() {
                assert(row[i] == l[i]);
            } else {
                assert(row[i] == r[i - l.len()]);
            }
        }
    }
    match c {
        SqlView::Nested(inner) => { lemma_pairs(*inner, schema, lf, rf, l, r); },
        SqlView::Binary { left, op: OpView::And, right } => {
            lemma_equalities_concat(and_parts(*left), and_parts(*right), schema, lf.len());
            lemma_pairs(*left, schema, lf, rf, l, r);
            lemma_pairs(*right, schema, lf, rf, l, r);
            let x = equalities(and_parts(*left), schema, lf.len())->Ok_0;
            let y = equalities(and_parts(*right), schema, lf.len())->Ok_0;
            assert(on == x + y);
            if keys_meet(on, lf, l, rf, r) {
                assert forall|i: int| 0 <= i < x.len() implies value_in((#[trigger] x[i]).0, lf, l)
                    == value_in(x[i].1, rf, r) by {
                    assert(on[i] == x[i]);
                }
                assert forall|i: int| 0 <= i < y.len() implies value_in((#[trigger] y[i]).0, lf, l)
                    == value_in(y[i].1, rf, r) by {
                    assert(on[x.len() + i] == y[i]);
                }
            }
            if keys_meet(x, lf, l, rf, r) && keys_meet(y, lf, l, rf, r) {
                assert forall|i: int| 0 <= i < on.len() implies value_in((#[trigger] on[i]).0, lf, l)
                    == value_in(on[i].1, rf, r) by {
                    if i < x.len() {
                        assert(on[i] == x[i]);
                    } else {
                        assert(on[i] == y[i - x.len()]);
                    }
                }
            }
        },
        _ => {
            let one = and_parts(c);
            assert(one == seq![c]);
            assert(one.skip(1) =~= Seq::empty());
            assert(equalities(one.skip(1), schema, lf.len()) == Ok::<
                Seq<(ExprView, ExprView)>,
                crate::error::ErrorView,
            >(Seq::empty()));
            let pair = equality(c, schema, lf.len())->Ok_0;
            assert(on =~= seq![pair]);
            match c {
                SqlView::Binary { left, op: OpView::Eq, right } => {
                    let a = convert(*left, schema)->Ok_0;
                    let b = convert(*right, schema)->Ok_0;
                    law_expressions_have_their_value(*left, schema, f, row);
                    law_expressions_have_their_value(*right, schema, f, row);
                    let straight = reads_between(*left, f, 0, lf.len() as int) && reads_between(
                        *right,
                        f,
                        lf.len() as int,
                        f.len() as int,
                    );
                    if straight {
                        lemma_side(*left, schema, lf, rf, false);
                        lemma_side(*right, schema, lf, rf, true);
                        assert(pair == (a, b));
                        lemma_value_left(a, lf, l, rf, r);
                        lemma_value_right(b, lf, l, rf, r);
                    } else {
                        lemma_side(*right, schema, lf, rf, false);
                        lemma_side(*left, schema, lf, rf, true);
                        if pair == (b, a) {
                            lemma_value_left(b, lf, l, rf, r);
                            lemma_value_right(a, lf, l, rf, r);
                        } else {
                            assert(pair == (a, b));
                            assert(columns(a) =~= Set::empty());
                            assert(columns(b) =~= Set::empty());
                            lemma_value_left(a, lf, l, rf, r);
                            lemma_value_right(b, lf, l, rf, r);
                        }
                    }
                    assert(on[0] == pair);
                    assert(keys_meet(on, lf, l, rf, r) == (value_in(pair.0, lf, l) == value_in(
                        pair.1,
                        rf,
                        r,
                    )));
                },
                _ => {},
            }
        },
    }
}

/// Law: a join has one pair of keys for each equality of its condition.
pub proof fn law_join_has_every_equality(c: SqlView, schema: Seq<FieldView>, width: nat)
    ensures
        join_keys(c, schema, width) matches Ok(on) ==> on.len() == equality_count(c),
    decreases c,
{
    lemma_pair_count(c, schema, width);
}

proof fn lemma_pair_count(c: SqlView, schema: Seq<FieldView>, width: nat)
    ensures
        equalities(and_parts(c), schema, width) matches Ok(on) ==> on.len() == equality_count(c),
    decreases c,
{
    match c {
        SqlView::Nested(inner) => { lemma_pair_count(*inner, schema, width); },
        SqlView::Binary { left, op: OpView::And, right } => {
            lemma_equalities_concat(and_parts(*left), and_parts(*right), schema, width);
            lemma_pair_count(*left, schema, width);
            lemma_pair_count(*right, schema, width);
        },
        _ => {
            let one = and_parts(c);
            assert(one == seq![c]);
            assert(one.skip(1) =~= Seq::empty());
            assert(equalities(one.skip(1), schema, width) == Ok::<
                Seq<(ExprView, ExprView)>,
                crate::error::ErrorView,
            >(Seq::empty()));
        },
    }
}

/// Every row fits the fields.
pub open spec fn rows_fit(fields: Seq<FieldView>, rows: Seq<Seq<Cell>>) -> bool {
    forall|i: int| 0 <= i < rows.len() ==> row_fits(fields, #[trigger] rows[i])
}

/// No row of the left input, beside one of the right, makes the condition divide an integer by zero.
pub open spec fn divides_in(
    c: SqlView,
    fields: Seq<FieldView>,
    left: Seq<Seq<Cell>>,
    right: Seq<Seq<Cell>>,
) -> bool {
    forall|i: int, j: int|
        0 <= i < left.len() && 0 <= j < right.len() ==> divides(
            c,
            fields,
            #[trigger] left[i] + #[trigger] right[j],
        )
}

/// One left row beside each right row that has its key.
proof fn lemma_matches(
    c: SqlView,
    schema: Seq<FieldView>,
    lf: Seq<FieldView>,
    rf: Seq<FieldView>,
    l: Seq<Cell>,
    rrows: Seq<Seq<Cell>>,
)
    requires
        equalities(and_parts(c), schema, lf.len()) is Ok,
        names(lf + rf) == names(schema),
        names(schema).no_duplicates(),
        links(c, lf + rf, lf.len() as int),
        row_fits(lf, l),
        rows_fit(rf, rrows),
        forall|j: int| 0 <= j < rrows.len() ==> divides(c, lf + rf, l + #[trigger] rrows[j]),
    ensures
        ({
            let on = equalities(and_parts(c), schema, lf.len())->Ok_0;
            matches_of(l, row_key(left_keys(on), lf, l), right_keys(on), rf, rrows) == Seq::new(
                rrows.len(),
                |j: int| l + rrows[j],
            ).filter(|row: Seq<Cell>| joins_on(c, lf + rf, row))
        }),
    decreases rrows.len(),
{
    let on = equalities(and_parts(c), schema, lf.len())->Ok_0;
    let p = |row: Seq<Cell>| joins_on(c, lf + rf, row);
    let all = Seq::new(rrows.len(), |j: int| l + rrows[j]);
    reveal(Seq::filter);
    if rrows.len() > 0 {
        let rest = rrows.drop_last();
        assert forall|j: int| 0 <= j < rest.len() implies divides(c, lf + rf, l + #[trigger] rest[j]) by {
            assert(rest[j] == rrows[j]);
        }
        assert(rows_fit(rf, rest)) by {
            assert forall|j: int| 0 <= j < rest.len() implies row_fits(rf, #[trigger] rest[j]) by {
                assert(rest[j] == rrows[j]);
            }
        }
        lemma_matches(c, schema, lf, rf, l, rest);
        let r = rrows[rrows.len() - 1];
        assert(row_fits(rf, r));
        assert(divides(c, lf + rf, l + r));
        lemma_pairs(c, schema, lf, rf, l, r);
        lemma_keys_meet(on, lf, l, rf, r);
        assert(all.drop_last() =~= Seq::new(rest.len(), |j: int| l + rest[j]));
        assert(all.last() == l + r);
    } else {
        assert(all.filter(p) =~= Seq::empty());
    }
}

/// Law: an inner join gives exactly the left rows beside the right rows with which every equality of
/// its condition holds.
pub proof fn law_join_keeps_its_condition(
    c: SqlView,
    schema: Seq<FieldView>,
    lf: Seq<FieldView>,
    rf: Seq<FieldView>,
    lrows: Seq<Seq<Cell>>,
    rrows: Seq<Seq<Cell>>,
)
    requires
        join_keys(c, schema, lf.len()) is Ok,
        names(lf + rf) == names(schema),
        names(schema).no_duplicates(),
        links(c, lf + rf, lf.len() as int),
        rows_fit(lf, lrows),
        rows_fit(rf, rrows),
        divides_in(c, lf + rf, lrows, rrows),
    ensures
        ({
            let on = join_keys(c, schema, lf.len())->Ok_0;
            join_rows(left_keys(on), lf, lrows, right_keys(on), rf, rrows) == side_by_side(
                lrows,
                rrows,
            ).filter(|row: Seq<Cell>| joins_on(c, lf + rf, row))
        }),
    decreases lrows.len(),
{
    let on = join_keys(c, schema, lf.len())->Ok_0;
    let p = |row: Seq<Cell>| joins_on(c, lf + rf, row);
    if lrows.len() > 0 {
        let rest = lrows.drop_last();
        let l = lrows[lrows.len() - 1];
        assert(rows_fit(lf, rest)) by {
            assert forall|j: int| 0 <= j < rest.len() implies row_fits(lf, #[trigger] rest[j]) by {
                assert(rest[j] == lrows[j]);
            }
        }
        assert(divides_in(c, lf + rf, rest, rrows)) by {
            assert forall|i: int, j: int|
                0 <= i < rest.len() && 0 <= j < rrows.len() implies divides(
                c,
                lf + rf,
                #[trigger] rest[i] + #[trigger] rrows[j],
            ) by {
                assert(rest[i] == lrows[i]);
                assert(divides(c, lf + rf, lrows[i] + rrows[j]));
            }
        }
        law_join_keeps_its_condition(c, schema, lf, rf, rest, rrows);
        assert(row_fits(lf, l));
        assert forall|j: int| 0 <= j < rrows.len() implies divides(
            c,
            lf + rf,
            l + #[trigger] rrows[j],
        ) by {
            assert(divides(c, lf + rf, lrows[lrows.len() - 1] + rrows[j]));
        }
        lemma_matches(c, schema, lf, rf, l, rrows);
        let row = Seq::new(rrows.len(), |j: int| l + rrows[j]);
        assert(side_by_side(lrows, rrows) =~= side_by_side(rest, rrows) + row);
        Seq::filter_distributes_over_add(side_by_side(rest, rrows), row, p);
    } else {
        reveal(Seq::filter);
        assert(side_by_side(lrows, rrows).filter(p) =~= Seq::empty());
    }
}

/// The table of a FROM item.
pub open spec fn table_named(factor: FactorView) -> Seq<char> {
    match factor {
        FactorView::Table { name, .. } => if name.len() == 0 { Seq::empty() } else { name.last() },
        FactorView::Other => Seq::empty(),
    }
}

/// The fields of a FROM item: the columns of the table, where tables are joined under its alias.
pub open spec fn table_fields(
    factor: FactorView,
    catalog: Map<Seq<char>, Seq<FieldView>>,
    aliased: bool,
) -> Seq<FieldView> {
    let columns = catalog[table_named(factor)];
    Seq::new(
        columns.len(),
        |i: int|
            FieldView {
                name: match factor {
                    FactorView::Table { alias: Some(a), .. } if aliased => a + "."@
                        + columns[i].name,
                    _ => columns[i].name,
                },
                data_type: normal_type(columns[i].data_type),
            },
    )
}

/// The condition of a join.
pub open spec fn condition_of(j: JoinView) -> Option<SqlView> {
    match j.operator {
        JoinOpView::Inner(ConstraintView::On(c)) => Some(c),
        _ => None,
    }
}

/// The fields of the first table of FROM and of the first `n` tables that are joined to it.
pub open spec fn from_fields(
    from: FromView,
    catalog: Map<Seq<char>, Seq<FieldView>>,
    n: nat,
) -> Seq<FieldView>
    decreases n,
{
    if n == 0 {
        table_fields(from.relation, catalog, from.joins.len() > 0)
    } else {
        from_fields(from, catalog, (n - 1) as nat) + table_fields(
            from.joins[n - 1].relation,
            catalog,
            true,
        )
    }
}

/// The rows of the first table of FROM, joined with the next `n` tables.
pub open spec fn from_rows(
    from: FromView,
    catalog: Map<Seq<char>, Seq<FieldView>>,
    t: Map<Seq<char>, Seq<Seq<Cell>>>,
    n: nat,
) -> Seq<Seq<Cell>>
    decreases n,
{
    if n == 0 {
        t[table_named(from.relation)]
    } else {
        let fields = from_fields(from, catalog, n);
        let c = condition_of(from.joins[n - 1])->Some_0;
        side_by_side(
            from_rows(from, catalog, t, (n - 1) as nat),
            t[table_named(from.joins[n - 1].relation)],
        ).filter(|row: Seq<Cell>| joins_on(c, fields, row))
    }
}

/// The rows of every table fit its columns.
pub open spec fn tables_typed(
    catalog: Map<Seq<char>, Seq<FieldView>>,
    t: Map<Seq<char>, Seq<Seq<Cell>>>,
) -> bool {
    forall|k: Seq<char>, i: int| #[trigger]
        catalog.dom().contains(k) && 0 <= i < t[k].len() ==> row_typed(catalog[k], #[trigger] t[k][i])
}

/// The row fits the columns of a table.
pub open spec fn row_typed(columns: Seq<FieldView>, row: Seq<Cell>) -> bool {
    &&& row.len() == columns.len()
    &&& forall|i: int|
        0 <= i < row.len() ==> fits(normal_type(columns[i].data_type), #[trigger] row[i])
}

/// The joins of FROM are inner joins, each linking its table to those before it, no two of whose
/// columns have one name.
pub open spec fn linked(
    from: FromView,
    catalog: Map<Seq<char>, Seq<FieldView>>,
    t: Map<Seq<char>, Seq<Seq<Cell>>>,
) -> bool {
    &&& from.joins.len() > 0 ==> names(
        from_fields(from, catalog, from.joins.len()),
    ).no_duplicates()
    &&& forall|n: nat| n < from.joins.len() ==> link_at(from, catalog, t, n)
}

/// The join `n` links its table to those before it.
pub open spec fn link_at(
    from: FromView,
    catalog: Map<Seq<char>, Seq<FieldView>>,
    t: Map<Seq<char>, Seq<Seq<Cell>>>,
    n: nat,
) -> bool {
    let fields = from_fields(from, catalog, n + 1);
    match condition_of(from.joins[n as int]) {
        Some(c) => {
            &&& links(c, fields, from_fields(from, catalog, n).len() as int)
            &&& divides_in(
                c,
                fields,
                from_rows(from, catalog, t, n),
                t[table_named(from.joins[n as int].relation)],
            )
        },
        None => false,
    }
}

/// Every column of the catalog has its type in normal form, as a schema that is read from Arrow has.
pub open spec fn is_normal(catalog: Map<Seq<char>, Seq<FieldView>>) -> bool {
    forall|k: Seq<char>, i: int|
        #![trigger catalog[k][i]]
        catalog.dom().contains(k) && 0 <= i < catalog[k].len() ==> normal_type(
            catalog[k][i].data_type,
        ) == catalog[k][i].data_type
}

/// The scan of a FROM item has the rows and the fields of its table.
proof fn lemma_factor(
    factor: FactorView,
    catalog: Map<Seq<char>, Seq<FieldView>>,
    t: Map<Seq<char>, Seq<Seq<Cell>>>,
    aliased: bool,
    o: Sums,
)
    requires
        factor_plan(factor, catalog, aliased) is Ok,
        tables_typed(catalog, t),
    ensures
        ({
            let p = factor_plan(factor, catalog, aliased)->Ok_0;
            &&& fields_of(p.0) == table_fields(factor, catalog, aliased)
            &&& names(p.1) == names(table_fields(factor, catalog, aliased))
            &&& meaning(p.0, t, o) == t[table_named(factor)]
            &&& catalog.dom().contains(table_named(factor))
            &&& is_normal(catalog) ==> p.1 == table_fields(factor, catalog, aliased)
        }),
        rows_fit(table_fields(factor, catalog, aliased), t[table_named(factor)]),
{
    let p = factor_plan(factor, catalog, aliased)->Ok_0;
    let f = table_fields(factor, catalog, aliased);
    let k = table_named(factor);
    assert(fields_of(p.0) =~= f);
    assert(names(p.1) =~= names(f));
    if is_normal(catalog) {
        assert forall|i: int| 0 <= i < f.len() implies p.1[i] == f[i] by {
            assert(normal_type(catalog[k][i].data_type) == catalog[k][i].data_type);
        }
        assert(p.1 =~= f);
    }
    assert(meaning(p.0, t, o) =~= t[k]);
    assert forall|i: int| 0 <= i < t[k].len() implies row_fits(f, #[trigger] t[k][i]) by {
        assert(catalog.dom().contains(k));
        assert(row_typed(catalog[k], t[k][i]));
    }
}

/// Fields without a common name are merged as they are.
pub proof fn lemma_merged_plain(fields: Seq<FieldView>, right: Seq<FieldView>)
    requires
        (names(fields) + names(right)).no_duplicates(),
    ensures
        merged_fields(fields, right) == Ok::<Seq<FieldView>, crate::error::ErrorView>(
            fields + right,
        ),
    decreases right.len(),
{
    if right.len() == 0 {
        assert(fields + right =~= fields);
    } else {
        let f = right[0];
        let all = names(fields) + names(right);
        assert(!names(fields).contains(f.name)) by {
            if names(fields).contains(f.name) {
                let i = choose|i: int| 0 <= i < names(fields).len() && names(fields)[i] == f.name;
                assert(all[i] == all[fields.len() as int]);
            }
        }
        assert(names(fields.push(f)) + names(right.skip(1)) =~= all);
        lemma_merged_plain(fields.push(f), right.skip(1));
        assert(fields.push(f) + right.skip(1) =~= fields + right);
    }
}

/// Rows that fit, side by side, fit the fields put side by side.
proof fn lemma_side_fits(
    lf: Seq<FieldView>,
    rf: Seq<FieldView>,
    lrows: Seq<Seq<Cell>>,
    rrows: Seq<Seq<Cell>>,
)
    requires
        rows_fit(lf, lrows),
        rows_fit(rf, rrows),
    ensures
        rows_fit(lf + rf, side_by_side(lrows, rrows)),
    decreases lrows.len(),
{
    if lrows.len() > 0 {
        let rest = lrows.drop_last();
        assert forall|i: int| 0 <= i < rest.len() implies row_fits(lf, #[trigger] rest[i]) by {
            assert(rest[i] == lrows[i]);
        }
        lemma_side_fits(lf, rf, rest, rrows);
        let all = side_by_side(lrows, rrows);
        let init = side_by_side(rest, rrows);
        let l = lrows[lrows.len() - 1];
        assert forall|i: int| 0 <= i < all.len() implies row_fits(lf + rf, #[trigger] all[i]) by {
            if i < init.len() {
                assert(all[i] == init[i]);
            } else {
                let r = rrows[i - init.len()];
                assert(all[i] == l + r);
                assert(row_fits(lf, l) && row_fits(rf, r));
                let row = l + r;
                assert forall|c: int| 0 <= c < row.len() implies fits(
                    (lf + rf)[c].data_type,
                    #[trigger] row[c],
                ) by {
                    if c < l.len() {
                        assert(row[c] == l[c]);
                    } else {
                        assert(row[c] == r[c - l.len()]);
                    }
                }
            }
        }
    }
}

/// Rows that are selected from rows that fit, fit.
pub proof fn lemma_filter_fits(
    f: Seq<FieldView>,
    rows: Seq<Seq<Cell>>,
    p: spec_fn(Seq<Cell>) -> bool,
)
    requires
        rows_fit(f, rows),
    ensures
        rows_fit(f, rows.filter(p)),
    decreases rows.len(),
{
    reveal(Seq::filter);
    if rows.len() > 0 {
        let rest = rows.drop_last();
        assert forall|i: int| 0 <= i < rest.len() implies row_fits(f, #[trigger] rest[i]) by {
            assert(rest[i] == rows[i]);
        }
        lemma_filter_fits(f, rest, p);
        assert(row_fits(f, rows[rows.len() - 1]));
        let a = rest.filter(p);
        let b = rows.filter(p);
        assert forall|i: int| 0 <= i < b.len() implies row_fits(f, #[trigger] b[i]) by {
            if i < a.len() {
                assert(b[i] == a[i]);
            }
        }
    }
}

/// The fields of the first tables begin the fields of more tables.
pub proof fn lemma_from_prefix(
    from: FromView,
    catalog: Map<Seq<char>, Seq<FieldView>>,
    n: nat,
    m: nat,
)
    requires
        n <= m,
        names(from_fields(from, catalog, m)).no_duplicates(),
    ensures
        names(from_fields(from, catalog, n)).no_duplicates(),
    decreases m,
{
    if n < m {
        let a = from_fields(from, catalog, (m - 1) as nat);
        let b = table_fields(from.joins[m - 1].relation, catalog, true);
        lemma_names_concat(a, b);
        let whole = names(from_fields(from, catalog, m));
        assert forall|i: int, j: int|
            0 <= i < names(a).len() && 0 <= j < names(a).len() && i != j implies names(a)[i] != names(
            a,
        )[j] by {
            assert(whole[i] == names(a)[i] && whole[j] == names(a)[j]);
        }
        lemma_from_prefix(from, catalog, n, (m - 1) as nat);
    }
}

/// A plan of the first `n + 1` tables that means their joined rows, joined with the rest, means the
/// joined rows of all.
proof fn lemma_joined_rows(
    plan: PlanView,
    schema: Seq<FieldView>,
    from: FromView,
    catalog: Map<Seq<char>, Seq<FieldView>>,
    t: Map<Seq<char>, Seq<Seq<Cell>>>,
    n: nat,
)
    requires
        n <= from.joins.len(),
        joined(plan, schema, from.joins.skip(n as int), catalog) is Ok,
        tables_typed(catalog, t),
        linked(from, catalog, t),
        fields_of(plan) == from_fields(from, catalog, n),
        names(schema) == names(from_fields(from, catalog, n)),
        forall|o: Sums| #[trigger] meaning(plan, t, o) == from_rows(from, catalog, t, n),
        rows_fit(from_fields(from, catalog, n), from_rows(from, catalog, t, n)),
        is_normal(catalog) ==> schema == from_fields(from, catalog, n),
    ensures
        ({
            let p = joined(plan, schema, from.joins.skip(n as int), catalog)->Ok_0;
            &&& is_normal(catalog) ==> p.1 == from_fields(from, catalog, from.joins.len())
            &&& fields_of(p.0) == from_fields(from, catalog, from.joins.len())
            &&& names(p.1) == names(from_fields(from, catalog, from.joins.len()))
            &&& forall|o: Sums| #[trigger]
                meaning(p.0, t, o) == from_rows(from, catalog, t, from.joins.len())
        }),
        rows_fit(
            from_fields(from, catalog, from.joins.len()),
            from_rows(from, catalog, t, from.joins.len()),
        ),
    decreases from.joins.len() - n,
{
    let rest = from.joins.skip(n as int);
    if n < from.joins.len() {
        let j = from.joins[n as int];
        assert(rest[0] == j);
        assert(link_at(from, catalog, t, n));
        let c = condition_of(j)->Some_0;
        let right = factor_plan(j.relation, catalog, true)->Ok_0;
        let lf = from_fields(from, catalog, n);
        let rf = table_fields(j.relation, catalog, true);
        let f = from_fields(from, catalog, n + 1);
        let lrows = from_rows(from, catalog, t, n);
        let rrows = t[table_named(j.relation)];
        let any: Sums = arbitrary();
        lemma_factor(j.relation, catalog, t, true, any);
        assert(f == lf + rf);
        lemma_from_prefix(from, catalog, n + 1, from.joins.len());
        lemma_names_concat(lf, rf);
        lemma_names_concat(schema, right.1);
        lemma_merged_plain(schema, right.1);
        let fields = schema + right.1;
        let on = join_keys(c, fields, schema.len())->Ok_0;
        assert(schema.len() == names(schema).len());
        assert(lf.len() == names(lf).len());
        assert(names(fields) == names(f));
        law_join_keeps_its_condition(c, fields, lf, rf, lrows, rrows);
        let join = PlanView::Join {
            left: Box::new(plan),
            right: Box::new(right.0),
            on,
            join_type: JoinType::Inner,
            schema: fields,
        };
        assert(joined(plan, schema, rest, catalog) == joined(join, fields, rest.skip(1), catalog));
        assert(rest.skip(1) =~= from.joins.skip((n + 1) as int));
        assert forall|o: Sums| #[trigger] meaning(join, t, o) == from_rows(from, catalog, t, n + 1) by {
            lemma_factor(j.relation, catalog, t, true, o.second());
            assert(meaning(plan, t, o.first()) == lrows);
        }
        lemma_side_fits(lf, rf, lrows, rrows);
        lemma_filter_fits(f, side_by_side(lrows, rrows), |row: Seq<Cell>| joins_on(c, f, row));
        lemma_joined_rows(join, fields, from, catalog, t, n + 1);
    } else {
        assert(rest.len() == 0);
    }
}

/// Law: FROM gives the rows of its table, or the rows of its tables side by side for which the
/// condition of every join holds: all of its equalities, and no others asked.
pub proof fn law_from_gives_joined_rows(
    from: FromView,
    catalog: Map<Seq<char>, Seq<FieldView>>,
    t: Map<Seq<char>, Seq<Seq<Cell>>>,
    o: Sums,
)
    requires
        from_plan(from, catalog) is Ok,
        tables_typed(catalog, t),
        linked(from, catalog, t),
    ensures
        ({
            let p = from_plan(from, catalog)->Ok_0;
            &&& meaning(p.0, t, o) == from_rows(from, catalog, t, from.joins.len())
            &&& fields_of(p.0) == from_fields(from, catalog, from.joins.len())
            &&& names(p.1) == names(from_fields(from, catalog, from.joins.len()))
            &&& is_normal(catalog) ==> p.1 == from_fields(from, catalog, from.joins.len())
        }),
        rows_fit(
            from_fields(from, catalog, from.joins.len()),
            from_rows(from, catalog, t, from.joins.len()),
        ),
{
    let first = factor_plan(from.relation, catalog, from.joins.len() > 0)->Ok_0;
    assert forall|s: Sums| #[trigger] meaning(first.0, t, s) == from_rows(from, catalog, t, 0) by {
        lemma_factor(from.relation, catalog, t, from.joins.len() > 0, s);
    }
    lemma_factor(from.relation, catalog, t, from.joins.len() > 0, o);
    assert(from.joins.skip(0) =~= from.joins);
    lemma_joined_rows(first.0, first.1, from, catalog, t, 0);
}

} // verus!
