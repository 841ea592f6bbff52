//! From a logical plan to physical operators.

use vstd::prelude::*;
use crate::error::ArborError;
use crate::executor::aggregate::{aggregate_stream, HashAggregateExec};
use crate::executor::batch::{told, Batch, Outcome};
use crate::executor::filter_exec::{filter_stream, FilterExec};
use crate::executor::join::{join_outcome, joins, HashJoinExec};
use crate::executor::limit_exec::{limit_stream, LimitExec};
use crate::executor::projection::{pair_exprs, project_stream, ProjectionExec};
use crate::executor::scan::{scan_fields, scan_output_schema, scan_stream, ScanExec};
use crate::executor::sort::{sort_stream, SortExec};
use crate::executor::sums::{sums, Sums};
use crate::executor::{begins, ends, fixed, stepped, End, PhysicalPlan, Stream};
use crate::planner::logical_plan::{Expr, ExprView, LogicalPlan, PlanView};
use crate::types::{views, FieldView, Schema};

verus! {

/// The number of scans in a plan.
pub open spec fn scans(p: PlanView) -> nat
    decreases p,
{
    match p {
        PlanView::Scan { .. } => 1,
        PlanView::Filter { input, .. } => scans(*input),
        PlanView::Projection { input, .. } => scans(*input),
        PlanView::Aggregate { input, .. } => scans(*input),
        PlanView::Sort { input, .. } => scans(*input),
        PlanView::Join { left, right, .. } => scans(*left) + scans(*right),
        PlanView::Limit { input, .. } => scans(*input),
        PlanView::Empty { .. } => 0,
    }
}

/// The fields of the batches that a plan produces.
pub open spec fn output_fields(p: PlanView) -> Seq<FieldView>
    decreases p,
{
    match p {
        PlanView::Scan { schema, projection, .. } => scan_fields(schema, projection),
        PlanView::Filter { input, .. } => output_fields(*input),
        PlanView::Projection { schema, .. } => schema,
        PlanView::Aggregate { schema, .. } => schema,
        PlanView::Sort { input, .. } => output_fields(*input),
        PlanView::Join { left, right, .. } => output_fields(*left) + output_fields(*right),
        PlanView::Limit { input, .. } => output_fields(*input),
        PlanView::Empty { schema } => schema,
    }
}

/// The expressions that a projection has a field for.
pub open spec fn fielded(exprs: Seq<ExprView>, fields: Seq<FieldView>) -> Seq<ExprView> {
    if exprs.len() <= fields.len() { exprs } else { exprs.take(fields.len() as int) }
}

/// How setting up the operators of a plan comes out: the stream of the topmost one. `files` is what
/// the files of the scans have to give, from left to right. A join is carried out when it is set
/// up. `o` is how sums of floats come out.
pub open spec fn built(p: PlanView, files: Seq<spec_fn(Sums) -> Stream>, o: Sums) -> Outcome<
    Stream,
>
    decreases p,
{
    match p {
        PlanView::Empty { .. } => Outcome::Value(ends(End::Done)),
        PlanView::Scan { schema, projection, .. } => Outcome::Value(
            scan_stream(scan_fields(schema, projection), files[0](o)),
        ),
        PlanView::Filter { predicate, input } => match built(*input, files, o) {
            Outcome::Value(s) => Outcome::Value(filter_stream(predicate, s)),
            other => other,
        },
        PlanView::Projection { exprs, schema, input } => match built(*input, files, o) {
            Outcome::Value(s) => Outcome::Value(
                project_stream(fielded(exprs, schema), schema, s),
            ),
            other => other,
        },
        PlanView::Aggregate { group_by, aggr_exprs, schema, input } => match built(
            *input,
            files,
            o.first(),
        ) {
            Outcome::Value(s) => Outcome::Value(
                aggregate_stream(group_by, aggr_exprs, schema, s, o.totals(aggr_exprs.len())),
            ),
            other => other,
        },
        PlanView::Sort { exprs, input } => match built(*input, files, o) {
            Outcome::Value(s) => Outcome::Value(
                sort_stream(exprs, output_fields(*input), s),
            ),
            other => other,
        },
        PlanView::Join { left, right, on, join_type, .. } => match built(
            *left,
            files.take(scans(*left) as int),
            o.first(),
        ) {
            Outcome::Value(l) => match built(
                *right,
                files.skip(scans(*left) as int),
                o.second(),
            ) {
                Outcome::Value(r) => match join_outcome(
                    l,
                    r,
                    on,
                    join_type,
                    output_fields(*left) + output_fields(*right),
                ) {
                    Outcome::Value(bs) => Outcome::Value(
                        Stream { batches: bs, end: End::Done },
                    ),
                    Outcome::Fault(f) => Outcome::Fault(f),
                    Outcome::Open => Outcome::Open,
                },
                other => other,
            },
            other => other,
        },
        PlanView::Limit { n, input } => match built(*input, files, o) {
            Outcome::Value(s) => Outcome::Value(limit_stream(n as nat, s)),
            other => other,
        },
    }
}

/// What some files have to give.
pub open spec fn file_streams<S: PhysicalPlan>(files: Seq<S>) -> Seq<
    spec_fn(Sums) -> Stream,
> {
    Seq::new(files.len(), |i: int| files[i].pending())
}

/// The outcome is an operator with this stream, or left open.
pub open spec fn opens(o: Outcome<Stream>, s: Stream) -> bool {
    o == Outcome::Value(s) || o is Open
}

/// The outcome is this error, or left open.
pub open spec fn fails(o: Outcome<Stream>, e: ArborError) -> bool {
    match o {
        Outcome::Value(_) => false,
        Outcome::Fault(f) => told(e, f),
        Outcome::Open => true,
    }
}

/// The plan has this to give.
pub open spec fn offers(p: PlanView, files: Seq<spec_fn(Sums) -> Stream>, s: Stream) -> bool {
    exists|q: Sums| #[trigger] opens(built(p, files, q), s)
}

/// `r` is the operator of the plan: whatever it gives, the plan has to give.
pub open spec fn builds(
    r: Result<Box<dyn PhysicalPlan>, ArborError>,
    p: PlanView,
    files: Seq<spec_fn(Sums) -> Stream>,
) -> bool {
    match r {
        Ok(x) => {
            &&& x.layout() == output_fields(p)
            &&& forall|o: Sums| offers(p, files, #[trigger] x.pending()(o))
        },
        Err(e) => exists|q: Sums| #[trigger] fails(built(p, files, q), e),
    }
}

/// An operator without rows.
pub struct EmptyExec {
    schema: Schema,
}

impl EmptyExec {
    /// No rows, with these fields.
    pub fn new(schema: Schema) -> (r: EmptyExec)
        ensures
            r.pending() == fixed(ends(End::Done)),
            r.layout() == schema@,
    {
        EmptyExec { schema }
    }
}

impl PhysicalPlan for EmptyExec {
    open spec fn pending(&self) -> spec_fn(Sums) -> Stream {
        fixed(ends(End::Done))
    }

    open spec fn fuel(&self) -> nat {
        0
    }

    closed spec fn layout(&self) -> Seq<FieldView> {
        self.schema@
    }

    fn schema(&self) -> (r: Schema) {
        self.schema.clone()
    }

    fn next_batch(&mut self) -> (r: Result<Option<Batch>, ArborError>) {
        let r = Ok(None);
        proof {
            assert forall|o: Sums| begins(self.pending(), r, #[trigger] self.pending()(o)) by {
                assert(stepped(self.pending()(o), r, self.pending()(o)));
            }
        }
        r
    }
}

/// Pairs of an expression and its field's name.
fn zip_pairs(exprs: &Vec<Expr>, schema: &Schema) -> (r: Vec<(Expr, String)>)
    ensures
        pair_exprs(r@) == fielded(views(exprs@), schema@),
{
    let n: usize = if exprs.len() <= schema.fields.len() {
        exprs.len()
    } else {
        schema.fields.len()
    };
    let mut pairs: Vec<(Expr, String)> = Vec::new();
    let mut i: usize = 0;
    while i < n
        invariant
            i <= n,
            n <= exprs.len(),
            n <= schema.fields.len(),
            pairs.len() == i,
            forall|k: int| 0 <= k < i ==> (#[trigger] pairs[k]).0@ == exprs[k]@,
        decreases n - i,
    {
        pairs.push((exprs[i].clone(), schema.fields[i].name.clone()));
        i = i + 1;
    }
    proof {
        assert(pair_exprs(pairs@) =~= fielded(views(exprs@), schema@));
    }
    pairs
}

/// Copies some pairs of keys.
fn copy_pairs(on: &Vec<(Expr, Expr)>) -> (r: Vec<(Expr, Expr)>)
    ensures
        views(r@) == views(on@),
{
    let mut out: Vec<(Expr, Expr)> = Vec::new();
    let mut i: usize = 0;
    while i < on.len()
        invariant
            i <= on.len(),
            out.len() == i,
            forall|k: int| 0 <= k < i ==> #[trigger] out[k] == on[k],
        decreases on.len() - i,
    {
        let a = on[i].0.clone();
        let b = on[i].1.clone();
        out.push((a, b));
        i = i + 1;
    }
    proof {
        assert(views(out@) =~= views(on@));
    }
    out
}

/// Sets up the operators of a plan over the first of the files.
#[verifier::rlimit(40)]
fn build_plan<S: PhysicalPlan + 'static>(logical: &LogicalPlan, files: &mut Vec<S>) -> (r: Result<
    Box<dyn PhysicalPlan>,
    ArborError,
>)
    requires
        old(files).len() >= scans(logical@),
    ensures
        builds(r, logical@, file_streams(old(files)@).take(scans(logical@) as int)),
        r is Ok ==> final(files)@ == old(files)@.skip(scans(logical@) as int),
    decreases logical,
{
    let ghost streams = file_streams(files@).take(scans(logical@) as int);
    match logical {
        LogicalPlan::Empty { schema } => {
            proof {
                assert(files@.skip(0) =~= files@);
            }
            let b: Box<EmptyExec> = Box::new(EmptyExec::new(schema.clone()));
            let r: Result<Box<dyn PhysicalPlan>, ArborError> = Ok(b);
            proof {
                assert forall|o: Sums| offers(logical@, streams, #[trigger] r->Ok_0.pending()(o)) by {
                    assert(opens(built(logical@, streams, o), r->Ok_0.pending()(o)));
                }
            }
            r
        },
        LogicalPlan::Scan { table_name: _, schema, projection } => {
            let file = files.remove(0);
            proof {
                assert(files@ =~= old(files)@.skip(1));
            }
            let output = scan_output_schema(schema, projection);
            let b: Box<ScanExec<S>> = Box::new(ScanExec::new(Some(file), output));
            let r: Result<Box<dyn PhysicalPlan>, ArborError> = Ok(b);
            proof {
                assert forall|o: Sums| offers(logical@, streams, #[trigger] r->Ok_0.pending()(o)) by {
                    assert(opens(built(logical@, streams, o), r->Ok_0.pending()(o)));
                }
            }
            r
        },
        LogicalPlan::Filter { predicate, input } => {
            let child = match build_plan(input, files) {
                Ok(c) => c,
                Err(e) => {
                    proof {
                        let q = choose|q: Sums| #[trigger] fails(
                            built((**input)@, streams, q),
                            e,
                        );
                        assert(fails(built(logical@, streams, q), e));
                    }
                    return Err(e);
                },
            };
            let ghost below = child.pending();
            match FilterExec::new(child, predicate.clone()) {
                Ok(x) => {
                    let b: Box<FilterExec<dyn PhysicalPlan>> = Box::new(x);
                    let r: Result<Box<dyn PhysicalPlan>, ArborError> = Ok(b);
                    proof {
                        assert forall|o: Sums| offers(logical@, streams, #[trigger] r->Ok_0.pending()(o)) by {
                            assert(offers((**input)@, streams, below(o)));
                            let q = choose|q: Sums| #[trigger] opens(
                                built((**input)@, streams, q),
                                below(o),
                            );
                            assert(opens(built(logical@, streams, q), r->Ok_0.pending()(o)));
                        }
                    }
                    r
                },
                Err(e) => Err(e),
            }
        },
        LogicalPlan::Projection { exprs, schema, input } => {
            let child = match build_plan(input, files) {
                Ok(c) => c,
                Err(e) => {
                    proof {
                        let q = choose|q: Sums| #[trigger] fails(
                            built((**input)@, streams, q),
                            e,
                        );
                        assert(fails(built(logical@, streams, q), e));
                    }
                    return Err(e);
                },
            };
            let ghost below = child.pending();
            let pairs = zip_pairs(exprs, schema);
            let x = ProjectionExec::new(child, pairs, schema.clone());
            let b: Box<ProjectionExec<dyn PhysicalPlan>> = Box::new(x);
            let r: Result<Box<dyn PhysicalPlan>, ArborError> = Ok(b);
            proof {
                assert forall|o: Sums| offers(logical@, streams, #[trigger] r->Ok_0.pending()(o)) by {
                    assert(offers((**input)@, streams, below(o)));
                    let q = choose|q: Sums| #[trigger] opens(
                        built((**input)@, streams, q),
                        below(o),
                    );
                    assert(opens(built(logical@, streams, q), r->Ok_0.pending()(o)));
                }
            }
            r
        },
        LogicalPlan::Aggregate { group_by, aggr_exprs, schema, input } => {
            let child = match build_plan(input, files) {
                Ok(c) => c,
                Err(e) => {
                    proof {
                        let q = choose|q: Sums| #[trigger] fails(
                            built((**input)@, streams, q),
                            e,
                        );
                        assert(fails(built(logical@, streams, sums(Seq::empty(), q, Sums::Nowhere)), e));
                    }
                    return Err(e);
                },
            };
            let ghost below = child.pending();
            let groups = group_by.clone();
            let aggrs = aggr_exprs.clone();
            proof {
                assert(views(groups@) =~= views(group_by@));
                assert(views(aggrs@) =~= views(aggr_exprs@));
            }
            match HashAggregateExec::new(child, groups, aggrs, schema.clone()) {
                Ok(x) => {
                    let b: Box<HashAggregateExec<dyn PhysicalPlan>> = Box::new(x);
                    let r: Result<Box<dyn PhysicalPlan>, ArborError> = Ok(b);
                    proof {
                        assert forall|o: Sums| offers(logical@, streams, #[trigger] r->Ok_0.pending()(o)) by {
                            assert(offers((**input)@, streams, below(o.first())));
                            let q = choose|q: Sums| #[trigger] opens(
                                built((**input)@, streams, q),
                                below(o.first()),
                            );
                            let p = sums(o.totals(aggr_exprs.len() as nat), q, Sums::Nowhere);
                            assert(p.totals(aggr_exprs.len() as nat) =~= o.totals(
                                aggr_exprs.len() as nat,
                            ));
                            assert(opens(built(logical@, streams, p), r->Ok_0.pending()(o)));
                        }
                    }
                    r
                },
                Err(e) => Err(e),
            }
        },
        LogicalPlan::Sort { exprs, input } => {
            let child = match build_plan(input, files) {
                Ok(c) => c,
                Err(e) => {
                    proof {
                        let q = choose|q: Sums| #[trigger] fails(
                            built((**input)@, streams, q),
                            e,
                        );
                        assert(fails(built(logical@, streams, q), e));
                    }
                    return Err(e);
                },
            };
            let ghost below = child.pending();
            let keys = exprs.clone();
            proof {
                assert(views(keys@) =~= views(exprs@));
            }
            match SortExec::new(child, keys) {
                Ok(x) => {
                    let b: Box<SortExec<dyn PhysicalPlan>> = Box::new(x);
                    let r: Result<Box<dyn PhysicalPlan>, ArborError> = Ok(b);
                    proof {
                        assert forall|o: Sums| offers(logical@, streams, #[trigger] r->Ok_0.pending()(o)) by {
                            assert(offers((**input)@, streams, below(o)));
                            let q = choose|q: Sums| #[trigger] opens(
                                built((**input)@, streams, q),
                                below(o),
                            );
                            assert(opens(built(logical@, streams, q), r->Ok_0.pending()(o)));
                        }
                    }
                    r
                },
                Err(e) => Err(e),
            }
        },
        LogicalPlan::Join { left, right, on, join_type, schema: _ } => {
            let ghost all = streams;
            let ghost k = scans((**left)@);
            let ghost m = scans((**right)@);
            proof {
                assert(all.take(k as int) =~= file_streams(files@).take(k as int));
            }
            let l = match build_plan(left, files) {
                Ok(c) => c,
                Err(e) => {
                    proof {
                        let q = choose|q: Sums| #[trigger] fails(
                            built((**left)@, all.take(k as int), q),
                            e,
                        );
                        let p = sums(Seq::empty(), q, Sums::Nowhere);
                        assert(fails(built(logical@, streams, p), e));
                    }
                    return Err(e);
                },
            };
            let ghost lefts = l.pending();
            proof {
                assert(all.skip(k as int) =~= file_streams(files@).take(m as int));
            }
            let r = match build_plan(right, files) {
                Ok(c) => c,
                Err(e) => {
                    proof {
                        assert(offers((**left)@, all.take(k as int), lefts(Sums::Nowhere)));
                        let ql = choose|q: Sums| #[trigger] opens(
                            built((**left)@, all.take(k as int), q),
                            lefts(Sums::Nowhere),
                        );
                        let qr = choose|q: Sums| #[trigger] fails(
                            built((**right)@, all.skip(k as int), q),
                            e,
                        );
                        let p = sums(Seq::empty(), ql, qr);
                        assert(fails(built(logical@, streams, p), e));
                    }
                    return Err(e);
                },
            };
            let ghost rights = r.pending();
            proof {
                assert(files@ =~= old(files)@.skip(scans(logical@) as int));
            }
            let pairs = copy_pairs(on);
            let ghost fields = l.layout() + r.layout();
            let made = HashJoinExec::new(l, r, pairs, *join_type);
            let ghost (ol, or) = choose|ol: Sums, or: Sums| #[trigger]
                joins(
                    made,
                    join_outcome(lefts(ol), rights(or), views(pairs@), *join_type, fields),
                );
            assert(offers((**left)@, all.take(k as int), lefts(ol)));
            assert(offers((**right)@, all.skip(k as int), rights(or)));
            let ghost p = sums(
                Seq::empty(),
                choose|q: Sums| #[trigger] opens(built((**left)@, all.take(k as int), q), lefts(ol)),
                choose|q: Sums| #[trigger]
                    opens(built((**right)@, all.skip(k as int), q), rights(or)),
            );
            match made {
                Ok(x) => {
                    let b: Box<HashJoinExec> = Box::new(x);
                    let r: Result<Box<dyn PhysicalPlan>, ArborError> = Ok(b);
                    proof {
                        assert forall|o: Sums| offers(logical@, streams, #[trigger] r->Ok_0.pending()(o)) by {
                            assert(opens(built(logical@, streams, p), r->Ok_0.pending()(o)));
                        }
                    }
                    r
                },
                Err(e) => {
                    assert(fails(built(logical@, streams, p), e));
                    Err(e)
                },
            }
        },
        LogicalPlan::Limit { n, input } => {
            let child = match build_plan(input, files) {
                Ok(c) => c,
                Err(e) => {
                    proof {
                        let q = choose|q: Sums| #[trigger] fails(
                            built((**input)@, streams, q),
                            e,
                        );
                        assert(fails(built(logical@, streams, q), e));
                    }
                    return Err(e);
                },
            };
            let ghost below = child.pending();
            let x = LimitExec::new(child, *n);
            let b: Box<LimitExec<dyn PhysicalPlan>> = Box::new(x);
            let r: Result<Box<dyn PhysicalPlan>, ArborError> = Ok(b);
            proof {
                assert forall|o: Sums| offers(logical@, streams, #[trigger] r->Ok_0.pending()(o)) by {
                    assert(offers((**input)@, streams, below(o)));
                    let q = choose|q: Sums| #[trigger] opens(
                        built((**input)@, streams, q),
                        below(o),
                    );
                    assert(opens(built(logical@, streams, q), r->Ok_0.pending()(o)));
                }
            }
            r
        },
    }
}

/// Builds a physical plan from a logical plan and the files of its scans, from left to right.
pub fn create_physical_plan<S: PhysicalPlan + 'static>(logical: &LogicalPlan, files: Vec<S>) -> (r:
    Result<Box<dyn PhysicalPlan>, ArborError>)
    requires
        files.len() == scans(logical@),
    ensures
        builds(r, logical@, file_streams(files@)),
{
    let mut rest = files;
    proof {
        assert(file_streams(files@).take(scans(logical@) as int) =~= file_streams(files@));
    }
    build_plan(logical, &mut rest)
}

} // verus!
