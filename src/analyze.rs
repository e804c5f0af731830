use vstd::prelude::*;
use crate::record::{RecordShape, record_model};
use crate::validate::{Diagnostic, diagnostics_of, parse_attributes};
use crate::order::{plan_of, teardown_order};

verus! {

/// Why a type cannot be torn down field by field: it has no single flat
/// field list. This is the one diagnostic such an input yields.
#[derive(Clone, Copy, PartialEq, Eq, Structural, Debug)]
pub enum UnsupportedShape {
    Sum,
    Union,
}

/// The result of analysing a product type: the positions to tear down, in
/// order, and every diagnostic found on the way. A non-empty `diagnostics`
/// must fail the build even though a plan is produced.
#[derive(Clone, Debug)]
pub struct Analysis {
    pub plan: Vec<usize>,
    pub diagnostics: Vec<Diagnostic>,
}

impl Analysis {
    /// The analysis found nothing wrong.
    pub fn is_clean(&self) -> (r: bool)
        ensures
            r == (self.diagnostics@.len() == 0),
    {
        self.diagnostics.len() == 0
    }
}

/// Runs the whole analysis on a record: the shape check, both annotation
/// sweeps and the ordering. A sum or union type stops at the shape check.
pub fn analyze_record(shape: &RecordShape) -> (r: Result<Analysis, UnsupportedShape>)
    ensures
        match shape {
            RecordShape::Product(fields) => {
                &&& r is Ok
                &&& r->Ok_0.plan@ == plan_of(record_model(fields@))
                &&& r->Ok_0.diagnostics@ == diagnostics_of(record_model(fields@))
            },
            RecordShape::Sum => r == Err::<Analysis, UnsupportedShape>(UnsupportedShape::Sum),
            RecordShape::Union => r == Err::<Analysis, UnsupportedShape>(UnsupportedShape::Union),
        },
{
    match shape {
        RecordShape::Product(fields) => {
            let mut diagnostics: Vec<Diagnostic> = Vec::new();
            let (cutoff, attrs) = parse_attributes(fields, &mut diagnostics);
            assert(diagnostics@ =~= diagnostics_of(record_model(fields@)));
            let plan = teardown_order(cutoff, &attrs);
            Ok(Analysis { plan, diagnostics })
        },
        RecordShape::Sum => Err(UnsupportedShape::Sum),
        RecordShape::Union => Err(UnsupportedShape::Union),
    }
}

} // verus!
