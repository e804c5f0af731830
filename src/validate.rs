use vstd::prelude::*;
use crate::record::{
    Annotation, AnnotationKind, FieldDecl, record_model, is_exclude, is_cutoff, is_valid_cutoff,
    carries_cutoff,
};

verus! {

/// What is wrong with an annotation occurrence.
#[derive(Clone, Copy, PartialEq, Eq, Structural, Debug)]
pub enum DiagnosticKind {
    /// An `ExcludeFromHere` after one has already been recorded.
    MultipleCutoffs,
    /// An `ExcludeFromHere` that carries arguments.
    CutoffWithArguments,
    /// An `Exclude` on a field at or after the recorded `ExcludeFromHere`.
    ExcludeAfterCutoff,
    /// A second or later `Exclude` on one field.
    MultipleExcludes,
    /// An `Exclude` that carries arguments.
    ExcludeWithArguments,
}

/// A problem found at annotation `annotation` of field `field`.
#[derive(Clone, Copy, PartialEq, Eq, Structural, Debug)]
pub struct Diagnostic {
    pub kind: DiagnosticKind,
    pub field: usize,
    pub annotation: usize,
}

/// The normalized attributes of one field.
#[derive(Clone, Copy, PartialEq, Eq, Structural, Debug)]
pub struct FieldAttributes {
    pub excluded: bool,
}

pub open spec fn diag(kind: DiagnosticKind, f: int, j: int) -> Diagnostic {
    Diagnostic { kind, field: f as usize, annotation: j as usize }
}

/// Field `f` is the first field that carries a well-formed `ExcludeFromHere`.
pub open spec fn is_first_cutoff(m: Seq<Seq<Annotation>>, f: int) -> bool {
    &&& 0 <= f < m.len()
    &&& carries_cutoff(m[f])
    &&& forall|g: int| 0 <= g < f ==> !carries_cutoff(#[trigger] m[g])
}

/// The cutoff marker: the position of the first field with a well-formed
/// `ExcludeFromHere`, if there is one.
pub open spec fn cutoff_position(m: Seq<Seq<Annotation>>) -> Option<usize> {
    if exists|f: int| is_first_cutoff(m, f) {
        Some((choose|f: int| is_first_cutoff(m, f)) as usize)
    } else {
        None
    }
}

/// Field `f` stands at or after the cutoff marker. An `Exclude` is judged
/// against the marker by field position alone: one on such a field is
/// reported, whatever its place among the field's own annotations.
pub open spec fn after_cutoff(m: Seq<Seq<Annotation>>, f: int) -> bool {
    match cutoff_position(m) {
        Some(c) => c <= f,
        None => false,
    }
}

/// A well-formed `ExcludeFromHere` occurs before annotation `j` of field `f`,
/// in field-then-annotation order.
pub open spec fn cutoff_recorded_before(m: Seq<Seq<Annotation>>, f: int, j: int) -> bool {
    exists|g: int, k: int|
        0 <= g <= f && 0 <= k < m[g].len() && (g < f || k < j) && #[trigger] is_valid_cutoff(
            m[g][k],
        )
}

/// An `Exclude` occurs on the field before its annotation `j`.
pub open spec fn exclude_before(anns: Seq<Annotation>, j: int) -> bool {
    exists|k: int| 0 <= k < j && #[trigger] is_exclude(anns[k])
}

/// What the first sweep reports for annotation `j` of field `f`.
pub open spec fn cutoff_diagnostics_at(m: Seq<Seq<Annotation>>, f: int, j: int) -> Seq<Diagnostic> {
    let a = m[f][j];
    if !is_cutoff(a) {
        seq![]
    } else if cutoff_recorded_before(m, f, j) {
        seq![diag(DiagnosticKind::MultipleCutoffs, f, j)]
    } else if a.has_arguments {
        seq![diag(DiagnosticKind::CutoffWithArguments, f, j)]
    } else {
        seq![]
    }
}

/// What the second sweep reports for annotation `j` of field `f`.
pub open spec fn exclude_diagnostics_at(m: Seq<Seq<Annotation>>, f: int, j: int) -> Seq<Diagnostic> {
    let a = m[f][j];
    if !is_exclude(a) {
        seq![]
    } else {
        (if after_cutoff(m, f) {
            seq![diag(DiagnosticKind::ExcludeAfterCutoff, f, j)]
        } else {
            seq![]
        }) + (if exclude_before(m[f], j) {
            seq![diag(DiagnosticKind::MultipleExcludes, f, j)]
        } else {
            seq![]
        }) + (if a.has_arguments {
            seq![diag(DiagnosticKind::ExcludeWithArguments, f, j)]
        } else {
            seq![]
        })
    }
}

pub open spec fn cutoff_field_diagnostics(m: Seq<Seq<Annotation>>, f: int) -> Seq<Diagnostic> {
    Seq::new(m[f].len(), |j: int| cutoff_diagnostics_at(m, f, j)).flatten()
}

pub open spec fn exclude_field_diagnostics(m: Seq<Seq<Annotation>>, f: int) -> Seq<Diagnostic> {
    Seq::new(m[f].len(), |j: int| exclude_diagnostics_at(m, f, j)).flatten()
}

/// Everything the first sweep reports, in field-then-annotation order.
pub open spec fn cutoff_diagnostics(m: Seq<Seq<Annotation>>) -> Seq<Diagnostic> {
    Seq::new(m.len(), |f: int| cutoff_field_diagnostics(m, f)).flatten()
}

/// Everything the second sweep reports, in field-then-annotation order.
pub open spec fn exclude_diagnostics(m: Seq<Seq<Annotation>>) -> Seq<Diagnostic> {
    Seq::new(m.len(), |f: int| exclude_field_diagnostics(m, f)).flatten()
}

/// All diagnostics of a record: the first sweep's, then the second's.
pub open spec fn diagnostics_of(m: Seq<Seq<Annotation>>) -> Seq<Diagnostic> {
    cutoff_diagnostics(m) + exclude_diagnostics(m)
}

/// Annotation `j` of field `f` is an `Exclude` that nothing is wrong with.
pub open spec fn marks_exclusion(m: Seq<Seq<Annotation>>, f: int, j: int) -> bool {
    &&& is_exclude(m[f][j])
    &&& !m[f][j].has_arguments
    &&& !exclude_before(m[f], j)
    &&& !after_cutoff(m, f)
}

/// The `excluded` flag of field `f`.
pub open spec fn excluded(m: Seq<Seq<Annotation>>, f: int) -> bool {
    exists|j: int| 0 <= j < m[f].len() && #[trigger] marks_exclusion(m, f, j)
}

/// The attribute table: one `excluded` flag per field.
pub open spec fn attribute_table(m: Seq<Seq<Annotation>>) -> Seq<bool> {
    Seq::new(m.len(), |f: int| excluded(m, f))
}

proof fn lemma_flatten_step(n: nat, g: spec_fn(int) -> Seq<Diagnostic>)
    ensures
        Seq::new(n + 1, g).flatten() == Seq::new(n, g).flatten() + g(n as int),
{
    assert(Seq::new(n + 1, g) =~= Seq::new(n, g).push(g(n as int)));
    Seq::new(n, g).lemma_flatten_push(g(n as int));
}

/// First sweep: finds the cutoff marker and reports misused
/// `ExcludeFromHere` annotations.
fn scan_cutoffs(fields: &Vec<FieldDecl>, errors: &mut Vec<Diagnostic>) -> (cutoff: Option<usize>)
    ensures
        cutoff == cutoff_position(record_model(fields@)),
        final(errors)@ == old(errors)@ + cutoff_diagnostics(record_model(fields@)),
{
    let ghost m = record_model(fields@);
    let ghost base = errors@;
    let mut cutoff: Option<usize> = None;
    let mut f: usize = 0;
    while f < fields.len()
        invariant
            m == record_model(fields@),
            f <= fields.len(),
            errors@ == base + Seq::new(f as nat, |g: int| cutoff_field_diagnostics(m, g)).flatten(),
            cutoff.is_none() <==> forall|g: int| 0 <= g < f ==> !carries_cutoff(#[trigger] m[g]),
            cutoff.is_some() ==> is_first_cutoff(m, cutoff.unwrap() as int),
        decreases fields.len() - f,
    {
        let anns = &fields[f].annotations;
        assert(anns@ == m[f as int]);
        let ghost field_base = errors@;
        let ghost none_before = cutoff.is_none();
        let mut j: usize = 0;
        while j < anns.len()
            invariant
                m == record_model(fields@),
                f < fields.len(),
                anns@ == m[f as int],
                j <= anns.len(),
                errors@ == field_base + Seq::new(
                    j as nat,
                    |k: int| cutoff_diagnostics_at(m, f as int, k),
                ).flatten(),
                none_before <==> forall|g: int| 0 <= g < f ==> !carries_cutoff(#[trigger] m[g]),
                !none_before ==> cutoff.is_some() && is_first_cutoff(m, cutoff.unwrap() as int),
                none_before ==> (cutoff.is_some() <==> exists|k: int|
                    0 <= k < j && #[trigger] is_valid_cutoff(anns@[k])),
                none_before && cutoff.is_some() ==> cutoff.unwrap() == f,
            decreases anns.len() - j,
        {
            let a = anns[j];
            proof {
                if !none_before {
                    let c = cutoff.unwrap() as int;
                    assert(carries_cutoff(m[c]));
                    let k0 = choose|k: int| 0 <= k < m[c].len() && is_valid_cutoff(m[c][k]);
                    assert(is_valid_cutoff(m[c][k0]));
                    assert(cutoff_recorded_before(m, f as int, j as int));
                } else if cutoff.is_some() {
                    let k0 = choose|k: int| 0 <= k < j && is_valid_cutoff(anns@[k]);
                    assert(is_valid_cutoff(m[f as int][k0]));
                    assert(cutoff_recorded_before(m, f as int, j as int));
                } else {
                    assert forall|g: int, k: int|
                        0 <= g <= f && 0 <= k < m[g].len() && (g < f || k < j) implies
                        !is_valid_cutoff(#[trigger] m[g][k]) by {
                        if g < f {
                            assert(!carries_cutoff(m[g]));
                        }
                    }
                    assert(!cutoff_recorded_before(m, f as int, j as int));
                }
            }
            if a.kind == AnnotationKind::ExcludeFromHere {
                if cutoff.is_some() {
                    errors.push(Diagnostic { kind: DiagnosticKind::MultipleCutoffs, field: f, annotation: j });
                } else if a.has_arguments {
                    errors.push(Diagnostic { kind: DiagnosticKind::CutoffWithArguments, field: f, annotation: j });
                } else {
                    cutoff = Some(f);
                    proof {
                        assert(is_valid_cutoff(m[f as int][j as int]));
                        assert(carries_cutoff(m[f as int]));
                    }
                }
            }
            proof {
                lemma_flatten_step(j as nat, |k: int| cutoff_diagnostics_at(m, f as int, k));
                assert(errors@ == field_base + Seq::new(
                    (j + 1) as nat,
                    |k: int| cutoff_diagnostics_at(m, f as int, k),
                ).flatten());
            }
            j += 1;
        }
        proof {
            lemma_flatten_step(f as nat, |g: int| cutoff_field_diagnostics(m, g));
            if none_before && cutoff.is_none() {
                assert forall|g: int| 0 <= g < f + 1 implies !carries_cutoff(#[trigger] m[g]) by {
                    if g == f {
                        assert(!exists|k: int| 0 <= k < anns@.len() && #[trigger] is_valid_cutoff(anns@[k]));
                    }
                }
            }
        }
        f += 1;
    }
    proof {
        if cutoff.is_some() {
            let c = cutoff.unwrap() as int;
            assert(is_first_cutoff(m, c));
            let d = choose|g: int| is_first_cutoff(m, g);
            assert(is_first_cutoff(m, d));
            assert(d == c) by {
                if d < c {
                    assert(!carries_cutoff(m[d]));
                }
                if c < d {
                    assert(!carries_cutoff(m[c]));
                }
            }
        } else {
            assert(!exists|g: int| is_first_cutoff(m, g));
        }
    }
    cutoff
}

/// Second sweep: builds the attribute table and reports misused `Exclude`
/// annotations.
fn scan_exclusions(
    fields: &Vec<FieldDecl>,
    cutoff: Option<usize>,
    errors: &mut Vec<Diagnostic>,
) -> (attrs: Vec<FieldAttributes>)
    requires
        cutoff == cutoff_position(record_model(fields@)),
    ensures
        attrs@.map_values(|a: FieldAttributes| a.excluded) == attribute_table(record_model(fields@)),
        final(errors)@ == old(errors)@ + exclude_diagnostics(record_model(fields@)),
{
    let ghost m = record_model(fields@);
    let ghost base = errors@;
    let mut attrs: Vec<FieldAttributes> = Vec::with_capacity(fields.len());
    let mut f: usize = 0;
    while f < fields.len()
        invariant
            m == record_model(fields@),
            cutoff == cutoff_position(m),
            f <= fields.len(),
            errors@ == base + Seq::new(f as nat, |g: int| exclude_field_diagnostics(m, g)).flatten(),
            attrs@.len() == f,
            forall|g: int| 0 <= g < f ==> (#[trigger] attrs@[g]).excluded == excluded(m, g),
        decreases fields.len() - f,
    {
        let anns = &fields[f].annotations;
        assert(anns@ == m[f as int]);
        let after = match cutoff {
            Some(c) => c <= f,
            None => false,
        };
        assert(after == after_cutoff(m, f as int));
        let ghost field_base = errors@;
        let mut seen = false;
        let mut flag = false;
        let mut j: usize = 0;
        while j < anns.len()
            invariant
                m == record_model(fields@),
                f < fields.len(),
                anns@ == m[f as int],
                after == after_cutoff(m, f as int),
                j <= anns.len(),
                errors@ == field_base + Seq::new(
                    j as nat,
                    |k: int| exclude_diagnostics_at(m, f as int, k),
                ).flatten(),
                seen == exclude_before(anns@, j as int),
                flag == exists|k: int| 0 <= k < j && #[trigger] marks_exclusion(m, f as int, k),
            decreases anns.len() - j,
        {
            let a = anns[j];
            let ghost before = errors@;
            if a.kind == AnnotationKind::Exclude {
                if after {
                    errors.push(Diagnostic { kind: DiagnosticKind::ExcludeAfterCutoff, field: f, annotation: j });
                }
                if seen {
                    errors.push(Diagnostic { kind: DiagnosticKind::MultipleExcludes, field: f, annotation: j });
                }
                if a.has_arguments {
                    errors.push(Diagnostic { kind: DiagnosticKind::ExcludeWithArguments, field: f, annotation: j });
                }
                if !after && !seen && !a.has_arguments {
                    flag = true;
                    assert(marks_exclusion(m, f as int, j as int));
                }
                seen = true;
                assert(is_exclude(anns@[j as int]));
            }
            proof {
                assert(errors@ =~= before + exclude_diagnostics_at(m, f as int, j as int));
                lemma_flatten_step(j as nat, |k: int| exclude_diagnostics_at(m, f as int, k));
                assert(errors@ == field_base + Seq::new(
                    (j + 1) as nat,
                    |k: int| exclude_diagnostics_at(m, f as int, k),
                ).flatten());
                if seen && !exclude_before(anns@, j as int) {
                    assert(exclude_before(anns@, j + 1));
                }
                if exclude_before(anns@, j + 1) {
                    let k0 = choose|k: int| 0 <= k < j + 1 && is_exclude(anns@[k]);
                    assert(seen);
                }
                if flag {
                    assert(exists|k: int| 0 <= k < j + 1 && #[trigger] marks_exclusion(m, f as int, k));
                }
            }
            j += 1;
        }
        attrs.push(FieldAttributes { excluded: flag });
        proof {
            lemma_flatten_step(f as nat, |g: int| exclude_field_diagnostics(m, g));
        }
        f += 1;
    }
    assert(attrs@.map_values(|a: FieldAttributes| a.excluded) =~= attribute_table(m));
    attrs
}

/// Interprets the annotations of a record's fields: the cutoff marker, the
/// attribute table, and every diagnostic, appended to `errors` in the order
/// of the two sweeps.
pub fn parse_attributes(
    fields: &Vec<FieldDecl>,
    errors: &mut Vec<Diagnostic>,
) -> (r: (Option<usize>, Vec<FieldAttributes>))
    ensures
        r.0 == cutoff_position(record_model(fields@)),
        r.0 is Some ==> r.0.unwrap() < fields@.len(),
        r.1@.len() == fields@.len(),
        r.1@.map_values(|a: FieldAttributes| a.excluded) == attribute_table(record_model(fields@)),
        final(errors)@ == old(errors)@ + diagnostics_of(record_model(fields@)),
{
    let ghost base = errors@;
    let cutoff = scan_cutoffs(fields, errors);
    let attrs = scan_exclusions(fields, cutoff, errors);
    assert(errors@ =~= base + diagnostics_of(record_model(fields@)));
    proof {
        let m = record_model(fields@);
        if cutoff is Some {
            let c = choose|f: int| is_first_cutoff(m, f);
            assert(is_first_cutoff(m, c));
        }
        assert(attrs@.map_values(|a: FieldAttributes| a.excluded).len() == attrs@.len());
    }
    (cutoff, attrs)
}

} // verus!
