use vstd::prelude::*;
use crate::record::{
    Annotation, AnnotationKind, FieldDecl, record_model, is_valid_cutoff, carries_cutoff,
};
use crate::validate::{
    Diagnostic, DiagnosticKind, diag, diagnostics_of, cutoff_field_diagnostics,
    exclude_field_diagnostics, cutoff_diagnostics_at, exclude_diagnostics_at, cutoff_position, is_first_cutoff, cutoff_recorded_before,
    exclude_before, marks_exclusion, attribute_table,
};
use crate::order::{descending, plan_below, plan_of};

verus! {

/// An annotation of the given kind without arguments.
pub open spec fn plain(kind: AnnotationKind) -> Annotation {
    Annotation { kind, has_arguments: false }
}

proof fn lemma_flatten_empty(s: Seq<Seq<Diagnostic>>)
    requires
        forall|i: int| 0 <= i < s.len() ==> (#[trigger] s[i]).len() == 0,
    ensures
        s.flatten() == Seq::<Diagnostic>::empty(),
    decreases s.len(),
{
    if s.len() > 0 {
        lemma_flatten_empty(s.drop_first());
        assert(s.flatten() =~= Seq::<Diagnostic>::empty());
    }
}

proof fn lemma_flatten_single(s: Seq<Seq<Diagnostic>>, i: int)
    requires
        0 <= i < s.len(),
        forall|g: int| 0 <= g < s.len() && g != i ==> (#[trigger] s[g]).len() == 0,
    ensures
        s.flatten() == s[i],
    decreases s.len(),
{
    if i == 0 {
        lemma_flatten_empty(s.drop_first());
        assert(s.flatten() =~= s[0]);
    } else {
        lemma_flatten_single(s.drop_first(), i - 1);
        assert(s.flatten() =~= s[i]);
    }
}

proof fn lemma_plan_unexcluded(t: int, ex: Seq<bool>)
    requires
        0 <= t <= ex.len(),
        forall|f: int| 0 <= f < t ==> !(#[trigger] ex[f]),
    ensures
        plan_below(t, ex) == descending(t as nat),
    decreases t,
{
    if t > 0 {
        lemma_plan_unexcluded(t - 1, ex);
        assert(plan_below(t, ex) =~= descending(t as nat));
    }
}

proof fn lemma_plan_one_excluded(t: int, ex: Seq<bool>, k: int)
    requires
        0 <= k < t <= ex.len(),
        forall|f: int| 0 <= f < t ==> (#[trigger] ex[f]) == (f == k),
    ensures
        plan_below(t, ex) == descending(t as nat).remove(t - 1 - k),
    decreases t,
{
    if t == k + 1 {
        lemma_plan_unexcluded(k, ex);
        assert(plan_below(t, ex) =~= descending(t as nat).remove(t - 1 - k));
    } else {
        lemma_plan_one_excluded(t - 1, ex, k);
        assert(plan_below(t, ex) =~= descending(t as nat).remove(t - 1 - k));
    }
}

proof fn lemma_plan_shape(t: int, ex: Seq<bool>)
    requires
        0 <= t <= ex.len(),
        t <= usize::MAX + 1,
    ensures
        forall|i: int| 0 <= i < plan_below(t, ex).len() ==> (#[trigger] plan_below(t, ex)[i]) < t,
        forall|i: int, j: int|
            0 <= i < j < plan_below(t, ex).len() ==> plan_below(t, ex)[i] > plan_below(t, ex)[j],
    decreases t,
{
    if t > 0 {
        lemma_plan_shape(t - 1, ex);
        let rest = plan_below(t - 1, ex);
        let p = plan_below(t, ex);
        if !ex[t - 1] {
            assert(p == seq![(t - 1) as usize] + rest);
            assert forall|i: int| 0 <= i < p.len() implies (#[trigger] p[i]) < t by {
                if i > 0 {
                    assert(p[i] == rest[i - 1]);
                }
            }
            assert forall|i: int, j: int| 0 <= i < j < p.len() implies p[i] > p[j] by {
                assert(p[j] == rest[j - 1]);
                if i > 0 {
                    assert(p[i] == rest[i - 1]);
                }
            }
        }
    }
}

proof fn lemma_cutoff_at(m: Seq<Seq<Annotation>>, k: int)
    requires
        is_first_cutoff(m, k),
    ensures
        cutoff_position(m) == Some(k as usize),
{
    let d = choose|g: int| is_first_cutoff(m, g);
    assert(is_first_cutoff(m, d));
    if d < k {
        assert(!carries_cutoff(m[d]));
    }
    if k < d {
        assert(!carries_cutoff(m[k]));
    }
}

proof fn lemma_cutoff_at_most(m: Seq<Seq<Annotation>>, k: int)
    requires
        0 <= k < m.len(),
        carries_cutoff(m[k]),
    ensures
        cutoff_position(m) is Some,
        cutoff_position(m).unwrap() <= k,
    decreases k,
{
    if exists|g: int| 0 <= g < k && carries_cutoff(#[trigger] m[g]) {
        let g = choose|g: int| 0 <= g < k && carries_cutoff(#[trigger] m[g]);
        lemma_cutoff_at_most(m, g);
    } else {
        lemma_cutoff_at(m, k);
    }
}

proof fn lemma_no_cutoff(m: Seq<Seq<Annotation>>)
    requires
        forall|g: int, j: int|
            0 <= g < m.len() && 0 <= j < m[g].len() ==> !(#[trigger] m[g][j]).has_arguments
                && m[g][j].kind != AnnotationKind::ExcludeFromHere,
    ensures
        cutoff_position(m) is None,
{
    if exists|f: int| is_first_cutoff(m, f) {
        let f = choose|f: int| is_first_cutoff(m, f);
        let j = choose|j: int| 0 <= j < m[f].len() && is_valid_cutoff(m[f][j]);
        assert(is_valid_cutoff(m[f][j]));
    }
}

proof fn lemma_field_without_cutoffs(m: Seq<Seq<Annotation>>, f: int)
    requires
        0 <= f < m.len(),
        forall|j: int| 0 <= j < m[f].len() ==> (#[trigger] m[f][j]).kind != AnnotationKind::ExcludeFromHere,
    ensures
        cutoff_field_diagnostics(m, f) == Seq::<Diagnostic>::empty(),
{
    lemma_flatten_empty(Seq::new(m[f].len(), |j: int| cutoff_diagnostics_at(m, f, j)));
}

proof fn lemma_field_without_excludes(m: Seq<Seq<Annotation>>, f: int)
    requires
        0 <= f < m.len(),
        forall|j: int| 0 <= j < m[f].len() ==> (#[trigger] m[f][j]).kind != AnnotationKind::Exclude,
    ensures
        exclude_field_diagnostics(m, f) == Seq::<Diagnostic>::empty(),
{
    lemma_flatten_empty(Seq::new(m[f].len(), |j: int| exclude_diagnostics_at(m, f, j)));
}

/// With no annotations at all, every field is torn down, from the last to
/// the first.
pub proof fn law_no_annotations(fields: Seq<FieldDecl>)
    requires
        forall|f: int| 0 <= f < fields.len() ==> (#[trigger] fields[f]).annotations@.len() == 0,
    ensures
        plan_of(record_model(fields)) == descending(fields.len()),
{
    let m = record_model(fields);
    assert forall|f: int| 0 <= f < m.len() implies (#[trigger] m[f]).len() == 0 by {
        assert(m[f] == fields[f].annotations@);
    }
    lemma_no_cutoff(m);
    let table = attribute_table(m);
    lemma_plan_unexcluded(m.len() as int, table);
}

/// A well-formed `Exclude` on field `k` as the record's only annotation
/// removes exactly that field from the full reverse order, the others
/// keeping their order.
pub proof fn law_single_exclude(fields: Seq<FieldDecl>, k: int)
    requires
        0 <= k < fields.len(),
        fields[k].annotations@ == seq![plain(AnnotationKind::Exclude)],
        forall|f: int| 0 <= f < fields.len() && f != k ==> (#[trigger] fields[f]).annotations@.len() == 0,
    ensures
        plan_of(record_model(fields)) == descending(fields.len()).remove(fields.len() - 1 - k),
{
    let m = record_model(fields);
    assert forall|f: int| 0 <= f < m.len() implies (#[trigger] m[f]) == fields[f].annotations@ by {}
    lemma_no_cutoff(m);
    let table = attribute_table(m);
    assert forall|f: int| 0 <= f < m.len() implies (#[trigger] table[f]) == (f == k) by {
        if f == k {
            assert(marks_exclusion(m, k, 0));
        }
    }
    lemma_plan_one_excluded(m.len() as int, table, k);
}

/// A well-formed `ExcludeFromHere` on field `k` keeps field `k` and every
/// later field out of the plan, which lists positions in strictly
/// descending order. When no field before `k` is annotated, the plan is
/// exactly `k-1, ..., 0`, whatever the fields from `k` on carry.
pub proof fn law_cutoff(fields: Seq<FieldDecl>, k: int)
    requires
        fields.len() <= usize::MAX,
        0 <= k < fields.len(),
        carries_cutoff(fields[k].annotations@),
    ensures
        forall|i: int|
            0 <= i < plan_of(record_model(fields)).len() ==> (#[trigger] plan_of(
                record_model(fields),
            )[i]) < k,
        forall|i: int, j: int|
            0 <= i < j < plan_of(record_model(fields)).len() ==> plan_of(record_model(fields))[i]
                > plan_of(record_model(fields))[j],
        (forall|g: int| 0 <= g < k ==> (#[trigger] fields[g]).annotations@.len() == 0) ==> plan_of(
            record_model(fields),
        ) == descending(k as nat),
{
    let m = record_model(fields);
    assert(m[k] == fields[k].annotations@);
    lemma_cutoff_at_most(m, k);
    let c = cutoff_position(m).unwrap() as int;
    let table = attribute_table(m);
    lemma_plan_shape(c, table);
    if forall|g: int| 0 <= g < k ==> (#[trigger] fields[g]).annotations@.len() == 0 {
        assert forall|g: int| 0 <= g < k implies !carries_cutoff(#[trigger] m[g]) by {
            assert(m[g] == fields[g].annotations@);
        }
        lemma_cutoff_at(m, k);
        assert forall|f: int| 0 <= f < k implies !(#[trigger] table[f]) by {
            assert(m[f] == fields[f].annotations@);
        }
        lemma_plan_unexcluded(k, table);
    }
}

/// Well-formed `ExcludeFromHere` annotations on fields `i < j` as the
/// record's only annotations give exactly one diagnostic, at the second
/// one, and the plan stops at the first.
pub proof fn law_duplicate_cutoff(fields: Seq<FieldDecl>, i: int, j: int)
    requires
        fields.len() <= usize::MAX,
        0 <= i < j < fields.len(),
        fields[i].annotations@ == seq![plain(AnnotationKind::ExcludeFromHere)],
        fields[j].annotations@ == seq![plain(AnnotationKind::ExcludeFromHere)],
        forall|f: int|
            0 <= f < fields.len() && f != i && f != j ==> (#[trigger] fields[f]).annotations@.len()
                == 0,
    ensures
        diagnostics_of(record_model(fields)) == seq![diag(DiagnosticKind::MultipleCutoffs, j, 0)],
        plan_of(record_model(fields)) == descending(i as nat),
{
    let m = record_model(fields);
    assert forall|f: int| 0 <= f < m.len() implies (#[trigger] m[f]) == fields[f].annotations@ by {}
    assert(is_valid_cutoff(m[i][0]));
    assert(is_first_cutoff(m, i));
    lemma_cutoff_at(m, i);
    let table = attribute_table(m);
    assert forall|f: int| 0 <= f < i implies !(#[trigger] table[f]) by {
        assert(m[f].len() == 0);
    }
    lemma_plan_unexcluded(i, table);

    let d = diag(DiagnosticKind::MultipleCutoffs, j, 0);
    assert(!cutoff_recorded_before(m, i, 0));
    assert(cutoff_diagnostics_at(m, i, 0) == Seq::<Diagnostic>::empty());
    lemma_flatten_empty(Seq::new(m[i].len(), |x: int| cutoff_diagnostics_at(m, i, x)));
    assert(cutoff_recorded_before(m, j, 0));
    assert(cutoff_diagnostics_at(m, j, 0) == seq![d]);
    lemma_flatten_single(Seq::new(m[j].len(), |x: int| cutoff_diagnostics_at(m, j, x)), 0);
    let cs = Seq::new(m.len(), |f: int| cutoff_field_diagnostics(m, f));
    assert forall|f: int| 0 <= f < cs.len() && f != j implies (#[trigger] cs[f]).len() == 0 by {
        if f != i {
            lemma_field_without_cutoffs(m, f);
        }
    }
    lemma_flatten_single(cs, j);
    let es = Seq::new(m.len(), |f: int| exclude_field_diagnostics(m, f));
    assert forall|f: int| 0 <= f < es.len() implies (#[trigger] es[f]).len() == 0 by {
        lemma_field_without_excludes(m, f);
    }
    lemma_flatten_empty(es);
    assert(diagnostics_of(m) =~= seq![d]);
}

/// Two well-formed `Exclude` annotations on field `k` as the record's only
/// annotations give exactly one diagnostic, at the second one, and field
/// `k` is still left out of the plan.
pub proof fn law_duplicate_exclude(fields: Seq<FieldDecl>, k: int)
    requires
        fields.len() <= usize::MAX,
        0 <= k < fields.len(),
        fields[k].annotations@ == seq![plain(AnnotationKind::Exclude), plain(AnnotationKind::Exclude)],
        forall|f: int| 0 <= f < fields.len() && f != k ==> (#[trigger] fields[f]).annotations@.len() == 0,
    ensures
        diagnostics_of(record_model(fields)) == seq![diag(DiagnosticKind::MultipleExcludes, k, 1)],
        !plan_of(record_model(fields)).contains(k as usize),
        plan_of(record_model(fields)) == descending(fields.len()).remove(fields.len() - 1 - k),
{
    let m = record_model(fields);
    let n = m.len() as int;
    assert forall|f: int| 0 <= f < m.len() implies (#[trigger] m[f]) == fields[f].annotations@ by {}
    lemma_no_cutoff(m);
    let table = attribute_table(m);
    assert forall|f: int| 0 <= f < m.len() implies (#[trigger] table[f]) == (f == k) by {
        if f == k {
            assert(marks_exclusion(m, k, 0));
        }
    }
    lemma_plan_one_excluded(n, table, k);
    let p = plan_of(m);
    assert forall|x: int| 0 <= x < p.len() implies (#[trigger] p[x]) != k as usize by {
        if x < n - 1 - k {
            assert(p[x] == (n - 1 - x) as usize);
        } else {
            assert(p[x] == (n - 2 - x) as usize);
        }
    }

    let d = diag(DiagnosticKind::MultipleExcludes, k, 1);
    assert(!exclude_before(m[k], 0));
    assert(exclude_diagnostics_at(m, k, 0) =~= Seq::<Diagnostic>::empty());
    assert(exclude_before(m[k], 1));
    assert(exclude_diagnostics_at(m, k, 1) =~= seq![d]);
    lemma_flatten_single(Seq::new(m[k].len(), |x: int| exclude_diagnostics_at(m, k, x)), 1);
    let es = Seq::new(m.len(), |f: int| exclude_field_diagnostics(m, f));
    assert forall|f: int| 0 <= f < es.len() && f != k implies (#[trigger] es[f]).len() == 0 by {
        lemma_field_without_excludes(m, f);
    }
    lemma_flatten_single(es, k);
    let cs = Seq::new(m.len(), |f: int| cutoff_field_diagnostics(m, f));
    assert forall|f: int| 0 <= f < cs.len() implies (#[trigger] cs[f]).len() == 0 by {
        lemma_field_without_cutoffs(m, f);
    }
    lemma_flatten_empty(cs);
    assert(diagnostics_of(m) =~= seq![d]);
}

} // verus!
