use ash_destructor_derive::analyze::{analyze_record, Analysis, UnsupportedShape};
use ash_destructor_derive::order::teardown_order;
use ash_destructor_derive::record::{Annotation, AnnotationKind, FieldDecl, RecordShape};
use ash_destructor_derive::validate::{parse_attributes, Diagnostic, DiagnosticKind, FieldAttributes};

fn plain(kind: AnnotationKind) -> Annotation {
    Annotation { kind, has_arguments: false }
}

fn with_arguments(kind: AnnotationKind) -> Annotation {
    Annotation { kind, has_arguments: true }
}

fn field(annotations: Vec<Annotation>) -> FieldDecl {
    FieldDecl { annotations }
}

fn bare(n: usize) -> Vec<FieldDecl> {
    (0..n).map(|_| field(vec![])).collect()
}

fn analyze(fields: Vec<FieldDecl>) -> Analysis {
    match analyze_record(&RecordShape::Product(fields)) {
        Ok(a) => a,
        Err(e) => panic!("a product type was refused: {:?}", e),
    }
}

fn at(kind: DiagnosticKind, field: usize, annotation: usize) -> Diagnostic {
    Diagnostic { kind, field, annotation }
}

#[test]
fn no_annotations_tears_down_in_reverse() {
    let a = analyze(bare(5));
    assert_eq!(a.plan, vec![4, 3, 2, 1, 0]);
    assert!(a.diagnostics.is_empty());
    assert!(a.is_clean());
}

#[test]
fn empty_record_has_empty_plan() {
    let a = analyze(vec![]);
    assert!(a.plan.is_empty());
    assert!(a.diagnostics.is_empty());
}

#[test]
fn single_exclude_removes_only_that_field() {
    let mut fields = bare(5);
    fields[2] = field(vec![plain(AnnotationKind::Exclude)]);
    let a = analyze(fields);
    assert_eq!(a.plan, vec![4, 3, 1, 0]);
    assert!(a.diagnostics.is_empty());
}

#[test]
fn cutoff_ignores_exclude_flags_after_it() {
    let mut fields = bare(5);
    fields[2] = field(vec![plain(AnnotationKind::ExcludeFromHere)]);
    fields[3] = field(vec![plain(AnnotationKind::Exclude)]);
    let a = analyze(fields);
    assert_eq!(a.plan, vec![1, 0]);
    assert_eq!(a.diagnostics, vec![at(DiagnosticKind::ExcludeAfterCutoff, 3, 0)]);
}

#[test]
fn duplicate_cutoff_keeps_the_first() {
    let mut fields = bare(5);
    fields[1] = field(vec![plain(AnnotationKind::ExcludeFromHere)]);
    fields[3] = field(vec![plain(AnnotationKind::ExcludeFromHere)]);
    let a = analyze(fields);
    assert_eq!(a.plan, vec![0]);
    assert_eq!(a.diagnostics, vec![at(DiagnosticKind::MultipleCutoffs, 3, 0)]);
    assert!(!a.is_clean());
}

#[test]
fn duplicate_exclude_still_excludes() {
    let mut fields = bare(3);
    fields[1] = field(vec![plain(AnnotationKind::Exclude), plain(AnnotationKind::Exclude)]);
    let a = analyze(fields);
    assert_eq!(a.plan, vec![2, 0]);
    assert_eq!(a.diagnostics, vec![at(DiagnosticKind::MultipleExcludes, 1, 1)]);
}

#[test]
fn sum_type_is_refused() {
    match analyze_record(&RecordShape::Sum) {
        Err(e) => assert_eq!(e, UnsupportedShape::Sum),
        Ok(_) => panic!("a sum type was analysed"),
    }
}

#[test]
fn union_type_is_refused() {
    match analyze_record(&RecordShape::Union) {
        Err(e) => assert_eq!(e, UnsupportedShape::Union),
        Ok(_) => panic!("a union type was analysed"),
    }
}

#[test]
fn named_fields_with_middle_exclude() {
    // a, b, c, d with b excluded
    let mut fields = bare(4);
    fields[1] = field(vec![plain(AnnotationKind::Exclude)]);
    let a = analyze(fields);
    assert_eq!(a.plan, vec![3, 2, 0]);
    let names = ["a", "b", "c", "d"];
    let order: Vec<&str> = a.plan.iter().map(|&i| names[i]).collect();
    assert_eq!(order, vec!["d", "c", "a"]);
    assert!(a.diagnostics.is_empty());
}

#[test]
fn cutoff_on_middle_field() {
    let mut fields = bare(3);
    fields[1] = field(vec![plain(AnnotationKind::ExcludeFromHere)]);
    let a = analyze(fields);
    assert_eq!(a.plan, vec![0]);
    assert!(a.diagnostics.is_empty());
}

#[test]
fn cutoff_on_both_fields() {
    let fields = vec![
        field(vec![plain(AnnotationKind::ExcludeFromHere)]),
        field(vec![plain(AnnotationKind::ExcludeFromHere)]),
    ];
    let a = analyze(fields);
    assert!(a.plan.is_empty());
    assert_eq!(a.diagnostics, vec![at(DiagnosticKind::MultipleCutoffs, 1, 0)]);
}

#[test]
fn cutoff_with_arguments_is_not_recorded() {
    let mut fields = bare(4);
    fields[0] = field(vec![with_arguments(AnnotationKind::ExcludeFromHere)]);
    fields[2] = field(vec![plain(AnnotationKind::ExcludeFromHere)]);
    let a = analyze(fields);
    assert_eq!(a.plan, vec![1, 0]);
    assert_eq!(a.diagnostics, vec![at(DiagnosticKind::CutoffWithArguments, 0, 0)]);
}

#[test]
fn exclude_with_arguments_is_reported_and_ignored() {
    let mut fields = bare(2);
    fields[0] = field(vec![with_arguments(AnnotationKind::Exclude)]);
    let a = analyze(fields);
    assert_eq!(a.plan, vec![1, 0]);
    assert_eq!(a.diagnostics, vec![at(DiagnosticKind::ExcludeWithArguments, 0, 0)]);
}

#[test]
fn exclude_on_the_cutoff_field_is_reported() {
    let mut fields = bare(3);
    fields[1] = field(vec![
        plain(AnnotationKind::ExcludeFromHere),
        plain(AnnotationKind::Exclude),
    ]);
    let a = analyze(fields);
    assert_eq!(a.plan, vec![0]);
    assert_eq!(a.diagnostics, vec![at(DiagnosticKind::ExcludeAfterCutoff, 1, 1)]);
}

#[test]
fn every_problem_of_one_occurrence_is_reported() {
    let mut fields = bare(3);
    fields[0] = field(vec![plain(AnnotationKind::ExcludeFromHere)]);
    fields[2] = field(vec![
        plain(AnnotationKind::Exclude),
        with_arguments(AnnotationKind::Exclude),
    ]);
    let a = analyze(fields);
    assert!(a.plan.is_empty());
    assert_eq!(
        a.diagnostics,
        vec![
            at(DiagnosticKind::ExcludeAfterCutoff, 2, 0),
            at(DiagnosticKind::ExcludeAfterCutoff, 2, 1),
            at(DiagnosticKind::MultipleExcludes, 2, 1),
            at(DiagnosticKind::ExcludeWithArguments, 2, 1),
        ]
    );
}

#[test]
fn first_sweep_reports_before_second() {
    let fields = vec![
        field(vec![with_arguments(AnnotationKind::Exclude)]),
        field(vec![
            plain(AnnotationKind::ExcludeFromHere),
            plain(AnnotationKind::ExcludeFromHere),
        ]),
    ];
    let a = analyze(fields);
    assert_eq!(a.plan, vec![0]);
    assert_eq!(
        a.diagnostics,
        vec![
            at(DiagnosticKind::MultipleCutoffs, 1, 1),
            at(DiagnosticKind::ExcludeWithArguments, 0, 0),
        ]
    );
}

#[test]
fn parse_attributes_appends_to_existing_errors() {
    let mut fields = bare(3);
    fields[0] = field(vec![plain(AnnotationKind::Exclude)]);
    fields[2] = field(vec![plain(AnnotationKind::ExcludeFromHere)]);
    fields[1] = field(vec![plain(AnnotationKind::Exclude), plain(AnnotationKind::Exclude)]);
    let earlier = at(DiagnosticKind::CutoffWithArguments, 9, 9);
    let mut errors = vec![earlier];
    let (cutoff, attrs) = parse_attributes(&fields, &mut errors);
    assert_eq!(cutoff, Some(2));
    let flags: Vec<bool> = attrs.iter().map(|a| a.excluded).collect();
    assert_eq!(flags, vec![true, true, false]);
    assert_eq!(errors, vec![earlier, at(DiagnosticKind::MultipleExcludes, 1, 1)]);
}

#[test]
fn teardown_order_respects_boundary_and_flags() {
    let attrs: Vec<FieldAttributes> = [false, true, false, false, true]
        .iter()
        .map(|&excluded| FieldAttributes { excluded })
        .collect();
    assert_eq!(teardown_order(None, &attrs), vec![3, 2, 0]);
    assert_eq!(teardown_order(Some(3), &attrs), vec![2, 0]);
    assert_eq!(teardown_order(Some(0), &attrs), Vec::<usize>::new());
    assert_eq!(teardown_order(Some(5), &attrs), vec![3, 2, 0]);
}
