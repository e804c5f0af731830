use vstd::prelude::*;

verus! {

/// The two annotations a field may carry.
#[derive(Clone, Copy, PartialEq, Eq, Structural, Debug)]
pub enum AnnotationKind {
    /// Leave this one field out of teardown.
    Exclude,
    /// Leave this field and every later one out of teardown.
    ExcludeFromHere,
}

/// One occurrence of an annotation on a field. Neither kind accepts
/// arguments; `has_arguments` records whether the occurrence had any.
#[derive(Clone, Copy, PartialEq, Eq, Structural, Debug)]
pub struct Annotation {
    pub kind: AnnotationKind,
    pub has_arguments: bool,
}

/// A declared field. Its position is its index in the record's field list.
#[derive(Clone, Debug)]
pub struct FieldDecl {
    pub annotations: Vec<Annotation>,
}

/// The shape of the type being analysed. Only a product type has a flat
/// field list that can be torn down.
#[derive(Clone, Debug)]
pub enum RecordShape {
    Product(Vec<FieldDecl>),
    Sum,
    Union,
}

/// A record as a sequence of fields, each the sequence of its annotations.
pub open spec fn record_model(fields: Seq<FieldDecl>) -> Seq<Seq<Annotation>> {
    fields.map_values(|f: FieldDecl| f.annotations@)
}

pub open spec fn is_exclude(a: Annotation) -> bool {
    a.kind == AnnotationKind::Exclude
}

pub open spec fn is_cutoff(a: Annotation) -> bool {
    a.kind == AnnotationKind::ExcludeFromHere
}

/// An `ExcludeFromHere` occurrence that is well formed.
pub open spec fn is_valid_cutoff(a: Annotation) -> bool {
    is_cutoff(a) && !a.has_arguments
}

/// Some annotation of the field is a well-formed `ExcludeFromHere`.
pub open spec fn carries_cutoff(anns: Seq<Annotation>) -> bool {
    exists|j: int| 0 <= j < anns.len() && #[trigger] is_valid_cutoff(anns[j])
}

} // verus!
