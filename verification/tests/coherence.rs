use gustc::ast::{FunctionTypeParam, FunctionTypeRef, ImplDecl, Item, Program, TypeRef};
use gustc::diagnostic::{Diagnostic, Severity};
use gustc::monomorphize::coherence::{impl_headers_overlap, validate_impl_coherence};
use gustc::span::Span;

fn at(start: usize) -> Span {
    Span::new(start, start + 1)
}

fn ty(name: &str, args: Vec<TypeRef>) -> TypeRef {
    TypeRef { name: name.to_string(), args, bindings: Vec::new(), function: None, span: at(0) }
}

fn function_type(params: Vec<(bool, TypeRef)>, result: TypeRef) -> TypeRef {
    TypeRef {
        name: "fn".to_string(),
        args: Vec::new(),
        bindings: Vec::new(),
        function: Some(FunctionTypeRef {
            params: params.into_iter().map(|(mutable, type_ref)| FunctionTypeParam { mutable, type_ref }).collect(),
            return_type: Box::new(result),
        }),
        span: at(0),
    }
}

fn imp(params: &[&str], trait_ref: TypeRef, type_ref: TypeRef, start: usize) -> ImplDecl {
    ImplDecl {
        type_params: params.iter().map(|p| p.to_string()).collect(),
        type_param_bounds: Vec::new(),
        trait_ref,
        type_ref,
        associated_types: Vec::new(),
        methods: Vec::new(),
        span: at(start),
    }
}

#[test]
fn identical_headers_overlap() {
    let a = imp(&[], ty("Show", vec![]), ty("i32", vec![]), 1);
    let b = imp(&[], ty("Show", vec![]), ty("i32", vec![]), 2);
    assert!(impl_headers_overlap(&a, &b));
    let c = imp(&[], ty("Show", vec![]), ty("bool", vec![]), 3);
    assert!(!impl_headers_overlap(&a, &c));
    let d = imp(&[], ty("Debug", vec![]), ty("i32", vec![]), 4);
    assert!(!impl_headers_overlap(&a, &d));
}

#[test]
fn a_generic_impl_overlaps_its_instances() {
    let generic = imp(&["T"], ty("Show", vec![]), ty("List", vec![ty("T", vec![])]), 1);
    let ints = imp(&[], ty("Show", vec![]), ty("List", vec![ty("i32", vec![])]), 2);
    let bools = imp(&[], ty("Show", vec![]), ty("List", vec![ty("bool", vec![])]), 3);
    assert!(impl_headers_overlap(&generic, &ints));
    assert!(impl_headers_overlap(&ints, &generic));
    assert!(!impl_headers_overlap(&ints, &bools));
    let blanket = imp(&["U"], ty("Show", vec![]), ty("U", vec![]), 4);
    assert!(impl_headers_overlap(&generic, &blanket));
    let other_list = imp(&["T"], ty("Show", vec![]), ty("List", vec![ty("T", vec![]), ty("T", vec![])]), 5);
    assert!(!impl_headers_overlap(&generic, &other_list));
}

#[test]
fn bindings_carry_from_the_trait_to_the_type() {
    let left = imp(
        &["T"],
        ty("Eq", vec![ty("T", vec![])]),
        ty("Pair", vec![ty("T", vec![]), ty("i32", vec![])]),
        1,
    );
    let right = imp(
        &["U"],
        ty("Eq", vec![ty("bool", vec![])]),
        ty("Pair", vec![ty("U", vec![]), ty("U", vec![])]),
        2,
    );
    assert!(!impl_headers_overlap(&left, &right));
    let right_ints = imp(
        &["U"],
        ty("Eq", vec![ty("i32", vec![])]),
        ty("Pair", vec![ty("U", vec![]), ty("U", vec![])]),
        3,
    );
    assert!(impl_headers_overlap(&left, &right_ints));
}

#[test]
fn a_variable_never_equals_a_type_that_holds_it() {
    let left = imp(&["T"], ty("Same", vec![ty("T", vec![])]), ty("List", vec![ty("T", vec![])]), 1);
    let right = imp(&["U"], ty("Same", vec![ty("List", vec![ty("U", vec![])])]), ty("U", vec![]), 2);
    assert!(!impl_headers_overlap(&left, &right));
}

#[test]
fn function_types_compare_by_parameters_and_result() {
    let left = imp(&["T"], ty("Call", vec![]), function_type(vec![(false, ty("T", vec![]))], ty("bool", vec![])), 1);
    let right = imp(&[], ty("Call", vec![]), function_type(vec![(false, ty("i32", vec![]))], ty("bool", vec![])), 2);
    assert!(impl_headers_overlap(&left, &right));
    let mutable = imp(&[], ty("Call", vec![]), function_type(vec![(true, ty("i32", vec![]))], ty("bool", vec![])), 3);
    assert!(!impl_headers_overlap(&left, &mutable));
    let named_fn = imp(&[], ty("Call", vec![]), ty("fn", vec![]), 4);
    assert!(!impl_headers_overlap(&right, &named_fn));
}

#[test]
fn each_conflict_with_an_earlier_impl_is_reported() {
    let program = Program {
        items: vec![
            Item::Impl(imp(&[], ty("Show", vec![]), ty("i32", vec![]), 1)),
            Item::Impl(imp(&["T"], ty("Show", vec![]), ty("T", vec![]), 2)),
            Item::Impl(imp(&[], ty("Show", vec![]), ty("i32", vec![]), 3)),
            Item::Impl(imp(&[], ty("Debug", vec![]), ty("i32", vec![]), 4)),
        ],
    };
    let mut diagnostics: Vec<Diagnostic> = Vec::new();
    validate_impl_coherence(&program, &mut diagnostics);
    let spans: Vec<Span> = diagnostics.iter().map(|d| d.span).collect();
    assert_eq!(spans, vec![at(2), at(3), at(3)]);
    assert!(diagnostics.iter().all(|d| d.severity == Severity::Error));
    assert_eq!(diagnostics[1].message, "conflicting implementations of trait `Show` for type `i32`");
}
