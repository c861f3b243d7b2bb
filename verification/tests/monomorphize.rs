use gustc::ast::{
    AssociatedTypeBinding, FunctionTypeParam, FunctionTypeRef, Item, StructDecl, TraitDecl, TypeRef,
};
use gustc::ast::{
    AssociatedTypeDecl, Block, FunctionBody, FunctionDecl, Param, StructMember, TraitMethodDecl,
};
use gustc::monomorphize::associated::{
    trait_required_associated_type_names, trait_requires_associated_bindings, type_ref_contains_name,
};
use gustc::monomorphize::substitute::substitute_type;
use gustc::monomorphize::types::{
    concrete_trait_refs, concrete_type_name, concrete_type_refs, consistent_type, find_method_member,
    requested_trait_method, specialized_name, specialized_trait_name, trait_name_matches_request,
    type_arg_names, type_names, type_ref_name,
};
use gustc::ast::{Expr, ExprKind};
use gustc::monomorphize::defaults::{trait_default_extension, trait_default_extensions};
use gustc::monomorphize::impls::{concrete_impl_exists, find_text};
use gustc::span::Span;

fn named(name: &str) -> TypeRef {
    TypeRef {
        name: name.to_string(),
        args: Vec::new(),
        bindings: Vec::new(),
        function: None,
        span: Span::new(0, 0),
    }
}

fn generic(name: &str, args: Vec<TypeRef>) -> TypeRef {
    let mut type_ref = named(name);
    type_ref.args = args;
    type_ref
}

fn binding(name: &str, type_ref: TypeRef) -> AssociatedTypeBinding {
    AssociatedTypeBinding { name: name.to_string(), type_ref, span: Span::new(0, 0) }
}

#[test]
fn type_names_of_plain_and_generic_types() {
    assert_eq!(type_ref_name(&named("Int")), "Int");
    assert_eq!(type_ref_name(&generic("List", vec![named("Int")])), "List<Int>");
    assert_eq!(
        type_ref_name(&generic("Map", vec![named("String"), generic("List", vec![named("Int")])])),
        "Map<String, List<Int>>"
    );
}

#[test]
fn type_name_of_trait_with_binding() {
    let mut iterator = named("Iterator");
    iterator.bindings.push(binding("Item", named("Int")));
    assert_eq!(type_ref_name(&iterator), "Iterator<type Item: Int>");
    let mut both = generic("Into", vec![named("Bool")]);
    both.bindings.push(binding("Output", named("Int")));
    assert_eq!(type_ref_name(&both), "Into<Bool, type Output: Int>");
}

#[test]
fn type_name_of_function_type() {
    let mut function = named("fn");
    function.function = Some(FunctionTypeRef {
        params: vec![
            FunctionTypeParam { mutable: true, type_ref: named("Int") },
            FunctionTypeParam { mutable: false, type_ref: named("Bool") },
        ],
        return_type: Box::new(named("Void")),
    });
    assert_eq!(type_ref_name(&function), "fn(mut Int, Bool): Void");
}

#[test]
fn specialized_names_list_their_arguments() {
    assert_eq!(specialized_name("Box", &vec![named("Int")]), "Box<Int>");
    assert_eq!(specialized_name("Pair", &vec![named("Int"), named("Bool")]), "Pair<Int, Bool>");
    assert_eq!(specialized_name("Unit", &Vec::new()), "Unit<>");
    assert_eq!(
        specialized_trait_name("Iterator", &Vec::new(), &vec![binding("Item", named("Int"))]),
        "Iterator<type Item: Int>"
    );
    assert_eq!(specialized_trait_name("Show", &vec![named("Int")], &Vec::new()), "Show<Int>");
}

#[test]
fn concrete_type_name_only_without_arguments() {
    assert_eq!(concrete_type_name(&named("Int")), Some("Int".to_string()));
    assert_eq!(concrete_type_name(&generic("List", vec![named("Int")])), None);
}

#[test]
fn type_names_walk_arguments_in_order() {
    let type_ref = generic("Map", vec![named("String"), generic("List", vec![named("Int")])]);
    assert_eq!(type_names(&type_ref), vec!["Map", "String", "List", "Int"]);
    assert_eq!(type_arg_names(&type_ref), vec!["String", "List", "Int"]);
}

#[test]
fn requested_trait_method_splits_at_last_separator() {
    assert_eq!(requested_trait_method("Show::show"), (Some("Show"), "show"));
    assert_eq!(requested_trait_method("a::b::c"), (Some("a::b"), "c"));
    assert_eq!(requested_trait_method("show"), (None, "show"));
}

#[test]
fn trait_names_match_by_last_segment() {
    assert!(trait_name_matches_request("Show", "Show"));
    assert!(trait_name_matches_request("pkg::Show", "Show"));
    assert!(!trait_name_matches_request("Shows", "Show"));
    assert!(!trait_name_matches_request("Show::Other", "Show"));
}

#[test]
fn concrete_refs_come_from_declarations() {
    let items = vec![
        Item::Struct(StructDecl {
            name: "Point".to_string(),
            exported: false,
            type_params: Vec::new(),
            type_param_bounds: Vec::new(),
            members: Vec::new(),
            span: Span::new(0, 10),
        }),
        Item::Trait(TraitDecl {
            name: "Show".to_string(),
            exported: true,
            type_params: Vec::new(),
            type_param_bounds: Vec::new(),
            associated_types: Vec::new(),
            methods: Vec::new(),
            span: Span::new(11, 20),
        }),
    ];
    let types = concrete_type_refs(&items);
    assert_eq!(types.len(), 1);
    assert_eq!(types[0].name, "Point");
    assert_eq!(types[0].span, Span::new(0, 10));
    let traits = concrete_trait_refs(&items);
    assert_eq!(traits.len(), 1);
    assert_eq!(traits[0].name, "Show");
    assert_eq!(traits[0].span, Span::new(11, 20));
}

#[test]
fn substitute_replaces_parameters_and_keeps_their_spans() {
    let mut list = generic("List", vec![named("T")]);
    list.args[0].span = Span::new(5, 6);
    let mut replacement = generic("Map", vec![named("String"), named("Int")]);
    replacement.span = Span::new(100, 110);
    let substitutions = vec![("T".to_string(), replacement), ("T".to_string(), named("Bool"))];
    let result = substitute_type(&list, &substitutions);
    assert_eq!(type_ref_name(&result), "List<Map<String, Int>>");
    assert_eq!(result.args[0].span, Span::new(5, 6));
    let untouched = substitute_type(&generic("T", vec![named("Int")]), &substitutions);
    assert_eq!(type_ref_name(&untouched), "T<Int>");
}

#[test]
fn contains_name_looks_everywhere() {
    let mut iterator = generic("Iterator", vec![named("Int")]);
    iterator.bindings.push(binding("Item", named("Self.Item")));
    assert!(type_ref_contains_name(&iterator, "Self.Item"));
    assert!(type_ref_contains_name(&iterator, "Int"));
    assert!(!type_ref_contains_name(&iterator, "Bool"));
}

fn method(params: Vec<Option<TypeRef>>, return_type: Option<TypeRef>) -> TraitMethodDecl {
    TraitMethodDecl {
        name: "next".to_string(),
        static_: false,
        type_params: Vec::new(),
        type_param_bounds: Vec::new(),
        params: params
            .into_iter()
            .map(|type_ref| Param { name: "p".to_string(), mutable: false, type_ref, span: Span::new(0, 0) })
            .collect(),
        return_type,
        body: None,
        span: Span::new(0, 0),
    }
}

fn associated(name: &str, type_params: Vec<String>) -> AssociatedTypeDecl {
    AssociatedTypeDecl {
        name: name.to_string(),
        type_params,
        type_param_bounds: Vec::new(),
        bounds: Vec::new(),
        default: None,
        span: Span::new(0, 0),
    }
}

#[test]
fn required_associated_types_are_those_used_through_self() {
    let trait_ = TraitDecl {
        name: "Iterator".to_string(),
        exported: false,
        type_params: Vec::new(),
        type_param_bounds: Vec::new(),
        associated_types: vec![
            associated("Item", Vec::new()),
            associated("Unused", Vec::new()),
            associated("Generic", vec!["T".to_string()]),
            associated("Item", Vec::new()),
        ],
        methods: vec![method(vec![Some(named("Self.Generic"))], Some(generic("Option", vec![named("Self.Item")])))],
        span: Span::new(0, 0),
    };
    assert_eq!(trait_required_associated_type_names(&trait_), vec!["Item".to_string()]);
    assert!(trait_requires_associated_bindings(&trait_));
    let plain = TraitDecl { associated_types: vec![associated("Unused", Vec::new())], ..trait_ };
    assert!(trait_required_associated_type_names(&plain).is_empty());
    assert!(!trait_requires_associated_bindings(&plain));
}

fn function_named(name: &str) -> FunctionDecl {
    FunctionDecl {
        name: Some(name.to_string()),
        exported: false,
        type_params: Vec::new(),
        type_param_bounds: Vec::new(),
        params: Vec::new(),
        return_type: None,
        body: FunctionBody::Block(Block { statements: Vec::new(), span: Span::new(0, 0) }),
        span: Span::new(0, 0),
    }
}

#[test]
fn find_method_member_respects_static_flag() {
    let mut first = function_named("make");
    first.exported = true;
    let members = vec![
        StructMember::StaticMethod(first),
        StructMember::Method(function_named("make")),
        StructMember::Method(function_named("show")),
    ];
    let found = find_method_member(&members, "make", false).unwrap();
    assert!(!found.exported);
    let found = find_method_member(&members, "make", true).unwrap();
    assert!(found.exported);
    assert!(find_method_member(&members, "show", true).is_none());
    assert!(find_method_member(&members, "missing", false).is_none());
}

#[test]
fn consistent_type_needs_equal_names() {
    let types = vec![generic("List", vec![named("Int")]), generic("List", vec![named("Int")])];
    assert_eq!(type_ref_name(consistent_type(&types).unwrap()), "List<Int>");
    let mixed = vec![named("Int"), named("Bool")];
    assert!(consistent_type(&mixed).is_none());
    assert!(consistent_type(&Vec::new()).is_none());
}

fn impl_of(trait_ref: TypeRef, type_ref: TypeRef, associated: Vec<&str>) -> gustc::ast::ImplDecl {
    gustc::ast::ImplDecl {
        type_params: Vec::new(),
        type_param_bounds: Vec::new(),
        trait_ref,
        type_ref,
        associated_types: associated
            .iter()
            .map(|name| gustc::ast::AssociatedTypeDef {
                name: name.to_string(),
                type_params: Vec::new(),
                type_param_bounds: Vec::new(),
                type_ref: named("Int"),
                span: Span::new(0, 0),
            })
            .collect(),
        methods: Vec::new(),
        span: Span::new(0, 0),
    }
}

#[test]
fn impl_identity_name_drops_own_bindings() {
    let mut iterator = named("Iterator");
    iterator.bindings.push(binding("Item", named("Int")));
    let decl = impl_of(iterator, named("Counter"), vec!["Item"]);
    assert_eq!(gustc::monomorphize::impls::impl_trait_identity_name(&decl), "Iterator");
    let mut convert = generic("Convert", vec![named("Bool")]);
    convert.bindings.push(binding("Output", named("Int")));
    let decl = impl_of(convert, named("Flag"), vec!["Output"]);
    assert_eq!(gustc::monomorphize::impls::impl_trait_identity_name(&decl), "Convert<Bool>");
    let decl = impl_of(named("Show"), named("Flag"), Vec::new());
    assert_eq!(gustc::monomorphize::impls::impl_trait_identity_name(&decl), "Show");
}

#[test]
fn concrete_impl_is_found_by_trait_and_type() {
    let mut iterator = named("Iterator");
    iterator.bindings.push(binding("Item", named("Int")));
    let items = vec![Item::Impl(impl_of(iterator, named("Counter"), vec!["Item"]))];
    assert!(concrete_impl_exists(&items, &named("Iterator"), &named("Counter")));
    let mut exact = named("Iterator");
    exact.bindings.push(binding("Item", named("Int")));
    assert!(concrete_impl_exists(&items, &exact, &named("Counter")));
    let mut other = named("Iterator");
    other.bindings.push(binding("Item", named("Bool")));
    assert!(!concrete_impl_exists(&items, &other, &named("Counter")));
    assert!(!concrete_impl_exists(&items, &named("Iterator"), &named("Other")));
}

#[test]
fn text_search_finds_the_first_occurrence() {
    assert_eq!(find_text("a, type X: b, type X: c", ", type X: "), Some(1));
    assert_eq!(find_text("abc", "d"), None);
    assert_eq!(find_text("abc", ""), Some(0));
}

#[test]
fn default_methods_become_extensions_of_the_trait() {
    let body = FunctionBody::Expr(Box::new(Expr { kind: ExprKind::Number("1".to_string()), span: Span::new(4, 5) }));
    let method = TraitMethodDecl {
        name: "first".to_string(),
        static_: false,
        type_params: Vec::new(),
        type_param_bounds: Vec::new(),
        params: vec![Param {
            name: "x".to_string(),
            mutable: false,
            type_ref: Some(named("Self.Item")),
            span: Span::new(1, 2),
        }],
        return_type: Some(named("Self.Item")),
        body: Some(body),
        span: Span::new(0, 9),
    };
    let static_method = TraitMethodDecl {
        name: "make".to_string(),
        static_: true,
        type_params: Vec::new(),
        type_param_bounds: Vec::new(),
        params: Vec::new(),
        return_type: None,
        body: None,
        span: Span::new(0, 0),
    };
    let trait_ = TraitDecl {
        name: "Seq".to_string(),
        exported: false,
        type_params: vec!["T".to_string()],
        type_param_bounds: Vec::new(),
        associated_types: vec![AssociatedTypeDecl {
            name: "Item".to_string(),
            type_params: Vec::new(),
            type_param_bounds: Vec::new(),
            bounds: Vec::new(),
            default: None,
            span: Span::new(7, 8),
        }],
        methods: vec![method, static_method],
        span: Span::new(0, 20),
    };
    assert!(trait_default_extension(&trait_, &trait_.methods[1]).is_none());
    let extension = trait_default_extension(&trait_, &trait_.methods[0]).unwrap();
    assert_eq!(extension.type_params, vec!["T".to_string(), "SeqItem".to_string()]);
    assert_eq!(type_ref_name(&extension.type_ref), "Seq<T, type Item: SeqItem>");
    assert_eq!(extension.function.name.as_deref(), Some("first"));
    assert_eq!(extension.function.params[0].type_ref.as_ref().unwrap().name, "SeqItem");
    assert_eq!(extension.function.return_type.as_ref().unwrap().name, "SeqItem");
    let program = gustc::ast::Program { items: vec![Item::Trait(trait_)] };
    assert_eq!(trait_default_extensions(&program).len(), 1);
}
