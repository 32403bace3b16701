use std::collections::HashMap;
use uscanner::sema::builtin::BuiltinTypeAliases;
use uscanner::sema::intern::{
    materialize_substituted_type, materialize_template_instance_usage,
};
use uscanner::sema::scope::{ScopeKind, ScopeTree};
use uscanner::sema::symbol::{Access, ClassId, SymbolId, SymbolKind, SymbolTable};
use uscanner::sema::types::{
    same_kind, Compat, CvQual, RefKind, TemplateArg, TypeArena, TypeId, TypeKind,
};
use uscanner::sema::SemaContext;

fn context() -> SemaContext {
    SemaContext {
        types: TypeArena::new(),
        symbols: SymbolTable::new(),
        scopes: ScopeTree::new(),
        node_scopes: Vec::new(),
        scope_owner_symbols: HashMap::new(),
        class_template_params: HashMap::new(),
        aliases: BuiltinTypeAliases::new(),
        source: None,
        cached_char_t: None,
        cached_char_ptr_t: None,
    }
}

fn class(ctx: &mut SemaContext, name: &str) -> (ClassId, TypeId) {
    let id = ctx.symbols.new_class_id(name);
    (id, ctx.types.intern(TypeKind::Class(id)))
}

fn pointer(ctx: &mut SemaContext, pointee: TypeId) -> TypeId {
    ctx.types.intern(TypeKind::Pointer { pointee, cv: CvQual::default() })
}

fn reference(ctx: &mut SemaContext, referent: TypeId) -> TypeId {
    ctx.types.intern(TypeKind::Reference { referent, kind: RefKind::LValue })
}

fn alias(ctx: &mut SemaContext, name: &str, aliased: TypeId) -> TypeId {
    ctx.types.intern(TypeKind::Typedef { name: name.to_string(), aliased })
}

#[test]
fn class_of_a_type_is_that_of_what_it_stands_for() {
    let mut ctx = context();
    let (id, actor) = class(&mut ctx, "AActor");
    let to_actor = pointer(&mut ctx, actor);
    let named = alias(&mut ctx, "FActorPtr", to_actor);
    let referred = reference(&mut ctx, named);
    let list = ctx.types.intern(TypeKind::Array { elem: actor, size: None });
    let base = ctx.types.intern(TypeKind::Template { base: "AActor".to_string(), args: Vec::new() });
    for t in [actor, to_actor, named, referred, base] {
        assert_eq!(ctx.class_id_for_type(t), Some(id));
    }
    assert_eq!(ctx.class_id_for_type(list), None);
    assert_eq!(ctx.class_id_for_type(ctx.types.int32_t), None);
    assert_eq!(ctx.class_id_for_type(TypeId(999)), None);
}

#[test]
fn texts_of_types_are_built_from_their_parts() {
    let mut ctx = context();
    let (_, actor) = class(&mut ctx, "AActor");
    let to_actor = pointer(&mut ctx, actor);
    let referred = reference(&mut ctx, to_actor);
    let list = ctx.types.intern(TypeKind::Array { elem: to_actor, size: Some(3) });
    let named = alias(&mut ctx, "FActorPtr", to_actor);
    let map = ctx.types.intern(TypeKind::Template {
        base: "TMap".to_string(),
        args: vec![
            TemplateArg::Type(to_actor),
            TemplateArg::Value("3".to_string()),
            TemplateArg::Type(named),
        ],
    });
    let callee = ctx.types.intern(TypeKind::Function {
        return_t: map,
        params: vec![actor],
        min_arity: 1,
        is_variadic: false,
        is_const_member: false,
    });
    let text = |t: TypeId| ctx.render_type(t).unwrap();
    assert_eq!(text(to_actor), "AActor*");
    assert_eq!(text(referred), "AActor*&");
    assert_eq!(text(list), "AActor*[]");
    assert_eq!(text(named), "FActorPtr");
    assert_eq!(text(map), "TMap<AActor*, 3, FActorPtr>");
    assert_eq!(text(callee), text(map));
    assert_eq!(ctx.render_type(TypeId(999)), None);
}

#[test]
fn typedefs_and_references_do_not_change_how_types_fit() {
    let mut ctx = context();
    let (_, base) = class(&mut ctx, "UBase");
    let (child_id, child) = class(&mut ctx, "UChild");
    ctx.symbols.set_class_parents(child_id, vec![base]);
    let base_pointer = pointer(&mut ctx, base);
    let child_pointer = pointer(&mut ctx, child);
    let base_name = alias(&mut ctx, "FBase", base);
    let child_reference = reference(&mut ctx, child);
    let child_name = alias(&mut ctx, "FChild", child_reference);

    assert_eq!(ctx.check_compat(child, base), Compat::DerivedToBase);
    assert_eq!(ctx.check_compat(base, child), Compat::Incompatible);
    assert_eq!(ctx.check_compat(child_pointer, base_pointer), Compat::DerivedToBase);
    assert_eq!(ctx.check_compat(base_pointer, child_pointer), Compat::Incompatible);
    for from in [child, child_reference, child_name] {
        for to in [base, base_name] {
            assert_eq!(ctx.check_compat(from, to), Compat::DerivedToBase);
            assert_eq!(ctx.check_compat(to, from), Compat::Incompatible);
        }
    }
}

#[test]
fn equivalence_of_types_goes_on_from_one_to_the_next() {
    let mut ctx = context();
    let (_, base) = class(&mut ctx, "UBase");
    let (_, other) = class(&mut ctx, "UOther");
    let referred = reference(&mut ctx, base);
    let named = alias(&mut ctx, "FBase", referred);
    let again = alias(&mut ctx, "FAgain", named);
    let constant = ctx.types.intern(TypeKind::Pointer {
        pointee: base,
        cv: CvQual { is_const: true, is_volatile: false },
    });
    let plain = pointer(&mut ctx, base);
    for left in [base, referred, named, again] {
        for right in [base, referred, named, again] {
            assert!(ctx.types_equivalent(left, right));
        }
        assert!(!ctx.types_equivalent(left, other));
        assert!(!ctx.types_equivalent(left, plain));
    }
    assert!(ctx.types_equivalent(constant, plain));
}

#[test]
fn instances_leave_known_types_where_they_stand() {
    let mut ctx = context();
    let (_, item) = class(&mut ctx, "UItem");
    let to_item = pointer(&mut ctx, item);
    let list = ctx.types.intern(TypeKind::Template {
        base: "TArray".to_string(),
        args: vec![TemplateArg::Type(to_item), TemplateArg::Value("N".to_string())],
    });
    let callee = ctx.types.intern(TypeKind::Function {
        return_t: list,
        params: vec![to_item, item],
        min_arity: 2,
        is_variadic: false,
        is_const_member: false,
    });
    let before: Vec<TypeKind> = ctx.types.types.to_vec();
    materialize_template_instance_usage(&mut ctx, callee);
    assert_eq!(ctx.types.len(), before.len());
    for (i, kind) in before.iter().enumerate() {
        assert!(same_kind(kind, ctx.types.get(TypeId(i as u32)).unwrap()));
    }
}

fn field(ctx: &mut SemaContext, owner: ClassId, name: &str) -> SymbolId {
    let scope = match ctx.symbols.class_scope(owner) {
        Some(scope) => scope,
        None => {
            let global = ctx.scopes.global;
            let scope = ctx.scopes.add_scope(Some(global), ScopeKind::Class);
            ctx.symbols.set_class_scope(owner, scope);
            scope
        }
    };
    let type_id = ctx.types.int32_t;
    let id = ctx.symbols.add_symbol(
        name.to_string(),
        scope,
        SymbolKind::Field { owner, type_id, access: Access::Public },
    );
    ctx.scopes.declare(scope, name.to_string(), id);
    id
}

#[test]
fn members_are_found_along_every_line_of_inheritance() {
    let mut ctx = context();
    let (root, root_type) = class(&mut ctx, "URoot");
    let (left, left_type) = class(&mut ctx, "ULeft");
    let (right, right_type) = class(&mut ctx, "URight");
    let (bottom, bottom_type) = class(&mut ctx, "UBottom");
    ctx.symbols.set_class_parents(left, vec![root_type]);
    ctx.symbols.set_class_parents(right, vec![root_type]);
    ctx.symbols.set_class_parents(bottom, vec![left_type, right_type]);
    let of_root = field(&mut ctx, root, "Size");
    let of_right = field(&mut ctx, right, "Size");
    let of_bottom = field(&mut ctx, bottom, "Size");
    assert_eq!(
        ctx.lookup_class_member_symbols(bottom_type, "Size"),
        vec![of_bottom, of_root, of_right]
    );
    assert_eq!(ctx.lookup_class_member_symbols(left_type, "Size"), vec![of_root]);
    assert!(ctx.lookup_class_member_symbols(root_type, "Missing").is_empty());
    assert_eq!(ctx.check_compat(bottom_type, root_type), Compat::DerivedToBase);
    assert_eq!(ctx.check_compat(left_type, right_type), Compat::Incompatible);
}

#[test]
fn bound_names_are_replaced_and_others_stay() {
    let mut ctx = context();
    let (_, item) = class(&mut ctx, "UItem");
    let bound = ctx.types.intern(TypeKind::Dependent("T".to_string()));
    let valued = ctx.types.intern(TypeKind::Dependent("N".to_string()));
    let open = ctx.types.intern(TypeKind::Dependent("U".to_string()));
    let to_bound = pointer(&mut ctx, bound);
    let bindings = vec![
        ("T".to_string(), TemplateArg::Type(item)),
        ("N".to_string(), TemplateArg::Value("4".to_string())),
    ];
    let none = Vec::new();
    let before: Vec<TypeKind> = ctx.types.types.to_vec();
    assert_eq!(materialize_substituted_type(&mut ctx, bound, &bindings), item);
    assert_eq!(materialize_substituted_type(&mut ctx, valued, &bindings), valued);
    assert_eq!(materialize_substituted_type(&mut ctx, open, &bindings), open);
    for t in [bound, valued, open, to_bound, item, TypeId(999)] {
        assert_eq!(materialize_substituted_type(&mut ctx, t, &none), t);
    }
    assert_eq!(ctx.types.len(), before.len());
    let to_item = materialize_substituted_type(&mut ctx, to_bound, &bindings);
    assert_eq!(ctx.render_type(to_item).as_deref(), Some("UItem*"));
    assert_eq!(ctx.types.len(), before.len() + 1);
    for (i, kind) in before.iter().enumerate() {
        assert!(same_kind(kind, ctx.types.get(TypeId(i as u32)).unwrap()));
    }
}

#[test]
fn types_need_not_stand_in_order() {
    let mut ctx = context();
    let later = TypeId(ctx.types.len() as u32 + 1);
    let to_later = pointer(&mut ctx, later);
    let (_, item) = class(&mut ctx, "UItem");
    assert_eq!(item, later);
    let named = alias(&mut ctx, "FItemPtr", to_later);
    let missing = pointer(&mut ctx, TypeId(999));
    assert_eq!(ctx.render_type(to_later).as_deref(), Some("UItem*"));
    assert_eq!(ctx.render_type(named).as_deref(), Some("FItemPtr"));
    assert_eq!(ctx.render_type(missing).as_deref(), Some("unknown*"));
    assert_eq!(ctx.render_type(TypeId(999)), None);
    assert!(ctx.types_equivalent(named, to_later));
    assert!(!ctx.types_equivalent(item, to_later));
    assert!(!ctx.types_equivalent(ctx.types.int32_t, ctx.types.uint32_t));
    let void = ctx.types.void_t;
    let to_void = pointer(&mut ctx, void);
    assert_eq!(ctx.check_compat(named, to_void), Compat::PointerToVoid);
    assert_eq!(ctx.check_compat(to_void, named), Compat::Incompatible);
}
