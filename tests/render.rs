use sui_summary_explorer::model::{
    Ability, Datatype, DatatypeArg, DatatypeTParam, Enum, Field, Fields, Function, Parameter,
    Struct, TParam, Type, Variant, Visibility,
};
use sui_summary_explorer::render::type_to_string;
use sui_summary_explorer::signature::{
    enum_signature, function_signature, struct_signature, RenderError,
};

fn tparam(name: &str) -> TParam {
    TParam { name: Some(name.to_string()), constraints: vec![] }
}

fn dt_tparam(name: &str) -> DatatypeTParam {
    DatatypeTParam { phantom: false, tparam: tparam(name) }
}

fn field(name: &str, t: Type) -> Field {
    Field { name: name.to_string(), type_: t }
}

#[test]
fn vector_of_mutable_reference() {
    let t = Type::Vector(Box::new(Type::Reference(true, Box::new(Type::U64))));
    assert_eq!(type_to_string(&t), "vector<&mut u64>");
}

#[test]
fn tuple_of_bool_and_u8() {
    let t = Type::Tuple(vec![Type::Bool, Type::U8]);
    assert_eq!(type_to_string(&t), "(bool, u8)");
}

#[test]
fn primitives_and_wildcard() {
    let cases = vec![
        (Type::Bool, "bool"),
        (Type::U8, "u8"),
        (Type::U16, "u16"),
        (Type::U32, "u32"),
        (Type::U64, "u64"),
        (Type::U128, "u128"),
        (Type::U256, "u256"),
        (Type::Address, "address"),
        (Type::Signer, "signer"),
        (Type::Any, "_"),
    ];
    for (t, s) in cases {
        assert_eq!(type_to_string(&t), s);
    }
}

#[test]
fn immutable_reference_and_type_parameters() {
    let t = Type::Reference(false, Box::new(Type::TypeParameter(0)));
    assert_eq!(type_to_string(&t), "&T0");
    assert_eq!(type_to_string(&Type::TypeParameter(123)), "T123");
    assert_eq!(type_to_string(&Type::TypeParameter(65535)), "T65535");
    assert_eq!(type_to_string(&Type::NamedTypeParameter("Coin".to_string())), "Coin");
}

#[test]
fn datatype_with_and_without_arguments() {
    let bare = Type::Datatype(Datatype { name: "0x2::object::UID".to_string(), type_arguments: vec![] });
    assert_eq!(type_to_string(&bare), "0x2::object::UID");
    let applied = Type::Datatype(Datatype {
        name: "0x2::coin::Coin".to_string(),
        type_arguments: vec![
            DatatypeArg { phantom: true, argument: Type::NamedTypeParameter("T".to_string()) },
            DatatypeArg { phantom: false, argument: Type::Vector(Box::new(Type::U8)) },
        ],
    });
    assert_eq!(type_to_string(&applied), "0x2::coin::Coin<T, vector<u8>>");
}

#[test]
fn function_types_and_empty_tuple() {
    let t = Type::Fun(vec![Type::U8, Type::Bool], Box::new(Type::Tuple(vec![])));
    assert_eq!(type_to_string(&t), "fun(u8, bool) -> ()");
    let nullary = Type::Fun(vec![], Box::new(Type::Address));
    assert_eq!(type_to_string(&nullary), "fun() -> address");
}

#[test]
fn rendering_twice_gives_the_same_text() {
    let t = Type::Tuple(vec![
        Type::Vector(Box::new(Type::TypeParameter(1))),
        Type::Reference(true, Box::new(Type::Signer)),
    ]);
    let a = type_to_string(&t);
    let b = type_to_string(&t);
    assert_eq!(a, b);
    assert_eq!(a, "(vector<T1>, &mut signer)");
}

#[test]
fn function_without_parameters_or_results() {
    let f = Function {
        visibility: Visibility::Public,
        type_parameters: vec![],
        parameters: vec![],
        return_: vec![],
    };
    assert_eq!(function_signature("name", &f), Ok("fun name()".to_string()));
}

#[test]
fn function_with_parameters_and_one_result() {
    let f = Function {
        visibility: Visibility::Public,
        type_parameters: vec![tparam("T")],
        parameters: vec![
            Parameter { name: "coin".to_string(), type_: Type::Reference(false, Box::new(Type::NamedTypeParameter("T".to_string()))) },
            Parameter { name: "amount".to_string(), type_: Type::U64 },
        ],
        return_: vec![Type::Bool],
    };
    assert_eq!(
        function_signature("split", &f),
        Ok("fun split<T>(\n    coin: &T,\n    amount: u64,\n): bool".to_string())
    );
}

#[test]
fn function_with_several_results() {
    let f = Function {
        visibility: Visibility::Friend,
        type_parameters: vec![tparam("A"), tparam("B")],
        parameters: vec![],
        return_: vec![Type::U8, Type::Address],
    };
    assert_eq!(function_signature("pair", &f), Ok("fun pair<A, B>(): (u8, address)".to_string()));
}

#[test]
fn unnamed_type_parameter_is_a_render_error() {
    let f = Function {
        visibility: Visibility::Private,
        type_parameters: vec![tparam("A"), TParam { name: None, constraints: vec![Ability::Copy] }],
        parameters: vec![],
        return_: vec![],
    };
    assert_eq!(function_signature("f", &f), Err(RenderError::UnnamedTypeParameter));
    let s = Struct {
        type_parameters: vec![DatatypeTParam { phantom: true, tparam: TParam { name: None, constraints: vec![] } }],
        fields: Fields { positional_fields: false, fields: vec![] },
    };
    assert_eq!(struct_signature("S", &s), Err(RenderError::UnnamedTypeParameter));
}

#[test]
fn coin_struct_signature() {
    let s = Struct {
        type_parameters: vec![dt_tparam("T")],
        fields: Fields { positional_fields: false, fields: vec![field("value", Type::U64)] },
    };
    assert_eq!(struct_signature("Coin", &s), Ok("struct Coin<T> {\n    value: u64,\n}".to_string()));
}

#[test]
fn struct_fields_keep_declaration_order() {
    let s = Struct {
        type_parameters: vec![],
        fields: Fields {
            positional_fields: false,
            fields: vec![field("z", Type::U8), field("a", Type::Bool)],
        },
    };
    assert_eq!(struct_signature("P", &s), Ok("struct P {\n    z: u8,\n    a: bool,\n}".to_string()));
}

#[test]
fn enum_signature_mixes_variant_shapes() {
    let e = Enum {
        type_parameters: vec![dt_tparam("T")],
        variants: vec![
            Variant {
                name: "Pair".to_string(),
                fields: Fields { positional_fields: true, fields: vec![field("0", Type::U8), field("1", Type::NamedTypeParameter("T".to_string()))] },
            },
            Variant {
                name: "Point".to_string(),
                fields: Fields { positional_fields: false, fields: vec![field("x", Type::U64), field("y", Type::U64)] },
            },
            Variant { name: "Empty".to_string(), fields: Fields { positional_fields: false, fields: vec![] } },
        ],
    };
    assert_eq!(
        enum_signature("Shape", &e),
        Ok("enum Shape<T> {\n    Pair(u8, T),\n    Point { x: u64, y: u64 },\n    Empty,\n}".to_string())
    );
}
