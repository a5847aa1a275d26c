use tl_lang_syn::interop::{
    ConstructorDefNamespace, Field, FunctionDefNamespace, LoweringError, Schema, Type, TypeBuiltIn,
    TypeDefNamespace,
};
use tl_lang_syn::{parse_file_str, File};

fn file(text: &str) -> File {
    parse_file_str(text).unwrap()
}

#[test]
fn sections_are_walked_in_turn() {
    let f = file(
        "---types---\n\
         inputPeerEmpty#7f3b18ea = InputPeer;\n\
         inputPeerSelf#7da07ec9 = InputPeer2;\n\
         ---functions---\n\
         help.getConfig#c4f9186b = Config;\n",
    );
    let types = TypeDefNamespace::from_tl_items(&f.items).unwrap();
    assert_eq!(types.name.as_str(), "types");
    assert_eq!(types.type_defs.len(), 2);
    assert_eq!(types.type_defs[0].name.as_str(), "InputPeer");
    assert_eq!(types.type_defs[1].name.as_str(), "InputPeer2");
    assert!(types.namespaces.is_empty());

    let functions = FunctionDefNamespace::from_tl_items(&f.items).unwrap();
    assert_eq!(functions.name.as_str(), "functions");
    assert!(functions.function_defs.is_empty());
    assert_eq!(functions.namespaces.len(), 1);
    assert_eq!(functions.namespaces[0].name.as_str(), "help");
    assert_eq!(functions.namespaces[0].function_defs.len(), 1);
    assert_eq!(functions.namespaces[0].function_defs[0].name.as_str(), "getConfig");
    assert_eq!(functions.namespaces[0].function_defs[0].id, 0xc4f9186b);

    let constructors = ConstructorDefNamespace::from_tl_items(&f.items).unwrap();
    assert_eq!(constructors.name.as_str(), "constructors");
    assert_eq!(constructors.constructor_defs.len(), 2);
}

#[test]
fn constructors_of_one_type_are_grouped() {
    let f = file(
        "a.one#1 = a.T;\n\
         a.two#2 = a.T;\n\
         b.three#3 = a.U;\n",
    );
    let types = TypeDefNamespace::from_tl_items(&f.items).unwrap();
    assert!(types.type_defs.is_empty());
    assert_eq!(types.namespaces.len(), 1);
    let a = &types.namespaces[0];
    assert_eq!(a.name.as_str(), "a");
    assert_eq!(a.type_defs.len(), 2);
    assert_eq!(a.type_defs[0].name.as_str(), "T");
    assert_eq!(a.type_defs[0].constructor_variants.len(), 2);
    assert_eq!(a.type_defs[0].constructor_variants[0].name.as_str(), "one");
    assert_eq!(a.type_defs[0].constructor_variants[0].id, 1);
    assert_eq!(a.type_defs[0].constructor_variants[1].name.as_str(), "two");
    assert_eq!(a.type_defs[1].name.as_str(), "U");
    assert_eq!(a.type_defs[1].constructor_variants[0].name.as_str(), "three");
    let path = &a.type_defs[1].constructor_variants[0].struct_path.0;
    assert_eq!(tl_lang_syn::print::to_text(path), "schema.constructors.b.three");

    let constructors = ConstructorDefNamespace::from_tl_items(&f.items).unwrap();
    assert_eq!(constructors.namespaces.len(), 2);
    assert_eq!(constructors.namespaces[0].name.as_str(), "a");
    assert_eq!(constructors.namespaces[0].constructor_defs.len(), 2);
    assert_eq!(constructors.namespaces[1].name.as_str(), "b");
    assert_eq!(constructors.namespaces[1].constructor_defs.len(), 1);
}

#[test]
fn built_in_declarations_are_left_out() {
    let f = file(
        "boolFalse#bc799737 = Bool;\n\
         boolTrue#997275b5 = Bool;\n\
         true#3fedd339 = True;\n\
         vector#1cb5c415 {t:Type} # [ t ] = Vector t;\n\
         null#56730bcc = Null;\n",
    );
    let types = TypeDefNamespace::from_tl_items(&f.items).unwrap();
    assert_eq!(types.type_defs.len(), 1);
    assert_eq!(types.type_defs[0].name.as_str(), "Null");
    let constructors = ConstructorDefNamespace::from_tl_items(&f.items).unwrap();
    assert_eq!(constructors.constructor_defs.len(), 1);
    assert_eq!(constructors.constructor_defs[0].name.as_str(), "null");
}

#[test]
fn the_same_delimiter_twice_is_an_error() {
    let f = file("---functions---\n---functions---\n");
    assert_eq!(TypeDefNamespace::from_tl_items(&f.items), Err(LoweringError::WrongDelimiter));
    assert_eq!(
        ConstructorDefNamespace::from_tl_items(&f.items),
        Err(LoweringError::WrongDelimiter)
    );
    assert_eq!(FunctionDefNamespace::from_tl_items(&f.items), Err(LoweringError::WrongDelimiter));
    let g = file("---types---\n---types---\n");
    assert_eq!(Schema::from_tl_file(&g), Err(LoweringError::WrongDelimiter));
    let first = file("---types---\nfoo#1 = Bar;\n");
    assert_eq!(Schema::from_tl_file(&first).unwrap().type_def_ns.type_defs.len(), 1);
    let h = file("---functions---\n---types---\n---functions---\n");
    assert!(Schema::from_tl_file(&h).is_ok());
}

#[test]
fn a_declaration_without_id_cannot_be_a_variant_or_a_function() {
    let f = file("foo = Bar;\n");
    assert_eq!(TypeDefNamespace::from_tl_items(&f.items), Err(LoweringError::MissingId));
    assert!(ConstructorDefNamespace::from_tl_items(&f.items).is_ok());
    let g = file("---functions---\nfoo = Bar;\n");
    assert_eq!(FunctionDefNamespace::from_tl_items(&g.items), Err(LoweringError::MissingId));
}

#[test]
fn a_repeated_group_cannot_be_lowered() {
    let f = file("foo#1 a:int [ int ] = Bar;\n");
    assert_eq!(ConstructorDefNamespace::from_tl_items(&f.items), Err(LoweringError::RepeatedParam));
    assert!(TypeDefNamespace::from_tl_items(&f.items).is_ok());
}

#[test]
fn fields_and_their_types() {
    let f = file(
        "---functions---\n\
         invoke#1 {X:Type} {n:#} flags:# a:int b:flags.0?string (c d:Vector<long>) e:!X \
         f:foo.Bar<int> bytes %double (vector int) = X;\n",
    );
    let functions = FunctionDefNamespace::from_tl_items(&f.items).unwrap();
    let def = &functions.function_defs[0];
    assert_eq!(def.name.as_str(), "invoke");
    assert_eq!(def.id, 1);
    assert_eq!(def.generics.len(), 1);
    assert_eq!(def.generics[0].as_str(), "X");
    assert_eq!(tl_lang_syn::print::to_text(&def.return_type.0), "X");

    // `flags:#` has no lowered type and `b` is conditional: both are left out
    let fields = &def.fields;
    assert_eq!(fields.len(), 8);
    match &fields[0] {
        Field::Named(n) => {
            assert_eq!(n.name.as_str(), "a");
            assert_eq!(n.ty, Type::BuiltIn(TypeBuiltIn::Int));
        }
        _ => panic!("a named field was expected"),
    }
    for (i, name) in ["c", "d"].iter().enumerate() {
        match &fields[1 + i] {
            Field::Named(n) => {
                assert_eq!(n.name.as_str(), *name);
                assert_eq!(
                    n.ty,
                    Type::BuiltIn(TypeBuiltIn::VectorBoxed(vec![Type::BuiltIn(TypeBuiltIn::Long)]))
                );
            }
            _ => panic!("a named field was expected"),
        }
    }
    match &fields[3] {
        Field::Named(n) => match &n.ty {
            Type::Generic(x) => assert_eq!(x.as_str(), "X"),
            _ => panic!("a type parameter was expected"),
        },
        _ => panic!("a named field was expected"),
    }
    match &fields[4] {
        Field::Named(n) => match &n.ty {
            Type::Path(p) => {
                assert_eq!(tl_lang_syn::print::to_text(&p.0), "schema.types.foo.Bar<int>")
            }
            _ => panic!("a path was expected"),
        },
        _ => panic!("a named field was expected"),
    }
    match &fields[5] {
        Field::Unnamed(u) => {
            assert_eq!(u.index, 0);
            assert_eq!(u.ty, Type::BuiltIn(TypeBuiltIn::Bytes));
        }
        _ => panic!("a field without a name was expected"),
    }
    match &fields[6] {
        Field::Unnamed(u) => {
            assert_eq!(u.index, 1);
            assert_eq!(u.ty, Type::BuiltIn(TypeBuiltIn::Double));
        }
        _ => panic!("a field without a name was expected"),
    }
    match &fields[7] {
        Field::Unnamed(u) => {
            assert_eq!(u.index, 2);
            assert_eq!(
                u.ty,
                Type::BuiltIn(TypeBuiltIn::Vector(vec![Type::BuiltIn(TypeBuiltIn::Int)]))
            );
        }
        _ => panic!("a field without a name was expected"),
    }
}

#[test]
fn primitive_names() {
    assert_eq!(TypeBuiltIn::from_primitive("Bool"), Some(TypeBuiltIn::Bool));
    assert_eq!(TypeBuiltIn::from_primitive("true"), Some(TypeBuiltIn::True));
    assert_eq!(TypeBuiltIn::from_primitive("int"), Some(TypeBuiltIn::Int));
    assert_eq!(TypeBuiltIn::from_primitive("long"), Some(TypeBuiltIn::Long));
    assert_eq!(TypeBuiltIn::from_primitive("int128"), Some(TypeBuiltIn::Int128));
    assert_eq!(TypeBuiltIn::from_primitive("int256"), Some(TypeBuiltIn::Int256));
    assert_eq!(TypeBuiltIn::from_primitive("double"), Some(TypeBuiltIn::Double));
    assert_eq!(TypeBuiltIn::from_primitive("bytes"), Some(TypeBuiltIn::Bytes));
    assert_eq!(TypeBuiltIn::from_primitive("string"), Some(TypeBuiltIn::String));
    assert_eq!(TypeBuiltIn::from_primitive("Int"), None);
    assert_eq!(TypeBuiltIn::from_primitive(""), None);
}

#[test]
fn schema_layer_is_the_first_layer_item() {
    let f = file("// LAYER 78\nfoo#1 = Bar;\n// LAYER 79\n");
    let schema = Schema::from_tl_file(&f).unwrap();
    assert_eq!(schema.layer, 78);
    assert_eq!(schema.type_def_ns.type_defs.len(), 1);
    let g = file("foo#1 = Bar;\n");
    assert_eq!(Schema::from_tl_file(&g).unwrap().layer, 0);
}
