use tl_lang_syn::print::to_text;
use tl_lang_syn::{parse_file_str, parse_str, File, Item, ItemCombinator, Param, Type};

fn segments(path: &tl_lang_syn::Path) -> Vec<String> {
    let mut out = Vec::new();
    for i in 0..path.segments.len() {
        out.push(path.segments.get(i).as_str().to_owned());
    }
    out
}

#[test]
fn combinator_with_id_and_no_params() {
    let c: ItemCombinator = parse_str("storage.fileJpeg#7efe0e = storage.FileType;").unwrap();
    assert_eq!(segments(&c.name), vec!["storage", "fileJpeg"]);
    assert_eq!(c.combinator_id.unwrap().id.id, 0x7efe0e);
    assert!(c.opt_params.is_empty());
    assert!(c.params.is_empty());
    assert_eq!(segments(&c.result_type.path), vec!["storage", "FileType"]);
    assert!(c.result_type.args.is_none());
}

#[test]
fn combinator_with_fields_and_generic_arguments() {
    let text =
        "c.d.y_z#cccccccc {opt_param:type1} param:type2 bar:baz.spam.deadbeef<A,B,C.D,E> = g.h.i;";
    let c: ItemCombinator = parse_str(text).unwrap();
    assert_eq!(segments(&c.name), vec!["c", "d", "y_z"]);
    assert_eq!(c.combinator_id.unwrap().id.id, 0xcccccccc);
    assert_eq!(c.opt_params.len(), 1);
    assert_eq!(c.opt_params[0].var_idents.len(), 1);
    assert_eq!(c.opt_params[0].var_idents[0].as_str(), "opt_param");
    assert_eq!(c.params.len(), 2);
    match &c.params[1] {
        Param::Conditional(p) => {
            assert_eq!(p.var_ident.as_str(), "bar");
            match &p.ty {
                Type::ParameterizedPath(t) => match &t.safe_parameterized_path {
                    tl_lang_syn::SafeParameterizedPath::SpaceImmune(s) => {
                        assert_eq!(segments(&s.path), vec!["baz", "spam", "deadbeef"]);
                        assert_eq!(s.args.as_ref().unwrap().args.len(), 4);
                    }
                    _ => panic!("a path with angle brackets was expected"),
                },
                _ => panic!("a path was expected"),
            }
        }
        _ => panic!("a named field was expected"),
    }
    assert_eq!(segments(&c.result_type.path), vec!["g", "h", "i"]);

    let printed = to_text(&c);
    assert_eq!(
        printed,
        "c.d.y_z#cccccccc {opt_param:type1} param:type2 bar:baz.spam.deadbeef<A , B , C.D , E> = g.h.i;"
    );
    let again: ItemCombinator = parse_str(&printed).unwrap();
    assert_eq!(c, again);
}

#[test]
fn layer_item() {
    let item: Item = parse_str("// LAYER 78").unwrap();
    match item {
        Item::Layer(l) => assert_eq!(l.layer, 78),
        _ => panic!("a layer was expected"),
    }
}

#[test]
fn byte_order_mark_is_stripped() {
    let text = "---types---\nfoo#1 = Bar;\n";
    let with_mark = format!("\u{feff}{}", text);
    let a: File = parse_file_str(text).unwrap();
    let b: File = parse_file_str(&with_mark).unwrap();
    assert_eq!(a, b);
    assert_eq!(a.items.len(), 2);
}
