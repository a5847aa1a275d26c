use tl_lang_syn::error::ParseErrorKind;
use tl_lang_syn::print::to_text;
use tl_lang_syn::punctuated::{Count, Punctuated, TrailingPunctuation, Whitespace};
use tl_lang_syn::cursor::Cursor;
use tl_lang_syn::span::Span;
use tl_lang_syn::spanned::Spanned;
use tl_lang_syn::synom::Synom;
use tl_lang_syn::token::{Comma, Dot};
use tl_lang_syn::{
    parse_file_str, parse_str, BitIndex, BitSelector, CombinatorId, Comment, DelimiterFunctions,
    DelimiterTypes, File, Id, Ident, Item, ItemCombinator, Multiplicity, Param, ParamConditional,
    ParamRepeated, ParamRepeatedIdent, ParamTypeOnly, ParamWithParen, ParameterizedPath, Path,
    SafeParameterizedPathParenthesized, SafeParameterizedPathSpaceImmune, Type, TypeBare, TypeInt,
    TypeParameterizedPath, TypeTypeParameter,
};

fn round_trip(text: &str) -> File {
    let first = parse_file_str(text).unwrap();
    let printed = to_text(&first);
    let second = parse_file_str(&printed).unwrap();
    assert_eq!(first, second, "printed as {:?}", printed);
    let printed_again = to_text(&second);
    assert_eq!(printed, printed_again);
    first
}

#[test]
fn identifiers() {
    for good in ["a", "Z", "x_z", "r2d2", "a_", "aB9_"] {
        let ident = Ident::new(Span::zeroed(), good).unwrap();
        assert_eq!(ident.as_str(), good);
    }
    for bad in ["", "_a", "9a", "a-b", "a b", "é", "aé", "a.b", " a"] {
        assert!(Ident::new(Span::zeroed(), bad).is_none(), "{:?}", bad);
    }
    assert!(Ident::new(Span::zeroed(), "abc").unwrap().is_lowercase());
    assert!(!Ident::new(Span::zeroed(), "abc").unwrap().is_uppercase());
    assert!(Ident::new(Span::zeroed(), "Abc").unwrap().is_uppercase());
    assert!(!Ident::new(Span::zeroed(), "Abc").unwrap().is_lowercase());

    let parsed: Ident = parse_str("hello_1").unwrap();
    assert_eq!(parsed.as_str(), "hello_1");
    let (rest, parsed) = Ident::parse_cursor(Cursor::new("abc:def")).unwrap();
    assert_eq!(parsed.as_str(), "abc");
    assert_eq!(rest.to_str(), ":def");
    assert_eq!(rest.offset(), 4);

    let e = parse_str::<Ident>("9abc").unwrap_err();
    assert_eq!(e.kind(), ParseErrorKind::InvalidValue);
    assert_eq!((e.span().begin(), e.span().end()), (1, 5));
    assert_eq!(e.slice_into("9abc"), Some("9abc"));
    let e = parse_str::<Ident>("+").unwrap_err();
    assert_eq!(e.kind(), ParseErrorKind::Mismatch);
    assert_eq!((e.span().begin(), e.span().end()), (1, 2));
}

#[test]
fn bit_indices() {
    assert_eq!(parse_str::<BitIndex>("0").unwrap().index(), 0);
    assert_eq!(parse_str::<BitIndex>("31").unwrap().index(), 31);
    assert_eq!(parse_str::<BitIndex>("007").unwrap().index(), 7);
    assert_eq!(parse_str::<BitIndex>("32").unwrap_err().kind(), ParseErrorKind::InvalidValue);
    assert_eq!(parse_str::<BitIndex>("256").unwrap_err().kind(), ParseErrorKind::InvalidValue);
    assert_eq!(
        parse_str::<BitIndex>("99999999999999999999").unwrap_err().kind(),
        ParseErrorKind::InvalidValue
    );
    assert_eq!(parse_str::<BitIndex>("x").unwrap_err().kind(), ParseErrorKind::Mismatch);
    assert_eq!(to_text(&parse_str::<BitIndex>("007").unwrap()), "7");
}

#[test]
fn ids_take_up_to_eight_hexadecimal_digits() {
    assert_eq!(parse_str::<Id>("7efe0e").unwrap().id, 0x7efe0e);
    assert_eq!(parse_str::<Id>("FFFFFFFF").unwrap().id, 0xffff_ffff);
    assert_eq!(parse_str::<Id>("0").unwrap().id, 0);
    let (rest, id) = Id::parse_cursor(Cursor::new("123456789")).unwrap();
    assert_eq!(id.id, 0x12345678);
    assert_eq!(rest.to_str(), "9");
    assert_eq!((id.span.begin(), id.span.end()), (1, 9));
    assert_eq!(parse_str::<Id>("123456789").unwrap_err().kind(), ParseErrorKind::TrailingInput);
    assert_eq!(parse_str::<Id>("g").unwrap_err().kind(), ParseErrorKind::Mismatch);
    assert_eq!(to_text(&parse_str::<Id>("00AbC").unwrap()), "abc");
    assert_eq!(to_text(&parse_str::<Id>("0").unwrap()), "0");
}

#[test]
fn punctuated_trailing_policy() {
    let parse = |text: &'static str, trailing| {
        Punctuated::<Ident, Comma>::parse(
            Cursor::new(text),
            trailing,
            Count::OneOrMore,
            Whitespace::Absent,
        )
    };
    let e = parse("a,b,", TrailingPunctuation::Never).unwrap_err();
    assert_eq!(e.kind(), ParseErrorKind::Mismatch);
    assert_eq!((e.span().begin(), e.span().end()), (5, 5));

    let (rest, list) = parse("a,b,", TrailingPunctuation::Optional).unwrap();
    assert_eq!(rest.to_str(), "");
    assert_eq!(list.len(), 2);
    assert!(!list.empty_or_trailing());
    assert_eq!(list.get(0).as_str(), "a");
    assert_eq!(list.get(1).as_str(), "b");

    let (rest, list) = parse("a,b,,c", TrailingPunctuation::Optional).unwrap();
    assert_eq!(rest.to_str(), ",c");
    assert_eq!(list.len(), 2);

    let (rest, list) = parse("a,b;", TrailingPunctuation::Never).unwrap();
    assert_eq!(rest.to_str(), ";");
    assert_eq!(list.len(), 2);
    let (rest, list) = parse("a,b;", TrailingPunctuation::Optional).unwrap();
    assert_eq!(rest.to_str(), ";");
    assert_eq!(list.len(), 2);

    let empty = Punctuated::<Ident, Comma>::parse(
        Cursor::new("  ;"),
        TrailingPunctuation::Optional,
        Count::ZeroOrMore,
        Whitespace::Present,
    );
    let (rest, list) = empty.unwrap();
    assert_eq!(rest.to_str(), ";");
    assert!(list.is_empty());
    assert!(parse(";", TrailingPunctuation::Optional).is_err());

    let spaced = Punctuated::<Ident, Comma>::parse(
        Cursor::new("a  ,b \t,c  ;"),
        TrailingPunctuation::Never,
        Count::OneOrMore,
        Whitespace::Present,
    );
    let (rest, list) = spaced.unwrap();
    assert_eq!(rest.to_str(), ";");
    assert_eq!(list.len(), 3);
    let mut out = Vec::new();
    list.print(&mut out, Count::OneOrMore, Whitespace::Present);
    assert_eq!(out, b"a , b , c");
    let mut out = Vec::new();
    list.print(&mut out, Count::OneOrMore, Whitespace::Absent);
    assert_eq!(out, b"a,b,c");
}

#[test]
fn paths() {
    let p: Path = parse_str("a.b.c").unwrap();
    assert_eq!(p.segments.len(), 3);
    assert_eq!(to_text(&p), "a.b.c");
    let p: Path = parse_str("  a").unwrap();
    assert_eq!(to_text(&p), "a");
    assert!(parse_str::<Path>("a.").is_err());
    assert!(parse_str::<Path>("a .b").is_err());
    assert!(parse_str::<Path>("a. b").is_err());
    assert!(parse_str::<Path>("").is_err());
    let (rest, dots) = Punctuated::<Dot, Comma>::parse(
        Cursor::new(".,.,x"),
        TrailingPunctuation::Optional,
        Count::OneOrMore,
        Whitespace::Absent,
    )
    .unwrap();
    assert_eq!(rest.to_str(), "x");
    assert_eq!(dots.len(), 2);
}

#[test]
fn parameterized_paths_and_types() {
    let p: ParameterizedPath = parse_str("Vector<int, a.B <c>, d ,>").unwrap();
    assert_eq!(to_text(&p), "Vector<int , a.B<c> , d>");
    let p: ParameterizedPath = parse_str("Either a<b> c d").unwrap();
    assert_eq!(to_text(&p), "Either a<b> c d");
    let q: ParameterizedPath = parse_str(&to_text(&p)).unwrap();
    assert_eq!(p, q);
    match p.args {
        Some(tl_lang_syn::GenericArguments::SpaceSeparated(ref list)) => {
            assert_eq!(list.args.len(), 2);
            assert_eq!(to_text(&list.args[0]), "a<b>");
            assert_eq!(to_text(&list.args[1]), "c d");
        }
        _ => panic!("space-separated arguments were expected"),
    }

    for (text, printed) in [
        ("#", "#"),
        ("!X", "!X"),
        ("%foo.Bar", "%foo.Bar"),
        ("%%#", "%%#"),
        ("a.b<c>", "a.b<c>"),
        ("(Tuple X  n)", "(Tuple X n)"),
        ("( a )", "(a)"),
    ] {
        let t: Type = parse_str(text).unwrap();
        assert_eq!(to_text(&t), printed);
        let again: Type = parse_str(printed).unwrap();
        assert_eq!(t, again);
    }
    assert!(parse_str::<Type>("a b").is_err());
    assert!(parse_str::<Type>("a <b>").is_err());
    assert!(parse_str::<Type>("!9").is_err());
    assert!(parse_str::<Type>("").is_err());
}

#[test]
fn params() {
    for (text, printed) in [
        ("bg_color:int", "bg_color:int"),
        ("report_spam:flags.0?true", "report_spam:flags.0?true"),
        ("x:flags?Vector<int>", "x:flags?Vector<int>"),
        ("[ int ]", "[int]"),
        ("[]", "[]"),
        ("t:[a:int b:#]", "t:[a:int b:#]"),
        ("n*[ t ]", "n*[t]"),
        ("( a   b : int )", "(a b:int)"),
        ("#", "#"),
        ("x:!T", "x:!T"),
    ] {
        let p: Param = parse_str(text).unwrap();
        assert_eq!(to_text(&p), printed, "{:?}", text);
        let again: Param = parse_str(printed).unwrap();
        assert_eq!(p, again);
    }
    let e = parse_str::<Param>("x:flags.32?true").unwrap_err();
    assert_eq!(e.kind(), ParseErrorKind::TrailingInput);
    assert!(parse_str::<Param>("x :int").is_err());
    match parse_str::<Param>("x:n").unwrap() {
        Param::Conditional(c) => {
            assert_eq!(c.var_ident.as_str(), "x");
            assert!(c.conditional_param_def.is_none());
        }
        _ => panic!("a named field was expected"),
    }
}

#[test]
fn combinators() {
    let c: ItemCombinator = parse_str(
        "  vector#1cb5c415   {t:Type} {a b : #}  # [ t ]  =   Vector   t ;  ",
    )
    .unwrap();
    assert_eq!(to_text(&c), "vector#1cb5c415 {t:Type} {a b:#} # [t] = Vector t;");
    let c: ItemCombinator = parse_str("a=b;").unwrap();
    assert_eq!(to_text(&c), "a = b;");
    assert!(c.combinator_id.is_none());
    let c: ItemCombinator = parse_str("a#00000001b:int = X;").unwrap();
    assert_eq!(c.combinator_id.unwrap().id.id, 1);
    assert_eq!(to_text(&c), "a#1 b:int = X;");
    assert!(parse_str::<ItemCombinator>("a = b").is_err());
    let c: ItemCombinator = parse_str("a# = b;").unwrap();
    assert!(c.combinator_id.is_none());
    assert_eq!(c.params.len(), 1);
    assert_eq!(to_text(&c), "a # = b;");
    assert!(parse_str::<ItemCombinator>("a #1 = b;").is_err());
    assert!(parse_str::<ItemCombinator>("= b;").is_err());
}

#[test]
fn layers_and_comments() {
    match parse_str::<Item>("  //   LAYER   078  ").unwrap() {
        Item::Layer(l) => {
            assert_eq!(l.layer, 78);
            assert_eq!((l.layer_span.begin(), l.layer_span.end()), (16, 19));
            assert_eq!(to_text(&l), "// LAYER 78");
        }
        _ => panic!("a layer was expected"),
    }
    for text in ["// LAYER", "// LAYER x", "// LAYER 99999999999", "//LAYERS 1", "// layer 1", "//"] {
        match parse_str::<Item>(text).unwrap() {
            Item::Comment(c) => match c.comment {
                Comment::SingleLine(s) => assert_eq!(s.content, &text[2..]),
                _ => panic!("a single-line comment was expected"),
            },
            _ => panic!("a comment was expected for {:?}", text),
        }
    }
    match parse_str::<Item>("/* a\n * b */").unwrap() {
        Item::Comment(c) => match c.comment {
            Comment::MultiLine(m) => {
                assert_eq!(m.content, " a\n * b ");
                assert_eq!((m.content_span.begin(), m.content_span.end()), (3, 11));
                assert_eq!(
                    (m.slash_asterisk_token.0.begin(), m.slash_asterisk_token.0.end()),
                    (1, 13)
                );
            }
            _ => panic!("a multiline comment was expected"),
        },
        _ => panic!("a comment was expected"),
    }
    assert!(parse_str::<Item>("/* never closed").is_err());
    assert!(parse_str::<Comment>("// a\rb").is_err());
    let c: Comment = parse_str("// caf\u{e9} \u{2014} ok").unwrap();
    assert_eq!(to_text(&c), "// caf\u{e9} \u{2014} ok");
}

#[test]
fn files() {
    let text = "// a schema\n\
                ---types---\n\
                \n\
                boolFalse#bc799737 = Bool;\r\n\
                \tvector#1cb5c415 {t:Type} # [ t ] = Vector t;\n\
                /* block\n comment */\n\
                ---functions---\n\
                // LAYER 5\n\
                help.getConfig#c4f9186b flags:# a:flags.1?Vector<int> = help.Config;";
    let f = round_trip(text);
    assert_eq!(f.items.len(), 8);
    assert_eq!(
        to_text(&f),
        "// a schema\n---types---\nboolFalse#bc799737 = Bool;\n\
         vector#1cb5c415 {t:Type} # [t] = Vector t;\n/* block\n comment */\n---functions---\n\
         // LAYER 5\nhelp.getConfig#c4f9186b flags:# a:flags.1?Vector<int> = help.Config;"
    );
    assert_eq!(round_trip("").items.len(), 0);
    assert_eq!(round_trip(" \n\t\n").items.len(), 0);
    assert_eq!(round_trip("a = b;\n\n\n").items.len(), 1);
    assert_eq!(round_trip("a = b; c = d;").items.len(), 2);
    assert_eq!(round_trip("\u{a0}\u{2003}a = b;\u{3000}\u{85}").items.len(), 1);

    let e = parse_file_str("a = b;\nrubbish here\n").unwrap_err();
    assert_eq!(e.kind(), ParseErrorKind::TrailingInput);
    assert_eq!((e.span().begin(), e.span().end()), (8, 21));
    assert_eq!(e.slice_into("a = b;\nrubbish here\n"), Some("rubbish here\n"));
    let e = parse_file_str("\u{feff}\u{feff}a = b;").unwrap_err();
    assert_eq!(e.kind(), ParseErrorKind::TrailingInput);
}

#[test]
fn spans_of_nodes() {
    let c: ItemCombinator = parse_str("  a.b#1f {x:Type} y:int = R<x>;  ").unwrap();
    let span = c.span();
    assert_eq!((span.begin(), span.end()), (3, 32));
    let name = c.name.span();
    assert_eq!((name.begin(), name.end()), (3, 6));
    let id = c.combinator_id.unwrap().span();
    assert_eq!((id.begin(), id.end()), (6, 9));
    let opt = c.opt_params[0].span();
    assert_eq!((opt.begin(), opt.end()), (10, 18));
    let param = c.params[0].span();
    assert_eq!((param.begin(), param.end()), (19, 24));
    let result = c.result_type.span();
    assert_eq!((result.begin(), result.end()), (27, 31));
    let f: File = parse_file_str("").unwrap();
    assert!(f.span().is_empty());
}

#[test]
fn printing_and_parsing_again() {
    for text in [
        "a = b;",
        "a.b.c#0 = d.E;",
        "a#ffffffff {X:Type} {Y Z:#} x:X = R X Y Z;",
        "a b:(Vector Pair<int, X> string) c:%Foo d:!X (e f:int) = R;",
        "a g:[h:int [#]] k*[ int ] l:[m:flags.3?true] [] = R;",
        "a (Vector int) (b:int) %(a b) # = R a.b<c, d<e>> f<g> h;",
        "a x:y.z<q> = R<a b, c<d>,>;",
        "// LAYER 12 /* c */ a = b; // d\n/**//***/",
        "---functions---\r\n---types---\n//\n// LAYER\n//LAYER 3",
        "/* caf\u{e9} */ // \u{2014}\n\u{2028}a = b;",
    ] {
        round_trip(text);
    }
    let f = round_trip("a = R<a b , c<d> ,>;");
    assert_eq!(to_text(&f), "a = R<a b , c<d>>;");
    let f = round_trip("a = R a<b> c d e;");
    assert_eq!(to_text(&f), "a = R a<b> c d e;");
    // A name and a multiplicity together are read as a field named after the
    // first, with the term of the second as its type.
    let e = parse_str::<Param>("x:n*[ a ]").unwrap_err();
    assert_eq!(e.kind(), ParseErrorKind::TrailingInput);
    assert_eq!(e.slice_into("x:n*[ a ]"), Some("*[ a ]"));
}

#[test]
fn parts_of_fields_and_types() {
    let c: ParamConditional = parse_str("report_spam:flags.07?true").unwrap();
    assert_eq!(to_text(&c), "report_spam:flags.7?true");
    assert_eq!((c.span().begin(), c.span().end()), (1, 26));
    let d = c.conditional_param_def.clone().unwrap();
    assert_eq!(to_text(&d), "flags.7?");
    assert_eq!((d.span().begin(), d.span().end()), (13, 22));
    let b = d.bit_selector.clone().unwrap();
    assert_eq!(to_text(&b), ".7");
    assert_eq!((b.span().begin(), b.span().end()), (18, 21));
    assert_eq!(b, parse_str::<BitSelector>(".7").unwrap());
    assert_ne!(b, parse_str::<BitSelector>(".8").unwrap());
    assert_eq!(c.clone(), c);
    assert_ne!(c, parse_str::<ParamConditional>("report_spam:flags.6?true").unwrap());
    assert_ne!(c, parse_str::<ParamConditional>("report_spam:true").unwrap());

    let r: ParamRepeated = parse_str("n*[a:int b ]").unwrap();
    assert_eq!(to_text(&r), "n*[a:int b]");
    assert_eq!((r.span().begin(), r.span().end()), (1, 13));
    assert!(parse_str::<ParamRepeated>("n*[ a:int b ]").is_err());
    assert_eq!(r.clone(), r);
    assert_eq!(r, parse_str::<ParamRepeated>("n*[a:int  b]").unwrap());
    assert_ne!(r, parse_str::<ParamRepeated>("n*[a:int]").unwrap());
    let m = r.multiplicity.clone().unwrap();
    assert_eq!(to_text(&m), "n*");
    assert_eq!((m.span().begin(), m.span().end()), (1, 3));
    assert_eq!(m, parse_str::<Multiplicity>("n*").unwrap());
    let i: ParamRepeatedIdent = parse_str("name:").unwrap();
    assert_eq!(to_text(&i), "name:");
    assert_eq!((i.span().begin(), i.span().end()), (1, 6));
    assert_eq!(i.clone(), i);

    let w: ParamWithParen = parse_str("( a b : %T )").unwrap();
    assert_eq!(to_text(&w), "(a b:%T)");
    assert_eq!(w.clone(), w);
    assert_eq!((w.span().begin(), w.span().end()), (1, 13));
    let t: ParamTypeOnly = parse_str("a.B<c>").unwrap();
    assert_eq!(to_text(&t), "a.B<c>");
    assert_eq!(t.clone(), t);
    assert_eq!((t.span().begin(), t.span().end()), (1, 7));

    let t: TypeInt = parse_str("#").unwrap();
    assert_eq!(to_text(&t), "#");
    assert_eq!(t.clone(), t);
    assert_eq!((t.span().begin(), t.span().end()), (1, 2));
    let t: TypeTypeParameter = parse_str("!X").unwrap();
    assert_eq!(to_text(&t), "!X");
    assert_ne!(t, parse_str::<TypeTypeParameter>("!Y").unwrap());
    assert_eq!((t.span().begin(), t.span().end()), (1, 3));
    let t: TypeBare = parse_str("%(Tuple X n)").unwrap();
    assert_eq!(to_text(&t), "%(Tuple X n)");
    assert_eq!(t.clone(), t);
    assert_eq!((t.span().begin(), t.span().end()), (1, 13));
    let t: TypeParameterizedPath = parse_str("a<b>").unwrap();
    assert_eq!(to_text(&t), "a<b>");
    assert_eq!(t.clone(), t);
    let p: SafeParameterizedPathSpaceImmune = parse_str("a.b<c ,d>").unwrap();
    assert_eq!(to_text(&p), "a.b<c , d>");
    assert_eq!(p.clone(), p);
    assert_eq!((p.span().begin(), p.span().end()), (1, 10));
    let p: SafeParameterizedPathParenthesized = parse_str("(a b)").unwrap();
    assert_eq!(to_text(&p), "(a b)");
    assert_eq!(p.clone(), p);
    assert_ne!(p, parse_str::<SafeParameterizedPathParenthesized>("(a c)").unwrap());
    assert_eq!((p.span().begin(), p.span().end()), (1, 6));

    let id: CombinatorId = parse_str("#1F").unwrap();
    assert_eq!(to_text(&id), "#1f");
    assert_eq!(to_text(&parse_str::<DelimiterTypes>("---types---").unwrap()), "---types---");
    assert_eq!(
        to_text(&parse_str::<DelimiterFunctions>("---functions---").unwrap()),
        "---functions---"
    );
}

#[test]
fn a_literal_outside_ascii_is_taken_whole() {
    let (rest, taken) = Cursor::new("\u{e9}\u{2014}=x").tag("\u{e9}\u{2014}").unwrap();
    assert_eq!(taken.to_str(), "\u{e9}\u{2014}");
    assert_eq!((taken.span().begin(), taken.span().end()), (1, 6));
    assert_eq!(rest.to_str(), "=x");
    assert_eq!(rest.offset(), 6);
    let e = Cursor::new("\u{e9}x").tag("\u{e9}\u{2014}").unwrap_err();
    assert_eq!(e.kind(), ParseErrorKind::Mismatch);
    assert_eq!((e.span().begin(), e.span().end()), (1, 4));
    let e = Cursor::new("\u{e8}").tag("\u{e9}").unwrap_err();
    assert_eq!(e.kind(), ParseErrorKind::Mismatch);
}
