use in_place_macro::auto_rename::{codegen_unwrapping, parse as parse_auto_rename};
use in_place_macro::in_place::{parse as parse_in_place, rewrite_markers, Arg as InPlaceArg};
use in_place_macro::rename::Renames;
use in_place_macro::sponge::{parse as parse_sponge, plan_args, ArgKind, Planned};
use in_place_macro::syntax::ParseError;
use in_place_macro::token::{render_trees, Delimiter, Spacing, Span, TokenTree};
use in_place_macro::{auto_rename, in_place, sponge};

fn model(ts: proc_macro2::TokenStream, next: &mut usize) -> Vec<TokenTree> {
    let mut out = Vec::new();
    for tt in ts {
        let span = Span::Input(*next);
        *next += 1;
        out.push(match tt {
            proc_macro2::TokenTree::Ident(i) => TokenTree::Ident { name: i.to_string(), span },
            proc_macro2::TokenTree::Punct(p) => TokenTree::Punct {
                ch: p.as_char(),
                spacing: if p.spacing() == proc_macro2::Spacing::Joint {
                    Spacing::Joint
                } else {
                    Spacing::Alone
                },
                span,
            },
            proc_macro2::TokenTree::Literal(l) => TokenTree::Literal { text: l.to_string(), span },
            proc_macro2::TokenTree::Group(g) => {
                let delimiter = match g.delimiter() {
                    proc_macro2::Delimiter::Parenthesis => Delimiter::Parenthesis,
                    proc_macro2::Delimiter::Brace => Delimiter::Brace,
                    proc_macro2::Delimiter::Bracket => Delimiter::Bracket,
                    proc_macro2::Delimiter::None => Delimiter::Invisible,
                };
                TokenTree::Group { delimiter, stream: model(g.stream(), next), span }
            }
        });
    }
    out
}

/// The token model of a source text; spans count the trees in order.
fn lex(s: &str) -> Vec<TokenTree> {
    let ts: proc_macro2::TokenStream = s.parse().expect("test input lexes");
    let mut next = 0;
    model(ts, &mut next)
}

/// A canonical text for comparing token sequences.
fn normal(v: &Vec<TokenTree>) -> String {
    render_trees(&lex(&render_trees(v)))
}

fn assert_expands_to(out: Result<Vec<TokenTree>, ParseError>, expected: &str) {
    let out = out.expect("the macro accepts its input");
    assert_eq!(normal(&out), normal(&lex(expected)));
}

fn error_of(out: Result<Vec<TokenTree>, ParseError>) -> ParseError {
    match out {
        Ok(v) => panic!("expected an error, got {}", render_trees(&v)),
        Err(e) => e,
    }
}

const VALID_FN: &str = r#"
pub fn file_edit_inplace(input: &Path, output: &Path) -> std::io::Result<()> {
    use std::fs::File;
    use std::io::{BufRead, BufReader, Write};
    let infile = File::open(input)?;

    let mut outfile = File::create(&output)?;

    let reader = BufReader::new(infile);

    for (i, line) in reader.lines().enumerate() {
        let line = line?;
        writeln!(outfile, "{}: {}", i + 1, line)?;
    }
}
"#;

const TMP_BLOCK: &str = r#"{
    let __p: &::std::path::Path = ::std::convert::AsRef::<::std::path::Path>::as_ref(PATH);
    let __stem = __p.file_stem().unwrap_or_default().to_string_lossy();
    let __ext = __p.extension().unwrap_or_default().to_string_lossy();
    let __dir = __p.parent().unwrap_or_else(|| ::std::path::Path::new("."));
    __dir.join(::std::format!("{}.tmp.{}", __stem, __ext))
}"#;

fn tmp_block(path: &str) -> String {
    TMP_BLOCK.replace("PATH", path)
}

// ---------------------------------------------------------------------------
// #[auto_rename]
// ---------------------------------------------------------------------------

/// The attribute accepts `output overwrites input` on a function.
#[test]
fn auto_rename_pass() {
    let out = auto_rename(&lex("output overwrites input"), &lex(VALID_FN));
    assert!(out.is_ok());
}

/// A clause needs three identifiers.
#[test]
fn auto_rename_fail() {
    let e = error_of(auto_rename(&lex("output input"), &lex(VALID_FN)));
    assert_eq!(e.message, "unexpected end of input, expected identifier");
    assert_eq!(e.span, Span::CallSite);
}

/// The expansion of `#[auto_rename(output overwrites input)]`.
#[test]
fn auto_rename_expands() {
    let out = auto_rename(&lex("output overwrites input"), &lex(VALID_FN));
    let body = &VALID_FN[VALID_FN.find('{').unwrap()..];
    let expected = format!(
        "pub fn file_edit_inplace(input: &Path, output: &Path) -> std::io::Result<()> {{
            let output: ::std::path::PathBuf = {};
            {}
            ::std::fs::rename(&output, input)?;
            Ok(())
        }}",
        tmp_block("input"),
        body
    );
    assert_expands_to(out, &expected);
}

#[test]
fn auto_rename_keeps_user_spans_of_the_clause_identifiers() {
    let attr = lex("output overwrites input");
    let out = auto_rename(&attr, &lex(VALID_FN)).unwrap();
    let block = match out.last().unwrap() {
        TokenTree::Group { stream, .. } => stream,
        _ => panic!("the function ends with its block"),
    };
    // `let output ...`: the shadowing binding carries the span of `output` in the attribute.
    match &block[1] {
        TokenTree::Ident { name, span } => {
            assert_eq!(name, "output");
            assert_eq!(*span, Span::Input(0));
        }
        _ => panic!("expected the redirected identifier"),
    }
}

#[test]
fn auto_rename_several_clauses_in_order() {
    let item = "fn f(a: &Path, b: &Path, c: &Path, d: &Path) -> std::io::Result<()> { work(a, b, c, d)?; }";
    let out = auto_rename(&lex("b overwrites a, d to c,"), &lex(item));
    let expected = format!(
        "fn f(a: &Path, b: &Path, c: &Path, d: &Path) -> std::io::Result<()> {{
            let b: ::std::path::PathBuf = {};
            let d: ::std::path::PathBuf = {};
            {{ work(a, b, c, d)?; }}
            ::std::fs::rename(&b, a)?;
            ::std::fs::rename(&d, c)?;
            Ok(())
        }}",
        tmp_block("a"),
        tmp_block("c")
    );
    assert_expands_to(out, &expected);
}

/// The variant whose renames panic on error.
#[test]
fn auto_rename_unwrapping_variant() {
    let item = "fn f(i: &Path, o: &Path) -> std::io::Result<()> { w(i, o)?; }";
    let ir = parse_auto_rename(&lex("o overwrites i"), &lex(item)).unwrap();
    let expected = format!(
        "fn f(i: &Path, o: &Path) -> std::io::Result<()> {{
            let o: ::std::path::PathBuf = {};
            {{ w(i, o)?; }}
            ::std::fs::rename(&o, i).unwrap();
            Ok(())
        }}",
        tmp_block("i")
    );
    assert_expands_to(Ok(codegen_unwrapping(ir)), &expected);
}

#[test]
fn auto_rename_without_clauses_appends_ok() {
    let out = auto_rename(&lex(""), &lex("fn f() -> Result<(), E> { g()?; }"));
    assert_expands_to(out, "fn f() -> Result<(), E> { { g()?; } Ok(()) }");
}

#[test]
fn auto_rename_drops_outer_attributes_and_keeps_visibility() {
    let item = "/// docs\n#[inline] pub(crate) fn f(o: &Path, i: &Path) -> R { h(); }";
    let out = auto_rename(&lex("o over i"), &lex(item));
    let expected = format!(
        "pub(crate) fn f(o: &Path, i: &Path) -> R {{ let o: ::std::path::PathBuf = {}; {{ h(); }} ::std::fs::rename(&o, i)?; Ok(()) }}",
        tmp_block("i")
    );
    assert_expands_to(out, &expected);
}

#[test]
fn auto_rename_rejects_a_keyword_in_a_clause() {
    let e = error_of(auto_rename(&lex("output in input"), &lex(VALID_FN)));
    assert_eq!(e.message, "expected identifier, found keyword `in`");
    assert_eq!(e.span, Span::Input(1));
}

#[test]
fn auto_rename_requires_commas_between_clauses() {
    let e = error_of(auto_rename(&lex("a b c d e f"), &lex(VALID_FN)));
    assert_eq!(e.message, "expected `,`");
    assert_eq!(e.span, Span::Input(3));
}

#[test]
fn auto_rename_rejects_what_is_no_function() {
    for item in ["struct S { x: u8 }", "fn f();"] {
        let e = error_of(auto_rename(&lex("a b c"), &lex(item)));
        let text = render_trees(&lex(item));
        let expected = syn::parse_str::<syn::ItemFn>(&text).err().expect("no function item").to_string();
        assert_eq!(e.message, expected);
        assert_eq!(e.span, Span::Input(0));
    }
}

#[test]
fn clause_list_reads_back() {
    let r = Renames::parse(&lex("out overwrites inp, x y z,")).unwrap();
    assert_eq!(r.arg_renames.len(), 2);
    assert_eq!(r.arg_renames[0].overwrites_ident.name, "out");
    assert_eq!(r.arg_renames[0].original_ident.name, "inp");
    assert_eq!(r.arg_renames[1].overwrites_ident.name, "x");
    assert_eq!(r.arg_renames[1].original_ident.name, "z");
    assert_eq!(r.arg_renames[1].original_ident.span, Span::Input(6));
    assert!(Renames::parse(&lex(",")).is_err());
    assert_eq!(Renames::parse(&lex("")).unwrap().arg_renames.len(), 0);
}

// ---------------------------------------------------------------------------
// sponge!
// ---------------------------------------------------------------------------

/// `tests/sponge/pass/valid_syntax.rs` and its expansion.
#[test]
fn sponge_marker_expands() {
    let out = sponge(&lex(
        r#"aggregate_parquets("original.parquet", "incoming.parquet", overwrites "original.parquet")"#,
    ));
    let expected = format!(
        r#"{{
            let __sponge_tmp_2: ::std::path::PathBuf = {};
            match aggregate_parquets("original.parquet", "incoming.parquet", __sponge_tmp_2.as_path()) {{
                Ok(__sponge_ok) => {{
                    ::std::fs::rename(&__sponge_tmp_2, "original.parquet")?;
                    Ok(__sponge_ok)
                }}
                Err(__sponge_err) => {{
                    let _ = ::std::fs::remove_file(&__sponge_tmp_2);
                    Err(__sponge_err)
                }}
            }}
        }}"#,
        tmp_block(r#""original.parquet""#)
    );
    assert_expands_to(out, &expected);
}

#[test]
fn sponge_keyword_arguments_with_a_clause() {
    let out = sponge(&lex(
        "aggregate_parquets(original = original_path.as_path(), incoming = incoming_path.as_path(), output = output_path.as_path()), output overwrites original",
    ));
    let expected = format!(
        r#"{{
            let __sponge_tmp_2: ::std::path::PathBuf = {};
            match aggregate_parquets(original_path.as_path(), incoming_path.as_path(), __sponge_tmp_2.as_path()) {{
                Ok(__sponge_ok) => {{
                    ::std::fs::rename(&__sponge_tmp_2, original_path.as_path())?;
                    Ok(__sponge_ok)
                }}
                Err(__sponge_err) => {{ let _ = ::std::fs::remove_file(&__sponge_tmp_2); Err(__sponge_err) }}
            }}
        }}"#,
        tmp_block("original_path.as_path()")
    );
    assert_expands_to(out, &expected);
}

#[test]
fn sponge_identifier_arguments_with_a_clause() {
    let out = sponge(&lex("process_file(original, incoming, output), output overwrites original"));
    let expected = format!(
        r#"{{
            let __sponge_tmp_2: ::std::path::PathBuf = {};
            match process_file(original, incoming, __sponge_tmp_2.as_path()) {{
                Ok(__sponge_ok) => {{ ::std::fs::rename(&__sponge_tmp_2, original)?; Ok(__sponge_ok) }}
                Err(__sponge_err) => {{ let _ = ::std::fs::remove_file(&__sponge_tmp_2); Err(__sponge_err) }}
            }}
        }}"#,
        tmp_block("original")
    );
    assert_expands_to(out, &expected);
}

#[test]
fn sponge_angle_bracket_arguments() {
    let c = parse_sponge(&lex(r#"f(<a: "in.csv", >a: "out.csv", > "x", < "y")"#)).unwrap();
    assert_eq!(c.func.name, "f");
    assert_eq!(c.args.len(), 4);
    let kinds: Vec<ArgKind> = c.args.iter().map(|a| a.kind).collect();
    assert_eq!(kinds, vec![ArgKind::Input, ArgKind::Output, ArgKind::Output, ArgKind::Input]);
    let labels: Vec<Option<String>> = c.args.iter().map(|a| a.label.as_ref().map(|l| l.name.clone())).collect();
    assert_eq!(labels, vec![Some("a".to_string()), Some("a".to_string()), None, None]);
    assert_eq!(render_trees(&c.args[1].expr), "\"out.csv\"");
    let plan = plan_args(&c.args, &c.renames);
    assert_eq!(plan.len(), 4);
    match &plan[1] {
        Planned::ToTemporary { dest } => assert_eq!(render_trees(dest), "\"in.csv\""),
        _ => panic!("the output is redirected"),
    }
    match &plan[2] {
        Planned::ToTemporary { dest } => assert_eq!(render_trees(dest), "\"y\""),
        _ => panic!("the unlabelled output is redirected"),
    }
    assert!(matches!(&plan[0], Planned::AsWritten(_)));
    assert!(matches!(&plan[3], Planned::AsWritten(_)));
}

/// The parsed call keeps each argument's marker and label, in source order;
/// inputs and outputs whose labels match nothing are passed as written.
#[test]
fn sponge_unmatched_labels_are_passed_as_written() {
    let c = parse_sponge(&lex("f(x, <src: a, >dst: b)")).unwrap();
    assert_eq!(c.func.name, "f");
    assert_eq!(c.args.len(), 3);
    assert_eq!(c.args[0].kind, ArgKind::Normal);
    assert!(c.args[0].label.is_none());
    assert_eq!(render_trees(&c.args[0].expr), "x");
    assert_eq!(c.args[1].kind, ArgKind::Input);
    assert_eq!(c.args[1].label.as_ref().unwrap().name, "src");
    assert_eq!(render_trees(&c.args[1].expr), "a");
    assert_eq!(c.args[2].kind, ArgKind::Output);
    assert_eq!(c.args[2].label.as_ref().unwrap().name, "dst");
    assert_eq!(render_trees(&c.args[2].expr), "b");
    let plan = plan_args(&c.args, &c.renames);
    for (a, text) in plan.iter().zip(["x", "a", "b"]) {
        match a {
            Planned::AsWritten(e) => assert_eq!(render_trees(e), text),
            _ => panic!("no argument is redirected"),
        }
    }
    let out = sponge(&lex("f(x, <src: a, >dst: b)"));
    assert_expands_to(
        out,
        "{ match f(x, a, b) { Ok(__sponge_ok) => { Ok(__sponge_ok) } Err(__sponge_err) => { Err(__sponge_err) } } }",
    );
}

/// `overwrites` that begins an expression is read as that expression.
#[test]
fn sponge_overwrites_as_an_expression() {
    let c = parse_sponge(&lex("f(overwrites.len(), overwrites p)")).unwrap();
    assert_eq!(c.args[0].kind, ArgKind::Normal);
    assert_eq!(normal(&c.args[0].expr), normal(&lex("overwrites.len()")));
    assert_eq!(c.args[1].kind, ArgKind::Overwrites);
    assert_eq!(render_trees(&c.args[1].expr), "p");
    let plan = plan_args(&c.args, &c.renames);
    match (&plan[0], &plan[1]) {
        (Planned::AsWritten(_), Planned::ToTemporary { dest }) => assert_eq!(render_trees(dest), "p"),
        _ => panic!("the first is passed as written, the second redirected"),
    }
}

/// `tests/sponge/fail/invalid_syntax.rs`: each of its three invocations.
#[test]
fn sponge_rejects_invalid_syntax() {
    let e = error_of(sponge(&lex(
        r#"aggregate_parquets(original = Path::new("original.parquet"), incoming = Path::new("incoming.parquet"), output = Path::new("original.parquet")), output 42 original"#,
    )));
    assert_eq!(e.message, "expected identifier");
    let e = error_of(sponge(&lex(
        r#"aggregate_parquets(original, incoming, Path::new("original.parquet")), output overwrites original"#,
    )));
    assert_eq!(e.message, "no argument named `output`");
    let e = error_of(sponge(&lex("a::b(x)")));
    assert_eq!(e.message, "Expected a simple function name");
    let e = error_of(sponge(&lex("f x")));
    assert_eq!(e.message, "expected parentheses");
    let e = error_of(sponge(&lex("f(x) g")));
    assert_eq!(e.message, "unexpected token");
    let e = error_of(sponge(&lex("f(x, , y)")));
    assert_eq!(e.message, "expected an expression");
}

#[test]
fn sponge_keeps_closures_and_generic_calls_as_single_arguments() {
    let c = parse_sponge(&lex("f(|a, b| a + b, g::<A, B>(x), overwrites p)")).unwrap();
    assert_eq!(c.args.len(), 3);
}

#[test]
fn sponge_tmp_names_differ_by_position() {
    let input = "f(a0, a1, a2, a3, a4, a5, a6, a7, a8, a9, overwrites p, overwrites q)";
    let out = sponge(&lex(input)).unwrap();
    let text = render_trees(&out);
    assert!(text.contains("__sponge_tmp_10"));
    assert!(text.contains("__sponge_tmp_11"));
    assert!(!text.contains("__sponge_tmp_1 "));
}

// ---------------------------------------------------------------------------
// in_place!
// ---------------------------------------------------------------------------

fn in_place_expected(files: &[(&str, &str)], call: &str) -> String {
    let mut s = String::from("{");
    for (name, path) in files {
        s += &format!(
            "let {name}_input: &::std::path::Path = ::std::convert::AsRef::<::std::path::Path>::as_ref({path});
             let {name}_inter: ::std::path::PathBuf = {};",
            tmp_block(path)
        );
    }
    s += " ";
    s += call;
    s += " ?; ";
    for (name, _) in files {
        s += &format!(
            "::std::fs::rename(&{name}_inter, {name}_input).expect(\"in_place!: impossible de renommer le fichier temporaire\"); "
        );
    }
    s += " Ok(()) }";
    s
}

/// `tests/ui/pass/valid_syntax.rs`.
#[test]
fn ui_pass() {
    let out = in_place(&lex(
        r#"f1 = "original.parquet", aggregate_parquets($f1i, "incoming.parquet".as_ref(), $f1o)"#,
    ));
    let expected = in_place_expected(
        &[("f1", r#""original.parquet""#)],
        r#"aggregate_parquets(f1_input, "incoming.parquet".as_ref(), &f1_inter)"#,
    );
    assert_expands_to(out, &expected);
}

/// Invocations that `in_place!` refuses.
#[test]
fn ui_fail() {
    let e = error_of(in_place(&lex(r#"f1 = "a.csv","#)));
    assert_eq!(
        e.message,
        "in_place! : expression d'appel de fonction manquante après les déclarations de fichiers"
    );
    let e = error_of(in_place(&lex(r#"f1 = "a.csv""#)));
    assert_eq!(e.message, "in_place! : une expression d'appel de fonction est requise");
    let e = error_of(in_place(&lex(r#"f1 = "a.csv", x + y"#)));
    assert_eq!(
        e.message,
        "in_place! : l'expression doit être un appel de fonction, ex: `my_func($f1i, \"arg\", $f1o)`"
    );
    let e = error_of(in_place(&lex(r#"f1 = "a.csv", f($f1x)"#)));
    assert_eq!(
        e.message,
        "marqueur de fichier invalide `$f1x` : le suffixe doit être `i` (input) ou `o` (output/inter)"
    );
    assert_eq!(e.span, Span::Input(7));
    let e = error_of(in_place(&lex(r#"f1 = "a.csv", f($i)"#)));
    assert_eq!(e.message, "marqueur de fichier vide");
    let e = error_of(in_place(&lex(r#"f1 = , f(x)"#)));
    assert_eq!(e.message, "expected an expression");
}

/// The example of the documentation, with two files.
#[test]
fn in_place_two_files() {
    let out = in_place(&lex(
        r#"f1 = "original.parquet", f2 = "other.csv", some_function($f1i, "incoming.parquet", $f1o, $f2o, $f2i)"#,
    ));
    let expected = in_place_expected(
        &[("f1", r#""original.parquet""#), ("f2", r#""other.csv""#)],
        r#"some_function(f1_input, "incoming.parquet", &f1_inter, &f2_inter, f2_input)"#,
    );
    assert_expands_to(out, &expected);
}

#[test]
fn in_place_marker_reads_back() {
    let ast = parse_in_place(&lex(r#"file = p, f($filei, $fileo)"#)).unwrap();
    assert_eq!(ast.files.len(), 1);
    assert_eq!(ast.files[0].name.name, "file");
    match (&ast.args[0], &ast.args[1]) {
        (InPlaceArg::FileInput(a), InPlaceArg::FileInter(b)) => {
            assert_eq!(a.name, "file");
            assert_eq!(b.name, "file");
            assert_eq!(a.span, Span::Input(7));
        }
        _ => panic!("both markers read back"),
    }
}

#[test]
fn rewrite_keeps_input_without_markers() {
    let input = lex(r#"f(a, [b, {c}], "d") + 1"#);
    let out = rewrite_markers(&input);
    assert_eq!(render_trees(&out), render_trees(&input));
}

#[test]
fn rewrite_replaces_markers_at_every_depth() {
    let out = rewrite_markers(&lex("g($ai, [h($bo)], $ 3)"));
    assert_eq!(normal(&out), normal(&lex("g(__ipm_ai__, [h(__ipm_bo__)], $ 3)")));
}

/// A file declaration followed by no comma ends where its path does.
#[test]
fn in_place_file_declaration_without_comma() {
    let out = in_place(&lex(r#"f1 = "a.csv" g($f1i, $f1o)"#));
    let expected = in_place_expected(&[("f1", r#""a.csv""#)], "g(f1_input, &f1_inter)");
    assert_expands_to(out, &expected);
}

#[test]
fn in_place_marker_inside_an_expression_is_left_as_its_sentinel() {
    let out = in_place(&lex("f = p, g(h($fi))"));
    let expected = in_place_expected(&[("f", "p")], "g(h(__ipm_fi__))");
    assert_expands_to(out, &expected);
}

/// Tokens left after the call are refused.
#[test]
fn in_place_rejects_tokens_after_the_call() {
    let e = error_of(in_place(&lex(r#"f1 = "a.csv", g($f1i) y"#)));
    assert_eq!(e.message, "unexpected token");
    assert_eq!(e.span, Span::Input(8));
}

/// A call wrapped in an invisible group (as a `$call:expr` fragment is) is a
/// grouped expression, not a call.
#[test]
fn in_place_call_in_an_invisible_group_is_no_call() {
    let mut input = lex(r#"f1 = "a.csv","#);
    input.push(TokenTree::Group {
        delimiter: Delimiter::Invisible,
        stream: lex("g($f1i, $f1o)"),
        span: Span::Input(100),
    });
    let e = error_of(in_place(&input));
    assert_eq!(
        e.message,
        "in_place! : l'expression doit être un appel de fonction, ex: `my_func($f1i, \"arg\", $f1o)`"
    );
}
