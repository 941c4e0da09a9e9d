use std::rc::Rc;

use compiler::error::Error;
use compiler::hir::parser::{apply_binary, apply_unary, Parser};
use compiler::hir::{
    Hir, HirEnumVariant, HirExpression, HirFunction, HirStatement, HirType, HirTypeDecl,
};
use compiler::lexer::{Token, TokenType};
use compiler::span::Str;

fn parser(source: &str) -> Parser {
    Parser::new(Rc::from(source))
}

fn parse(source: &str) -> Parser {
    let mut p = parser(source);
    if let Err(e) = p.parse() {
        panic!("{source:?} does not parse: {e:?}");
    }
    p
}

fn parse_error(source: &str) -> Error {
    let mut p = parser(source);
    match p.parse() {
        Ok(()) => panic!("{source:?} parses"),
        Err(e) => e,
    }
}

fn text(p: &Parser, span: Str) -> &str {
    assert!(p.lex.covers(span));
    p.lex.slice(span)
}

fn path_text(p: &Parser, parts: &[Str]) -> Vec<String> {
    parts.iter().map(|s| text(p, *s).to_string()).collect()
}

fn type_text(p: &Parser, ty: &HirType) -> String {
    match ty {
        HirType::SelfType => "<self>".to_string(),
        HirType::Direct { path } => path_text(p, &path.parts).join("."),
        HirType::Reference { ty } => format!("*{}", type_text(p, ty)),
        HirType::ConstReference { ty } => format!("*const {}", type_text(p, ty)),
    }
}

/// The expression, fully parenthesized.
fn show(p: &Parser, e: &HirExpression) -> String {
    match e {
        HirExpression::Int { slice }
        | HirExpression::Float { slice }
        | HirExpression::String { slice } => text(p, *slice).to_string(),
        HirExpression::Access { name } => text(p, *name).to_string(),
        HirExpression::DotAccess { expr, name } => format!("{}.{}", show(p, expr), text(p, *name)),
        HirExpression::IndexAccess { expr, index } => {
            format!("{}[{}]", show(p, expr), show(p, index))
        }
        HirExpression::Call { expr, args } => {
            let args: Vec<String> = args.iter().map(|a| show(p, a)).collect();
            format!("{}({})", show(p, expr), args.join(", "))
        }
        HirExpression::UnaryOp { op, arg } => format!("({}{})", text(p, op.slice), show(p, arg)),
        HirExpression::BinaryOp { op, args } => {
            format!("({} {} {})", show(p, &args.0), text(p, op.slice), show(p, &args.1))
        }
    }
}

fn only_function(p: &Parser) -> &HirFunction {
    assert_eq!(p.ast.functions.len(), 1);
    &p.ast.functions[0]
}

fn body(p: &Parser) -> &[HirStatement] {
    &only_function(p).body.as_ref().expect("a body").statements
}

/// The value of `x = <expr>;`, fully parenthesized.
fn value_of(source_expr: &str) -> String {
    let p = parse(&format!("fun f() {{ x = {source_expr}; }}"));
    match &body(&p)[..] {
        [HirStatement::Assign { value, .. }] => show(&p, value),
        other => panic!("not one assignment: {other:?}"),
    }
}

fn value_error(source_expr: &str) -> Error {
    parse_error(&format!("fun f() {{ x = {source_expr}; }}"))
}

fn is_empty(ast: &Hir) -> bool {
    ast.modules.is_empty()
        && ast.imports.is_empty()
        && ast.constants.is_empty()
        && ast.types.is_empty()
        && ast.impls.is_empty()
        && ast.functions.is_empty()
}

#[test]
fn fresh_parser_is_empty() {
    let p = parser("module a;");
    assert!(is_empty(&p.ast));
    assert!(p.errors.is_empty());
    assert!(p.peek_buf.is_none());
    assert!(is_empty(&Hir::default()));
}

#[test]
fn empty_source() {
    for source in ["", "  \n", "// nothing\n"] {
        let p = parse(source);
        assert!(is_empty(&p.ast));
        assert!(p.errors.is_empty());
    }
}

#[test]
fn module_declaration() {
    for name in ["n", "util", "_x9", "Module", "modules", "pub", "self"] {
        let p = parse(&format!("module {name};"));
        assert_eq!(p.ast.modules.len(), 1);
        assert_eq!(text(&p, p.ast.modules[0].name), name);
        assert_eq!(p.ast.modules[0].name, Str(7, name.len() as u32));
        assert!(!p.ast.modules[0].public);
        assert!(p.ast.imports.is_empty());
        assert!(p.ast.constants.is_empty());
        assert!(p.ast.types.is_empty());
        assert!(p.ast.impls.is_empty());
        assert!(p.ast.functions.is_empty());
        assert!(p.errors.is_empty());
    }
}

#[test]
fn module_name_must_be_an_identifier() {
    assert_eq!(parse_error("module if;"), Error::UnexpectedToken(Str(7, 2)));
    assert_eq!(parse_error("module 1;"), Error::UnexpectedToken(Str(7, 1)));
    assert_eq!(parse_error("module a"), Error::UnexpectedEof);
    assert_eq!(parse_error("module"), Error::UnexpectedEof);
    assert_eq!(parse_error("module a b"), Error::UnexpectedToken(Str(9, 1)));
}

#[test]
fn addition_and_multiplication() {
    assert_eq!(value_of("a + b * c"), "(a + (b * c))");
    assert_eq!(value_of("a * b + c"), "((a * b) + c)");
    let p = parse("fun f() { x = a + b * c; }");
    match &body(&p)[..] {
        [HirStatement::Assign { value: HirExpression::BinaryOp { op, args }, .. }] => {
            assert_eq!(op.kind, TokenType::Plus);
            assert!(matches!(&args.0, HirExpression::Access { name } if text(&p, *name) == "a"));
            match &args.1 {
                HirExpression::BinaryOp { op, args } => {
                    assert_eq!(op.kind, TokenType::Star);
                    assert!(
                        matches!(&args.0, HirExpression::Access { name } if text(&p, *name) == "b")
                    );
                    assert!(
                        matches!(&args.1, HirExpression::Access { name } if text(&p, *name) == "c")
                    );
                }
                other => panic!("{other:?}"),
            }
        }
        other => panic!("{other:?}"),
    }
}

#[test]
fn binary_operators() {
    assert_eq!(value_of("a + b"), "(a + b)");
    assert_eq!(value_of("a - b - c"), "((a - b) - c)");
    assert_eq!(value_of("a * b / c % d"), "(((a * b) / c) % d)");
    assert_eq!(value_of("a or b and c"), "(a or (b and c))");
    assert_eq!(value_of("a and b or c"), "((a and b) or c)");
    assert_eq!(value_of("a | b ^ c & d"), "(a | (b ^ (c & d)))");
    assert_eq!(value_of("a == b != c"), "((a == b) != c)");
    assert_eq!(value_of("a < b == c > d"), "((a < b) == (c > d))");
    assert_eq!(value_of("a == b < c == d"), "((a == (b < c)) == d)");
    assert_eq!(value_of("a << 1 + 2"), "(a << (1 + 2))");
    assert_eq!(value_of("a >= b"), "(a >= b)");
    assert_eq!(value_of("a <= b >> c"), "(a <= (b >> c))");
    // A tighter operator takes its two operands and no more.
    assert_eq!(value_of("a + b * c - d"), "((a + (b * c)) - d)");
    assert_eq!(value_of("a - b * c - d"), "((a - (b * c)) - d)");
    assert_eq!(value_of("a and b == c or d"), "((a and (b == c)) or d)");
    assert_eq!(value_of("a or b * c + d"), "(a or ((b * c) + d))");
    assert_eq!(value_of("a * b + c * d"), "((a * b) + (c * d))");
    assert_eq!(value_of("a + b * c * d + e"), "((a + ((b * c) * d)) + e)");
    assert_eq!(
        value_of("a or b and c | d ^ e & f == g < h << i + j * k"),
        "(a or (b and (c | (d ^ (e & (f == (g < (h << (i + (j * k))))))))))"
    );
    assert_eq!(
        value_of("a * b + c << d < e == f & g ^ h | i and j or k"),
        "((((((((((a * b) + c) << d) < e) == f) & g) ^ h) | i) and j) or k)"
    );
    assert_eq!(value_of("a - b + c - d"), "(((a - b) + c) - d)");
    assert_eq!(value_of("a.b * f(c) + d[0]"), "((a.b * f(c)) + d[0])");
    assert_eq!(value_of("-a * b + !c"), "(((-a) * b) + (!c))");
    assert_eq!(value_of("a + (b + c) * d"), "(a + ((b + c) * d))");
    assert_eq!(value_of("(a + b) * c"), "((a + b) * c)");
    assert_eq!(value_of("a * (b + c)"), "(a * (b + c))");
}

#[test]
fn bang_is_no_binary_operator() {
    // `!` stands before an operand only, so it ends the expression before it.
    assert_eq!(value_error("a ! b"), Error::UnexpectedToken(Str(16, 1)));
    assert_eq!(value_error("a ! b + c"), Error::UnexpectedToken(Str(16, 1)));
    assert_eq!(value_error("a + b ! c"), Error::UnexpectedToken(Str(20, 1)));
    assert_eq!(value_of("a != b"), "(a != b)");
    assert_eq!(value_of("a + !b"), "(a + (!b))");
}

#[test]
fn unary_operators() {
    assert_eq!(value_of("-a"), "(-a)");
    assert_eq!(value_of("!-+*&a"), "(!(-(+(*(&a)))))");
    assert_eq!(value_of("-a + b"), "((-a) + b)");
    assert_eq!(value_of("a - -b"), "(a - (-b))");
    assert_eq!(value_of("-a.b(c)"), "(-a.b(c))");
    assert_eq!(value_of("!(a and b)"), "(!(a and b))");
    assert_eq!(show_unary(), "(-1)");
}

fn show_unary() -> String {
    let p = parser("-1");
    let e = apply_unary(
        Token::new(TokenType::Minus, Str(0, 1)),
        HirExpression::Int { slice: Str(1, 1) },
    );
    show(&p, &e)
}

#[test]
fn expression_builders() {
    let p = parser("a+b");
    let op = Token::new(TokenType::Plus, Str(1, 1));
    let e = apply_binary(
        op,
        HirExpression::Access { name: Str(0, 1) },
        HirExpression::Access { name: Str(2, 1) },
    );
    assert_eq!(show(&p, &e), "(a + b)");
    match e {
        HirExpression::BinaryOp { op: o, args } => {
            assert_eq!(o, op);
            assert!(matches!(args.0, HirExpression::Access { name: Str(0, 1) }));
            assert!(matches!(args.1, HirExpression::Access { name: Str(2, 1) }));
        }
        other => panic!("{other:?}"),
    }
    match apply_unary(op, HirExpression::Int { slice: Str(2, 1) }) {
        HirExpression::UnaryOp { op: o, arg } => {
            assert_eq!(o, op);
            assert!(matches!(*arg, HirExpression::Int { slice: Str(2, 1) }));
        }
        other => panic!("{other:?}"),
    }
}

#[test]
fn primary_expressions() {
    assert_eq!(value_of("1"), "1");
    assert_eq!(value_of("1.5"), "1.5");
    assert_eq!(value_of("\"s\""), "\"s\"");
    assert_eq!(value_of("a"), "a");
    assert_eq!(value_of("((a))"), "a");
    let p = parse("fun f() { x = 1; y = 2.5; z = \"s\"; }");
    let kinds: Vec<&str> = body(&p)
        .iter()
        .map(|s| match s {
            HirStatement::Assign { value: HirExpression::Int { .. }, .. } => "int",
            HirStatement::Assign { value: HirExpression::Float { .. }, .. } => "float",
            HirStatement::Assign { value: HirExpression::String { .. }, .. } => "string",
            _ => "other",
        })
        .collect();
    assert_eq!(kinds, vec!["int", "float", "string"]);
}

#[test]
fn access_chains() {
    assert_eq!(value_of("a.b"), "a.b");
    assert_eq!(value_of("a.b.c"), "a.b.c");
    assert_eq!(value_of("a[0]"), "a[0]");
    assert_eq!(value_of("a[0].b(x)[1]"), "a[0].b(x)[1]");
    assert_eq!(value_of("a[i + 1][j]"), "a[(i + 1)][j]");
    assert_eq!(value_of("f()"), "f()");
    assert_eq!(value_of("a.b(c).d(e, f)"), "a.b(c).d(e, f)");
    assert_eq!(value_of("a[0](x)"), "a[0](x)");
    assert_eq!(value_of("\"literal\".len()"), "\"literal\".len()");
    assert_eq!(value_of("(a + b).c"), "(a + b).c");
    assert_eq!(value_of("(a)[0]"), "a[0]");
    // A number takes no access.
    assert_eq!(value_error("1[0]"), Error::UnexpectedToken(Str(15, 1)));
}

#[test]
fn call_after_call_is_no_expression() {
    // Behind an argument list only `.` and `[` go on with the chain.
    assert_eq!(
        parse_error("fun g() { x = f(a)(b); }"),
        Error::UnexpectedToken(Str(18, 1))
    );
}

#[test]
fn call_arguments() {
    assert_eq!(value_of("f()"), "f()");
    assert_eq!(value_of("f(a)"), "f(a)");
    assert_eq!(value_of("f(a,)"), "f(a)");
    assert_eq!(value_of("f(a, b + c, g(d))"), "f(a, (b + c), g(d))");
    assert_eq!(value_of("f(a, b,)"), "f(a, b)");
    assert_eq!(value_error("f(,)"), Error::InvalidUnaryExpression(Str(16, 1)));
    assert_eq!(value_error("f(a b)"), Error::UnexpectedToken(Str(18, 1)));
    assert_eq!(value_error("f(a,, b)"), Error::InvalidUnaryExpression(Str(18, 1)));
}

#[test]
fn expression_errors() {
    assert_eq!(value_error(""), Error::InvalidUnaryExpression(Str(14, 1)));
    assert_eq!(value_error("a +"), Error::InvalidUnaryExpression(Str(17, 1)));
    assert_eq!(value_error("(a"), Error::UnexpectedToken(Str(16, 1)));
    assert_eq!(value_error("a[0"), Error::UnexpectedToken(Str(17, 1)));
    assert_eq!(value_error("a."), Error::UnexpectedToken(Str(16, 1)));
    assert_eq!(value_error("if"), Error::InvalidUnaryExpression(Str(14, 2)));
    assert_eq!(parse_error("fun f() { x = a"), Error::UnexpectedEof);
    assert_eq!(parse_error("fun f() { x = -"), Error::UnexpectedEof);
    assert_eq!(parse_error("fun f() { x = a +"), Error::UnexpectedEof);
    assert_eq!(parse_error("fun f() { x = f("), Error::UnexpectedEof);
}

#[test]
fn import_group() {
    let p = parse("import a:{b, c.d};");
    let paths: Vec<Vec<String>> =
        p.ast.imports.iter().map(|i| path_text(&p, &i.path.parts)).collect();
    assert_eq!(paths, vec![vec!["a", "b"], vec!["a", "c", "d"]]);
    assert!(p.ast.modules.is_empty() && p.ast.functions.is_empty() && p.errors.is_empty());
}

#[test]
fn imports() {
    let p = parse(
        "import a; import a.b.c; import std:{io.println, math.sqrt, Array};\n\
         import x.y:{p:{q, r.s}, t}; import one:{two};",
    );
    let paths: Vec<String> =
        p.ast.imports.iter().map(|i| path_text(&p, &i.path.parts).join(".")).collect();
    assert_eq!(
        paths,
        vec![
            "a",
            "a.b.c",
            "std.io.println",
            "std.math.sqrt",
            "std.Array",
            "x.y.p.q",
            "x.y.p.r.s",
            "x.y.t",
            "one.two"
        ]
    );
}

#[test]
fn import_errors() {
    assert_eq!(parse_error("import a"), Error::UnexpectedEof);
    assert_eq!(parse_error("import a b;"), Error::UnexpectedToken(Str(9, 1)));
    assert_eq!(parse_error("import a.;"), Error::UnexpectedToken(Str(9, 1)));
    assert_eq!(parse_error("import a:b;"), Error::UnexpectedToken(Str(9, 1)));
    assert_eq!(parse_error("import a:{};"), Error::UnexpectedToken(Str(10, 1)));
    assert_eq!(parse_error("import a:{b c};"), Error::UnexpectedToken(Str(12, 1)));
    assert_eq!(parse_error("import a:{b,};"), Error::UnexpectedToken(Str(12, 1)));
    assert_eq!(parse_error("import a:{b}"), Error::UnexpectedEof);
    // An import that fails leaves none of its leaves in the tree.
    let mut p = parser("import x; import a:{b, c d};");
    assert_eq!(p.parse(), Err(Error::UnexpectedToken(Str(25, 1))));
    assert_eq!(p.ast.imports.len(), 1);
}

#[test]
fn function_with_parameter_and_return() {
    let p = parse("fun f(int x) -> int { return x; }");
    let f = only_function(&p);
    assert_eq!(text(&p, f.name), "f");
    assert!(!f.public);
    assert_eq!(f.params.len(), 1);
    assert_eq!(text(&p, f.params[0].name), "x");
    assert!(matches!(&f.params[0].ty, HirType::Direct { path } if path_text(&p, &path.parts) == ["int"]));
    assert!(matches!(&f.return_type, Some(HirType::Direct { path }) if path_text(&p, &path.parts) == ["int"]));
    match &body(&p)[..] {
        [HirStatement::Return { expr: HirExpression::Access { name } }] => {
            assert_eq!(text(&p, *name), "x")
        }
        other => panic!("{other:?}"),
    }
    assert!(p.ast.modules.is_empty() && p.ast.types.is_empty() && p.errors.is_empty());
}

#[test]
fn function_signatures() {
    let p = parse("fun a(); fun b(T x,) {} fun c(T x, m.U y) -> *V; fun d() -> r.s {}");
    let shown: Vec<String> = p
        .ast
        .functions
        .iter()
        .map(|f| {
            let params: Vec<String> = f
                .params
                .iter()
                .map(|q| format!("{} {}", type_text(&p, &q.ty), text(&p, q.name)))
                .collect();
            format!(
                "{}({}){}{}",
                text(&p, f.name),
                params.join(", "),
                f.return_type.as_ref().map(|t| format!(" -> {}", type_text(&p, t))).unwrap_or_default(),
                if f.body.is_some() { " {}" } else { ";" }
            )
        })
        .collect();
    assert_eq!(shown, vec!["a();", "b(T x) {}", "c(T x, m.U y) -> *V;", "d() -> r.s {}"]);
    assert_eq!(parse_error("fun"), Error::UnexpectedEof);
    assert_eq!(parse_error("fun f"), Error::UnexpectedEof);
    assert_eq!(parse_error("fun f {}"), Error::UnexpectedToken(Str(6, 1)));
    assert_eq!(parse_error("fun f(x) {}"), Error::UnexpectedToken(Str(7, 1)));
    assert_eq!(parse_error("fun f(T x U y) {}"), Error::UnexpectedToken(Str(10, 1)));
    assert_eq!(parse_error("fun f(,) {}"), Error::UnexpectedToken(Str(6, 1)));
    assert_eq!(parse_error("fun f() ->"), Error::UnexpectedEof);
    assert_eq!(parse_error("fun f() x"), Error::UnexpectedToken(Str(8, 1)));
    assert_eq!(parse_error("fun f() {"), Error::UnexpectedEof);
}

#[test]
fn type_expressions() {
    let p = parse("fun f(a x, a.b.c y, *a z, *const a w, **a v, *const *a.b u, *self s) {}");
    let types: Vec<String> =
        only_function(&p).params.iter().map(|q| type_text(&p, &q.ty)).collect();
    assert_eq!(types, vec!["a", "a.b.c", "*a", "*const a", "**a", "*const *a.b", "*self"]);
    assert_eq!(parse_error("fun f(a. x) {}"), Error::UnexpectedToken(Str(10, 1)));
    assert_eq!(parse_error("fun f(a.1 x) {}"), Error::UnexpectedToken(Str(7, 2)));
    assert_eq!(parse_error("fun f(*"), Error::UnexpectedEof);
    assert_eq!(parse_error("fun f(*const"), Error::UnexpectedEof);
    assert_eq!(parse_error("fun f(const a x) {}"), Error::UnexpectedToken(Str(6, 5)));
}

#[test]
fn statements() {
    let p = parse(
        "fun f() {\n\
           var a;\n\
           var b: int;\n\
           var c = 1;\n\
           var d: m.T = c + 1;\n\
           const e = 2;\n\
           a = 1;\n\
           a.b = 2;\n\
           a[0] = 3;\n\
           g(a, b);\n\
           a.h();\n\
           while a < b { continue; break; }\n\
           for i in xs { g(i); }\n\
           return a;\n\
         }",
    );
    let shown: Vec<String> = body(&p).iter().map(|s| show_statement(&p, s)).collect();
    assert_eq!(
        shown,
        vec![
            "var a",
            "var b: int",
            "var c = 1",
            "var d: m.T = (c + 1)",
            "const e = 2",
            "a = 1",
            "a.b = 2",
            "a[0] = 3",
            "call g(a, b)",
            "call a.h()",
            "while (a < b) { continue; break }",
            "for i in xs { call g(i) }",
            "return a",
        ]
    );
}

fn show_block(p: &Parser, statements: &[HirStatement]) -> String {
    let inner: Vec<String> = statements.iter().map(|s| show_statement(p, s)).collect();
    if inner.is_empty() {
        "{}".to_string()
    } else {
        format!("{{ {} }}", inner.join("; "))
    }
}

fn show_decl(
    p: &Parser,
    word: &str,
    name: Str,
    ty: &Option<HirType>,
    expr: &Option<HirExpression>,
) -> String {
    format!(
        "{word} {}{}{}",
        text(p, name),
        ty.as_ref().map(|t| format!(": {}", type_text(p, t))).unwrap_or_default(),
        expr.as_ref().map(|e| format!(" = {}", show(p, e))).unwrap_or_default()
    )
}

fn show_statement(p: &Parser, s: &HirStatement) -> String {
    match s {
        HirStatement::VarDecl { name, ty, expr } => show_decl(p, "var", *name, ty, expr),
        HirStatement::ConstDecl { name, ty, expr } => show_decl(p, "const", *name, ty, expr),
        HirStatement::Assign { expr, value } => format!("{} = {}", show(p, expr), show(p, value)),
        HirStatement::If { cond, block, else_block } => format!(
            "if {} {}{}",
            show(p, cond),
            show_block(p, &block.statements),
            else_block
                .as_ref()
                .map(|b| format!(" else {}", show_block(p, &b.statements)))
                .unwrap_or_default()
        ),
        HirStatement::While { cond, block } => {
            format!("while {} {}", show(p, cond), show_block(p, &block.statements))
        }
        HirStatement::For { name, expr, block } => format!(
            "for {} in {} {}",
            text(p, *name),
            show(p, expr),
            show_block(p, &block.statements)
        ),
        HirStatement::Call { expr, args } => {
            let args: Vec<String> = args.iter().map(|a| show(p, a)).collect();
            format!("call {}({})", show(p, expr), args.join(", "))
        }
        HirStatement::Return { expr } => format!("return {}", show(p, expr)),
        HirStatement::Continue => "continue".to_string(),
        HirStatement::Break => "break".to_string(),
    }
}

#[test]
fn if_and_else() {
    let p = parse(
        "fun f() {\n\
           if a { g(); }\n\
           if a { g(); } else { h(); }\n\
           if a {} elseif b { g(); }\n\
           if a {} elseif b {} elseif c {} else { h(); }\n\
         }",
    );
    let shown: Vec<String> = body(&p).iter().map(|s| show_statement(&p, s)).collect();
    assert_eq!(
        shown,
        vec![
            "if a { call g() }",
            "if a { call g() } else { call h() }",
            "if a {} else { if b { call g() } }",
            "if a {} else { if b {} else { if c {} else { call h() } } }",
        ]
    );
}

#[test]
fn statement_errors() {
    let at = |s: &str| parse_error(&format!("fun f() {{ {s} }}"));
    assert_eq!(at("a + b;"), Error::UnexpectedExpression);
    assert_eq!(at("1;"), Error::UnexpectedExpression);
    assert_eq!(at("-a;"), Error::UnexpectedExpression);
    assert_eq!(at("\"s\";"), Error::UnexpectedExpression);
    assert_eq!(at("a;"), Error::UnexpectedToken(Str(11, 1)));
    assert_eq!(at("a.b;"), Error::UnexpectedToken(Str(13, 1)));
    assert_eq!(at("a = 1"), Error::UnexpectedToken(Str(16, 1)));
    assert_eq!(at("f() = 1;"), Error::UnexpectedToken(Str(14, 1)));
    assert_eq!(at("var 1;"), Error::UnexpectedToken(Str(14, 1)));
    assert_eq!(at("var a: ;"), Error::UnexpectedToken(Str(17, 1)));
    assert_eq!(at("var a = ;"), Error::InvalidUnaryExpression(Str(18, 1)));
    assert_eq!(at("return;"), Error::InvalidUnaryExpression(Str(16, 1)));
    assert_eq!(at("return a"), Error::UnexpectedToken(Str(19, 1)));
    assert_eq!(at("break"), Error::UnexpectedToken(Str(16, 1)));
    assert_eq!(at("continue 1;"), Error::UnexpectedToken(Str(19, 1)));
    assert_eq!(at("if a g();"), Error::UnexpectedToken(Str(15, 1)));
    assert_eq!(at("while { }"), Error::InvalidUnaryExpression(Str(16, 1)));
    assert_eq!(at("for 1 in a {}"), Error::UnexpectedToken(Str(14, 1)));
    assert_eq!(at("for i a {}"), Error::UnexpectedToken(Str(16, 1)));
    assert_eq!(at("else {}"), Error::InvalidUnaryExpression(Str(10, 4)));
    assert_eq!(at("x = \"a\\q\";"), Error::InvalidEscapeSequence(Str(16, 1)));
    assert_eq!(at("x = 1.2.3;"), Error::InvalidFloat(Str(14, 4)));
    assert_eq!(at("x = $;"), Error::InvalidToken(Str(14, 1)));
    assert_eq!(parse_error("fun f() { if a {}"), Error::UnexpectedEof);
    assert_eq!(parse_error("fun f() { x = \"abc"), Error::UnexpectedEof);
}

#[test]
fn constants() {
    let p = parse("const a = 1; const b: int; const c: m.T = a * 2; const d;");
    let shown: Vec<String> = p
        .ast
        .constants
        .iter()
        .map(|c| {
            assert!(!c.public);
            show_decl(&p, "const", c.name, &c.ty, &c.expr)
        })
        .collect();
    assert_eq!(shown, vec!["const a = 1", "const b: int", "const c: m.T = (a * 2)", "const d"]);
    assert_eq!(parse_error("const = 1;"), Error::UnexpectedToken(Str(6, 1)));
    assert_eq!(parse_error("const a = 1"), Error::UnexpectedEof);
}

#[test]
fn traits() {
    let p = parse("trait Length { fun length(Self self) -> float; fun zero() {} } trait E {}");
    assert_eq!(p.ast.types.len(), 2);
    match &p.ast.types[0] {
        HirTypeDecl::Trait { name, public, functions } => {
            assert_eq!(text(&p, *name), "Length");
            assert!(!public);
            assert_eq!(functions.len(), 2);
            assert_eq!(text(&p, functions[0].name), "length");
            assert!(functions[0].body.is_none());
            assert!(!functions[0].public);
            assert_eq!(text(&p, functions[0].params[0].name), "self");
            assert_eq!(type_text(&p, &functions[0].params[0].ty), "Self");
            assert!(functions[1].body.is_some());
        }
        other => panic!("{other:?}"),
    }
    assert!(matches!(&p.ast.types[1], HirTypeDecl::Trait { functions, .. } if functions.is_empty()));
    assert_eq!(parse_error("trait T { int x; }"), Error::UnexpectedToken(Str(10, 3)));
    assert_eq!(parse_error("trait T { fun f();"), Error::UnexpectedEof);
    assert_eq!(parse_error("trait { }"), Error::UnexpectedToken(Str(6, 1)));
    assert_eq!(parse_error("trait T fun"), Error::UnexpectedToken(Str(8, 3)));
}

#[test]
fn structs() {
    let p = parse("struct V { float x; *V next; fun new() -> V {} m.T y; fun norm(Self s); }");
    match &p.ast.types[..] {
        [HirTypeDecl::Struct { name, public, fields, functions }] => {
            assert_eq!(text(&p, *name), "V");
            assert!(!public);
            let shown: Vec<String> = fields
                .iter()
                .map(|f| {
                    assert!(!f.public);
                    format!("{} {}", type_text(&p, &f.ty), text(&p, f.name))
                })
                .collect();
            assert_eq!(shown, vec!["float x", "*V next", "m.T y"]);
            let names: Vec<&str> = functions.iter().map(|f| text(&p, f.name)).collect();
            assert_eq!(names, vec!["new", "norm"]);
        }
        other => panic!("{other:?}"),
    }
    assert_eq!(parse_error("struct V { float x }"), Error::UnexpectedToken(Str(19, 1)));
    assert_eq!(parse_error("struct V { float; }"), Error::UnexpectedToken(Str(16, 1)));
    assert_eq!(parse_error("struct V { float x;"), Error::UnexpectedEof);
}

#[test]
fn enums() {
    let p = parse(
        "enum Number { integer(int); pair(int, m.T,); unit(); none; \
         point { float x; float y; } fun zero() {} empty {} }",
    );
    match &p.ast.types[..] {
        [HirTypeDecl::Enum { name, public, variants, functions }] => {
            assert_eq!(text(&p, *name), "Number");
            assert!(!public);
            let shown: Vec<String> = variants
                .iter()
                .map(|v| match v {
                    HirEnumVariant::Empty { name } => text(&p, *name).to_string(),
                    HirEnumVariant::Tuple { name, types } => {
                        let types: Vec<String> = types.iter().map(|t| type_text(&p, t)).collect();
                        format!("{}({})", text(&p, *name), types.join(", "))
                    }
                    HirEnumVariant::Struct { name, fields } => {
                        let fields: Vec<String> = fields
                            .iter()
                            .map(|f| {
                                assert!(f.public);
                                format!("{} {}", type_text(&p, &f.ty), text(&p, f.name))
                            })
                            .collect();
                        format!("{} {{{}}}", text(&p, *name), fields.join("; "))
                    }
                })
                .collect();
            assert_eq!(
                shown,
                vec![
                    "integer(int)",
                    "pair(int, m.T)",
                    "unit()",
                    "none",
                    "point {float x; float y}",
                    "empty {}"
                ]
            );
            assert_eq!(functions.len(), 1);
            assert_eq!(text(&p, functions[0].name), "zero");
        }
        other => panic!("{other:?}"),
    }
    assert_eq!(parse_error("enum E { a }"), Error::UnexpectedToken(Str(11, 1)));
    assert_eq!(parse_error("enum E { a = 1; }"), Error::UnexpectedToken(Str(11, 1)));
    assert_eq!(parse_error("enum E { a(int) }"), Error::UnexpectedToken(Str(16, 1)));
    assert_eq!(parse_error("enum E { a(int b); }"), Error::UnexpectedToken(Str(15, 1)));
    assert_eq!(parse_error("enum E { a"), Error::UnexpectedEof);
    assert_eq!(parse_error("enum E { 1; }"), Error::UnexpectedToken(Str(9, 1)));
}

#[test]
fn impls() {
    let p = parse("impl Vec3 : m.Length { fun len(Self s) -> float { return 1; } fun g(); } impl *A : B {}");
    assert_eq!(p.ast.impls.len(), 2);
    assert_eq!(type_text(&p, &p.ast.impls[0].target), "Vec3");
    assert_eq!(type_text(&p, &p.ast.impls[0].trait_ty), "m.Length");
    let names: Vec<&str> = p.ast.impls[0].functions.iter().map(|f| text(&p, f.name)).collect();
    assert_eq!(names, vec!["len", "g"]);
    assert_eq!(type_text(&p, &p.ast.impls[1].target), "*A");
    assert!(p.ast.impls[1].functions.is_empty());
    assert_eq!(parse_error("impl A { }"), Error::UnexpectedToken(Str(7, 1)));
    assert_eq!(parse_error("impl A : { }"), Error::UnexpectedToken(Str(9, 1)));
    assert_eq!(parse_error("impl A : B { int x; }"), Error::UnexpectedToken(Str(13, 3)));
    assert_eq!(parse_error("impl A : B"), Error::UnexpectedEof);
}

#[test]
fn items_keep_source_order() {
    let p = parse("fun a() {} module m; fun b() {} const c; module n; struct S {} enum E {}");
    let funs: Vec<&str> = p.ast.functions.iter().map(|f| text(&p, f.name)).collect();
    let mods: Vec<&str> = p.ast.modules.iter().map(|m| text(&p, m.name)).collect();
    assert_eq!(funs, vec!["a", "b"]);
    assert_eq!(mods, vec!["m", "n"]);
    assert_eq!(p.ast.constants.len(), 1);
    assert!(matches!(&p.ast.types[..], [HirTypeDecl::Struct { .. }, HirTypeDecl::Enum { .. }]));
}

#[test]
fn tokens_that_open_no_item_are_passed_over() {
    let p = parse("; module a; x 1 ) module b; pub");
    let mods: Vec<&str> = p.ast.modules.iter().map(|m| text(&p, m.name)).collect();
    assert_eq!(mods, vec!["a", "b"]);
    assert_eq!(
        p.errors,
        vec![
            Error::UnexpectedToken(Str(0, 1)),
            Error::UnexpectedToken(Str(12, 1)),
            Error::UnexpectedToken(Str(14, 1)),
            Error::UnexpectedToken(Str(16, 1)),
            Error::UnexpectedToken(Str(28, 3)),
        ]
    );
    let notes: Vec<&str> = p.errors.iter().map(|e| e.slice(&p.lex).unwrap()).collect();
    assert_eq!(notes, vec![";", "x", "1", ")", "pub"]);
}

#[test]
fn lexical_error_at_the_top_level() {
    let mut p = parser("module a; $ module b;");
    assert_eq!(p.parse(), Err(Error::InvalidToken(Str(10, 1))));
    assert_eq!(p.ast.modules.len(), 1);
    assert_eq!(parse_error("\"abc"), Error::UnexpectedEof);
    assert_eq!(parse_error("1.2.3"), Error::InvalidFloat(Str(0, 4)));
    assert_eq!(parse_error("\"\\q\""), Error::InvalidEscapeSequence(Str(1, 1)));
}

#[test]
fn public_marker() {
    // No text spells the marker, so it is handed to the parser as the token
    // looked at.
    let public = Token::new(TokenType::KwPub, Str(0, 0));
    for (source, kind) in [
        ("module m;", "module"),
        ("const c = 1;", "const"),
        ("trait T {}", "type"),
        ("struct S {}", "type"),
        ("enum E {}", "type"),
        ("fun f() {}", "fun"),
    ] {
        let mut p = parser(source);
        p.peek_buf = Some(public);
        assert_eq!(p.parse(), Ok(()));
        match kind {
            "module" => assert!(p.ast.modules[0].public),
            "const" => assert!(p.ast.constants[0].public),
            "fun" => assert!(p.ast.functions[0].public),
            _ => assert!(matches!(
                &p.ast.types[0],
                HirTypeDecl::Trait { public: true, .. }
                    | HirTypeDecl::Struct { public: true, .. }
                    | HirTypeDecl::Enum { public: true, .. }
            )),
        }
    }
    for source in ["import a;", "impl A : B {}", "x"] {
        let mut p = parser(source);
        p.peek_buf = Some(public);
        let first = p.lex.slice(Str(0, if source == "x" { 1 } else { source.find(' ').unwrap() as u32 }));
        assert!(!first.is_empty());
        assert!(matches!(p.parse(), Err(Error::UnexpectedToken(Str(0, _)))));
    }
    let mut p = parser("");
    p.peek_buf = Some(public);
    assert_eq!(p.parse(), Err(Error::UnexpectedEof));
}

#[test]
fn lookahead_primitives() {
    let mut p = parser("a ; b");
    let a = Token::new(TokenType::Identifier, Str(0, 1));
    let semi = Token::new(TokenType::Semicolon, Str(2, 1));
    let b = Token::new(TokenType::Identifier, Str(4, 1));
    assert_eq!(p.peek(), Ok(a));
    assert_eq!(p.peek_buf, Some(a));
    assert_eq!(p.peek(), Ok(a));
    assert_eq!(p.maybe(TokenType::Semicolon), Ok(None));
    assert_eq!(p.peek_buf, Some(a));
    assert_eq!(p.maybe(TokenType::Identifier), Ok(Some(a)));
    assert_eq!(p.peek_buf, None);
    assert_eq!(p.maybe(TokenType::Identifier), Ok(None));
    assert_eq!(p.peek_buf, Some(semi));
    assert_eq!(p.expect(TokenType::Semicolon), Ok(semi));
    assert_eq!(p.peek_buf, None);
    // A token of another kind is read all the same.
    assert_eq!(p.expect(TokenType::Semicolon), Err(Error::UnexpectedToken(Str(4, 1))));
    assert_eq!(p.peek_buf, None);
    assert_eq!(p.peek(), Err(Error::UnexpectedEof));
    assert_eq!(p.expect_one(), Err(Error::UnexpectedEof));
    assert_eq!(p.maybe(TokenType::Identifier), Err(Error::UnexpectedEof));
    assert_eq!(p.expect(TokenType::Identifier), Err(Error::UnexpectedEof));

    let mut p = parser("a b");
    assert_eq!(p.expect_one(), Ok(a));
    assert_eq!(p.peek(), Ok(Token::new(TokenType::Identifier, Str(2, 1))));
    assert_eq!(p.expect_one(), Ok(Token::new(TokenType::Identifier, Str(2, 1))));
    let _ = b;

    let mut p = parser("a $");
    assert_eq!(p.expect_one(), Ok(a));
    assert_eq!(p.peek(), Err(Error::InvalidToken(Str(2, 1))));
}

#[test]
fn reparsing_yields_the_same_tree() {
    let source = "module m; import a:{b, c.d}; const k = 1 + 2 * 3;\n\
                  struct S { int x; fun get(Self s) -> int { return s.x; } }\n\
                  fun main() { if a { f(1, \"two\"); } elseif b { x[0] = -y; } else {} }";
    let first = parse(source);
    let second = parse(source);
    assert_eq!(format!("{:?}", first.ast), format!("{:?}", second.ast));
    assert_eq!(first.errors, second.errors);
    // A failed parse leaves the same behind each time: what was complete
    // before the item in which it failed.
    let broken = "; module m; fun g() {} x import a:{b, c d}; fun f() { x = ; }";
    let mut one = parser(broken);
    let mut two = parser(broken);
    assert_eq!(one.parse(), Err(Error::UnexpectedToken(Str(40, 1))));
    assert_eq!(two.parse(), Err(Error::UnexpectedToken(Str(40, 1))));
    assert_eq!(format!("{:?}", one.ast), format!("{:?}", two.ast));
    assert_eq!(one.errors, two.errors);
    assert_eq!(one.ast.modules.len(), 1);
    assert_eq!(one.ast.functions.len(), 1);
    assert!(one.ast.imports.is_empty());
    assert_eq!(
        one.errors,
        vec![Error::UnexpectedToken(Str(0, 1)), Error::UnexpectedToken(Str(23, 1))]
    );
}

#[test]
fn debug_crash() {
    let p = parse(
        r#"
// A module from another file
module util;

import std:{io.println, math.sqrt, Array};

trait Length {
    fun length(Self self) -> float;
}

enum Number {
    integer(int);
    float(float);
    none;
}

struct Vec3 {
    float x;
    float y;
    float z;

    fun new(float x, float y, float z) -> Vec3 {
        // Maybe add `x: x` -> `x` from Rust
        // return Vec3{
        //     x: x,
        //     y: y,
        //     z: z,
        // };
    }

    fun add(Self self, Vec3 other) -> Vec3 {
        return Vec3.new(
            self.x + other.x,
            self.y + other.y,
            self.z + other.z,
        );
    }
}

impl Vec3 : Length {
    // todo: self type and param
    fun len(Self self) -> float {
        return sqrt(self.x * self.x + self.y * self.y + self.z * self.z);
    }
}

const a = 1;

fun do_math(int x, int y) -> int {
    const z = 7;
    return x + y * 7;
}

// todo: -> Array<int>
fun create_array(int start, int end) -> Array {
    var array = Array.new(end - start + 1);
    // for i in 0..(end - start) {
    //     array[i] = i + start;
    // }
    return array;
}

fun main() {
    println("Hello world!");
    const my_vec = Vec3.new(5.0, 2.0, 3.0);
    // const my_num = Number{ int: 10 };
}
        "#,
    );
    println!("{:#?}", p.ast);
    assert!(p.errors.is_empty());
    assert_eq!(p.ast.modules.len(), 1);
    assert_eq!(p.ast.imports.len(), 3);
    assert_eq!(p.ast.constants.len(), 1);
    assert_eq!(p.ast.types.len(), 3);
    assert_eq!(p.ast.impls.len(), 1);
    let funs: Vec<&str> = p.ast.functions.iter().map(|f| text(&p, f.name)).collect();
    assert_eq!(funs, vec!["do_math", "create_array", "main"]);
    match &p.ast.impls[0].functions[0].body.as_ref().unwrap().statements[..] {
        [HirStatement::Return { expr }] => assert_eq!(
            show(&p, expr),
            "sqrt((((self.x * self.x) + (self.y * self.y)) + (self.z * self.z)))"
        ),
        other => panic!("{other:?}"),
    }
    match &p.ast.functions[1].body.as_ref().unwrap().statements[..] {
        [HirStatement::VarDecl { expr: Some(e), .. }, HirStatement::Return { .. }] => {
            assert_eq!(show(&p, e), "Array.new(((end - start) + 1))")
        }
        other => panic!("{other:?}"),
    }
}
