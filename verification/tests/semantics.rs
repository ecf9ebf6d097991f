use semcheck::ast::{Ast, AstNode, DefKey, Token, TokenKind, Typable, TypeMention, TypedName};
use semcheck::resolver::{AnnotationGenerator, ResolveErrorKind};
use semcheck::store::{Annotations, VariableType};
use semcheck::typechecker::{number_upcast_binary_op, Checker, LocalizedError, SomewhereTypeError,
    TypeError, Typemap};
use semcheck::types::{build_union, type_eq, Arity, CallableType, Type};

fn tok(kind: TokenKind, text: &str) -> Token {
    Token::new(kind, 1, 1, String::from(text))
}

fn name_tok(t: &str) -> Token {
    tok(TokenKind::Name, t)
}

fn push(nodes: &mut Vec<AstNode>, n: AstNode) -> usize {
    nodes.push(n);
    nodes.len() - 1
}

fn int_lit(nodes: &mut Vec<AstNode>, s: &str) -> usize {
    push(nodes, AstNode::NumberLiteral(tok(TokenKind::NumberLiteral, s)))
}

fn float_lit(nodes: &mut Vec<AstNode>, s: &str) -> usize {
    push(nodes, AstNode::FloatLiteral(tok(TokenKind::FloatLiteral, s)))
}

fn bool_lit(nodes: &mut Vec<AstNode>, s: &str) -> usize {
    push(nodes, AstNode::BoolLiteral(tok(TokenKind::BoolLiteral, s)))
}

fn str_lit(nodes: &mut Vec<AstNode>, s: &str) -> usize {
    push(nodes, AstNode::StringLiteral(tok(TokenKind::StringLiteral, s)))
}

fn name_use(nodes: &mut Vec<AstNode>, t: &str) -> usize {
    push(nodes, AstNode::Name(name_tok(t)))
}

fn binary(nodes: &mut Vec<AstNode>, kind: TokenKind, l: usize, r: usize) -> usize {
    push(nodes, AstNode::Binary { op: tok(kind, ""), left: l, right: r })
}

fn mention(t: &str) -> TypeMention {
    TypeMention::Simple(tok(TokenKind::Name, t))
}

fn tn(nm: &str, ann: Option<TypeMention>) -> TypedName {
    TypedName { name: name_tok(nm), annotation: ann }
}

/// Wraps statement nodes into the program block.
fn program(mut nodes: Vec<AstNode>, stmts: Vec<usize>) -> Ast {
    let root = nodes.len();
    nodes.push(AstNode::Block { start: tok(TokenKind::BeginBlock, ""), statements: stmts });
    Ast { nodes, root }
}

/// Wraps a single expression into a program, as the parser wraps a
/// bare expression: one expression statement in the program block.
fn expr_program(mut nodes: Vec<AstNode>, e: usize) -> Ast {
    let st = push(&mut nodes, AstNode::Expression(e));
    program(nodes, vec![st])
}

/// Type-checks a bare expression against an empty annotation store and
/// returns the type recorded for it.
fn expr_type(nodes: Vec<AstNode>, e: usize) -> Type {
    let ast = expr_program(nodes, e);
    let ann = Annotations::new();
    let types = Checker::typecheck(&ast, &ann).unwrap();
    types.type_of(Typable::Expr(e))
}

fn expect_expr_type(nodes: Vec<AstNode>, e: usize, expected: &Type) {
    let got = expr_type(nodes, e);
    assert!(type_eq(&got, expected));
}

fn expect_expr_err(nodes: Vec<AstNode>, e: usize) -> TypeError {
    let ast = expr_program(nodes, e);
    let ann = Annotations::new();
    Checker::typecheck(&ast, &ann).unwrap_err()
}

/// Resolves and type-checks a whole program, as the front end does.
fn run_program(ast: &Ast) -> Result<Typemap, TypeError> {
    let mut ann = Annotations::new();
    AnnotationGenerator::generate_annotations(ast, &mut ann).unwrap();
    Checker::typecheck(ast, &ann)
}

// ----- the type-checker suite -----

#[test]
fn number_should_have_type_int() {
    let mut nodes = Vec::new();
    let e = int_lit(&mut nodes, "1");
    expect_expr_type(nodes, e, &Type::Int);
}

#[test]
fn addition_of_ints_should_be_int() {
    let mut nodes = Vec::new();
    let a = int_lit(&mut nodes, "1");
    let b = int_lit(&mut nodes, "2");
    let e = binary(&mut nodes, TokenKind::Plus, a, b);
    expect_expr_type(nodes, e, &Type::Int);
}

#[test]
fn addition_of_int_and_float_should_be_float() {
    // 1 + 2.0
    let mut nodes = Vec::new();
    let a = int_lit(&mut nodes, "1");
    let b = float_lit(&mut nodes, "2.0");
    let e = binary(&mut nodes, TokenKind::Plus, a, b);
    expect_expr_type(nodes, e, &Type::Float);
    // 1.0 + 2
    let mut nodes = Vec::new();
    let a = float_lit(&mut nodes, "1.0");
    let b = int_lit(&mut nodes, "2");
    let e = binary(&mut nodes, TokenKind::Plus, a, b);
    expect_expr_type(nodes, e, &Type::Float);
    // 1.0 + 2.0
    let mut nodes = Vec::new();
    let a = float_lit(&mut nodes, "1.0");
    let b = float_lit(&mut nodes, "2.0");
    let e = binary(&mut nodes, TokenKind::Plus, a, b);
    expect_expr_type(nodes, e, &Type::Float);
}

#[test]
fn addition_of_int_and_other_should_error() {
    // 1 + true
    let mut nodes = Vec::new();
    let a = int_lit(&mut nodes, "1");
    let b = bool_lit(&mut nodes, "true");
    let e = binary(&mut nodes, TokenKind::Plus, a, b);
    expect_expr_err(nodes, e);
    // true + 1
    let mut nodes = Vec::new();
    let a = bool_lit(&mut nodes, "true");
    let b = int_lit(&mut nodes, "1");
    let e = binary(&mut nodes, TokenKind::Plus, a, b);
    expect_expr_err(nodes, e);
}

#[test]
fn mod_should_allow_only_ints() {
    // 1 mod 2
    let mut nodes = Vec::new();
    let a = int_lit(&mut nodes, "1");
    let b = int_lit(&mut nodes, "2");
    let e = binary(&mut nodes, TokenKind::Mod, a, b);
    expect_expr_type(nodes, e, &Type::Int);
    // 1 mod true
    let mut nodes = Vec::new();
    let a = int_lit(&mut nodes, "1");
    let b = bool_lit(&mut nodes, "true");
    let e = binary(&mut nodes, TokenKind::Mod, a, b);
    expect_expr_err(nodes, e);
    // 1.0 mod 1
    let mut nodes = Vec::new();
    let a = float_lit(&mut nodes, "1.0");
    let b = int_lit(&mut nodes, "1");
    let e = binary(&mut nodes, TokenKind::Mod, a, b);
    let err = expect_expr_err(nodes, e);
    assert!(matches!(
        err,
        TypeError::LocalizedError(LocalizedError {
            error: SomewhereTypeError::UnspecifiedBinary { .. },
            ..
        })
    ));
}

#[test]
fn comparisons() {
    // 1 == 2
    let mut nodes = Vec::new();
    let a = int_lit(&mut nodes, "1");
    let b = int_lit(&mut nodes, "2");
    let e = binary(&mut nodes, TokenKind::CompareEquals, a, b);
    expect_expr_type(nodes, e, &Type::Bool);
    // "abc" == 1
    let mut nodes = Vec::new();
    let a = str_lit(&mut nodes, "abc");
    let b = int_lit(&mut nodes, "1");
    let e = binary(&mut nodes, TokenKind::CompareEquals, a, b);
    expect_expr_type(nodes, e, &Type::Bool);
    // 1 != 2
    let mut nodes = Vec::new();
    let a = int_lit(&mut nodes, "1");
    let b = int_lit(&mut nodes, "2");
    let e = binary(&mut nodes, TokenKind::CompareNotEquals, a, b);
    expect_expr_type(nodes, e, &Type::Bool);
    // 1 != "abc"
    let mut nodes = Vec::new();
    let a = int_lit(&mut nodes, "1");
    let b = str_lit(&mut nodes, "abc");
    let e = binary(&mut nodes, TokenKind::CompareNotEquals, a, b);
    expect_expr_type(nodes, e, &Type::Bool);
    // 1 > 2, 1 >= 2, 1 < 2, 1 <= 2
    for kind in [
        TokenKind::CompareGreater,
        TokenKind::CompareGreaterEqual,
        TokenKind::CompareLess,
        TokenKind::CompareLessEqual,
    ] {
        let mut nodes = Vec::new();
        let a = int_lit(&mut nodes, "1");
        let b = int_lit(&mut nodes, "2");
        let e = binary(&mut nodes, kind, a, b);
        expect_expr_type(nodes, e, &Type::Bool);
    }
    // true > false
    let mut nodes = Vec::new();
    let a = bool_lit(&mut nodes, "true");
    let b = bool_lit(&mut nodes, "false");
    let e = binary(&mut nodes, TokenKind::CompareGreater, a, b);
    expect_expr_err(nodes, e);
}

#[test]
fn if_typecheck() {
    // if 1 2 else 3 -- only bool conditions
    let mut nodes = Vec::new();
    let c = int_lit(&mut nodes, "1");
    let t = int_lit(&mut nodes, "2");
    let f = int_lit(&mut nodes, "3");
    let e = push(&mut nodes, AstNode::Cond { condition: c, then_branch: t, else_branch: Some(f) });
    expect_expr_err(nodes, e);
    // if 1==2 2 else 3
    let mut nodes = Vec::new();
    let a = int_lit(&mut nodes, "1");
    let b = int_lit(&mut nodes, "2");
    let c = binary(&mut nodes, TokenKind::CompareEquals, a, b);
    let t = int_lit(&mut nodes, "2");
    let f = int_lit(&mut nodes, "3");
    let e = push(&mut nodes, AstNode::Cond { condition: c, then_branch: t, else_branch: Some(f) });
    expect_expr_type(nodes, e, &Type::Int);
    // if 1==2 2
    let mut nodes = Vec::new();
    let a = int_lit(&mut nodes, "1");
    let b = int_lit(&mut nodes, "2");
    let c = binary(&mut nodes, TokenKind::CompareEquals, a, b);
    let t = int_lit(&mut nodes, "2");
    let e = push(&mut nodes, AstNode::Cond { condition: c, then_branch: t, else_branch: None });
    expect_expr_type(nodes, e, &build_union(Type::Int, Type::Nothing));
    // if 1==2 2 else true
    let mut nodes = Vec::new();
    let a = int_lit(&mut nodes, "1");
    let b = int_lit(&mut nodes, "2");
    let c = binary(&mut nodes, TokenKind::CompareEquals, a, b);
    let t = int_lit(&mut nodes, "2");
    let f = bool_lit(&mut nodes, "true");
    let e = push(&mut nodes, AstNode::Cond { condition: c, then_branch: t, else_branch: Some(f) });
    expect_expr_type(nodes, e, &build_union(Type::Int, Type::Bool));
}

/// Builds `var a <ann> = <init>; a = <second>` and runs both passes.
fn assignment_program(annotated: bool, second_bool: bool) -> Result<Typemap, TypeError> {
    let mut nodes = Vec::new();
    let init = int_lit(&mut nodes, "2");
    let ann = if annotated { Some(mention("Int")) } else { None };
    let var_stmt = push(&mut nodes, AstNode::VarDeclaration { name: tn("a", ann), value: Some(init) });
    let second = if second_bool {
        bool_lit(&mut nodes, "true")
    } else {
        int_lit(&mut nodes, "3")
    };
    let assign = push(&mut nodes, AstNode::Assignment { target: name_tok("a"), value: second });
    let ast = program(nodes, vec![var_stmt, assign]);
    run_program(&ast)
}

#[test]
fn variable_assignment() {
    // var a: Int = 2 ; a = 3
    assert!(assignment_program(true, false).is_ok());
    // var a = 2 ; a = 3
    assert!(assignment_program(false, false).is_ok());
    // var a: Int = 2 ; a = true -- it catches errors
    assert!(assignment_program(true, true).is_err());
    // var a = 2 ; a = true -- it does not limit the user too much
    assert!(assignment_program(false, true).is_ok());
}

/// Builds `def a(x: Int): Int = x` followed by the given use.
fn def_a_int_int(nodes: &mut Vec<AstNode>) -> usize {
    let x_use = name_use(nodes, "x");
    let body_stmt = push(nodes, AstNode::Expression(x_use));
    let body = push(
        nodes,
        AstNode::Block { start: tok(TokenKind::BeginBlock, ""), statements: vec![body_stmt] },
    );
    push(
        nodes,
        AstNode::FunctionDeclaration {
            name: name_tok("a"),
            arguments: vec![tn("x", Some(mention("Int")))],
            vararg: None,
            ret: Some(mention("Int")),
            body,
        },
    )
}

#[test]
fn def_calling() {
    // def a(x: Int): Int = x ; a(1) + 1
    let mut nodes = Vec::new();
    let f = def_a_int_int(&mut nodes);
    let a_use = name_use(&mut nodes, "a");
    let one = int_lit(&mut nodes, "1");
    let call = push(&mut nodes, AstNode::Call { target: a_use, arguments: vec![one] });
    let one2 = int_lit(&mut nodes, "1");
    let sum = binary(&mut nodes, TokenKind::Plus, call, one2);
    let st = push(&mut nodes, AstNode::Expression(sum));
    assert!(run_program(&program(nodes, vec![f, st])).is_ok());

    // def a(x: Int): Int = x ; a(true) -- arguments are matched
    let mut nodes = Vec::new();
    let f = def_a_int_int(&mut nodes);
    let a_use = name_use(&mut nodes, "a");
    let arg = bool_lit(&mut nodes, "true");
    let call = push(&mut nodes, AstNode::Call { target: a_use, arguments: vec![arg] });
    let st = push(&mut nodes, AstNode::Expression(call));
    assert!(run_program(&program(nodes, vec![f, st])).is_err());

    // def a(x: Int): Int = x ; a(1) + "abcd" -- return value is matched
    let mut nodes = Vec::new();
    let f = def_a_int_int(&mut nodes);
    let a_use = name_use(&mut nodes, "a");
    let one = int_lit(&mut nodes, "1");
    let call = push(&mut nodes, AstNode::Call { target: a_use, arguments: vec![one] });
    let s = str_lit(&mut nodes, "abcd");
    let sum = binary(&mut nodes, TokenKind::Plus, call, s);
    let st = push(&mut nodes, AstNode::Expression(sum));
    assert!(run_program(&program(nodes, vec![f, st])).is_err());

    // def a(x, y) = x + y ; a(1) -- arity is checked
    let mut nodes = Vec::new();
    let x_use = name_use(&mut nodes, "x");
    let y_use = name_use(&mut nodes, "y");
    let sum = binary(&mut nodes, TokenKind::Plus, x_use, y_use);
    let body_stmt = push(&mut nodes, AstNode::Expression(sum));
    let body = push(
        &mut nodes,
        AstNode::Block { start: tok(TokenKind::BeginBlock, ""), statements: vec![body_stmt] },
    );
    let f = push(
        &mut nodes,
        AstNode::FunctionDeclaration {
            name: name_tok("a"),
            arguments: vec![tn("x", None), tn("y", None)],
            vararg: None,
            ret: None,
            body,
        },
    );
    let a_use = name_use(&mut nodes, "a");
    let one = int_lit(&mut nodes, "1");
    let call = push(&mut nodes, AstNode::Call { target: a_use, arguments: vec![one] });
    let st = push(&mut nodes, AstNode::Expression(call));
    let err = run_program(&program(nodes, vec![f, st])).unwrap_err();
    assert!(matches!(
        err,
        TypeError::LocalizedError(LocalizedError {
            error: SomewhereTypeError::ArityMismatch { .. },
            ..
        })
    ));

    // def a: Int = false -- the return type is checked
    let mut nodes = Vec::new();
    let fls = bool_lit(&mut nodes, "false");
    let body_stmt = push(&mut nodes, AstNode::Expression(fls));
    let body = push(
        &mut nodes,
        AstNode::Block { start: tok(TokenKind::BeginBlock, ""), statements: vec![body_stmt] },
    );
    let f = push(
        &mut nodes,
        AstNode::FunctionDeclaration {
            name: name_tok("a"),
            arguments: vec![],
            vararg: None,
            ret: Some(mention("Int")),
            body,
        },
    );
    assert!(run_program(&program(nodes, vec![f])).is_err());
}

/// Builds `(x <ann>) => x + 1` as an expression node.
fn anon_x_plus_1(nodes: &mut Vec<AstNode>, annotated: bool) -> usize {
    let x_use = name_use(nodes, "x");
    let one = int_lit(nodes, "1");
    let sum = binary(nodes, TokenKind::Plus, x_use, one);
    let ann = if annotated { Some(mention("Int")) } else { None };
    push(
        nodes,
        AstNode::AnonFunction {
            arguments: vec![tn("x", ann)],
            vararg: None,
            arrow: tok(TokenKind::Arrow, ""),
            body: sum,
        },
    )
}

#[test]
fn anon_functions() {
    // ((x) => x + 1)(1)
    let mut nodes = Vec::new();
    let anon = anon_x_plus_1(&mut nodes, false);
    let one = int_lit(&mut nodes, "1");
    let call = push(&mut nodes, AstNode::Call { target: anon, arguments: vec![one] });
    let st = push(&mut nodes, AstNode::Expression(call));
    assert!(run_program(&program(nodes, vec![st])).is_ok());

    // ((x) => x + 1)() -- arity is checked
    let mut nodes = Vec::new();
    let anon = anon_x_plus_1(&mut nodes, false);
    let call = push(&mut nodes, AstNode::Call { target: anon, arguments: vec![] });
    let st = push(&mut nodes, AstNode::Expression(call));
    assert!(run_program(&program(nodes, vec![st])).is_err());

    // ((x: Int) => x + 1)(2) + true -- the return type is checked
    let mut nodes = Vec::new();
    let anon = anon_x_plus_1(&mut nodes, true);
    let two = int_lit(&mut nodes, "2");
    let call = push(&mut nodes, AstNode::Call { target: anon, arguments: vec![two] });
    let t = bool_lit(&mut nodes, "true");
    let sum = binary(&mut nodes, TokenKind::Plus, call, t);
    let st = push(&mut nodes, AstNode::Expression(sum));
    assert!(run_program(&program(nodes, vec![st])).is_err());

    // ((x: Int) => x + 1)(true) -- arguments are checked
    let mut nodes = Vec::new();
    let anon = anon_x_plus_1(&mut nodes, true);
    let t = bool_lit(&mut nodes, "true");
    let call = push(&mut nodes, AstNode::Call { target: anon, arguments: vec![t] });
    let st = push(&mut nodes, AstNode::Expression(call));
    assert!(run_program(&program(nodes, vec![st])).is_err());
}

#[test]
fn unary_operator() {
    // assert not 0 -- assert requires bool, and `not` always gives it
    let mut nodes = Vec::new();
    let zero = int_lit(&mut nodes, "0");
    let not = push(&mut nodes, AstNode::Unary { op: tok(TokenKind::Not, ""), operand: zero });
    let st = push(&mut nodes, AstNode::Assert { keyword: tok(TokenKind::Assert, ""), value: not });
    assert!(run_program(&program(nodes, vec![st])).is_ok());
}

/// Builds `def F(op: Fn() => Int): Int = op()`.
fn def_f_taking_fn(nodes: &mut Vec<AstNode>) -> usize {
    let op_use = name_use(nodes, "op");
    let call = push(nodes, AstNode::Call { target: op_use, arguments: vec![] });
    let body_stmt = push(nodes, AstNode::Expression(call));
    let body = push(
        nodes,
        AstNode::Block { start: tok(TokenKind::BeginBlock, ""), statements: vec![body_stmt] },
    );
    let fn_mention = TypeMention::Function {
        position: semcheck::ast::Index(1, 1),
        arguments: vec![],
        vararg: None,
        ret: Box::new(mention("Int")),
    };
    push(
        nodes,
        AstNode::FunctionDeclaration {
            name: name_tok("F"),
            arguments: vec![tn("op", Some(fn_mention))],
            vararg: None,
            ret: Some(mention("Int")),
            body,
        },
    )
}

#[test]
fn function_type() {
    // def F(op: Fn()=>Int): Int = op() ; F(() => 2)
    let mut nodes = Vec::new();
    let f = def_f_taking_fn(&mut nodes);
    let f_use = name_use(&mut nodes, "F");
    let two = int_lit(&mut nodes, "2");
    let anon = push(
        &mut nodes,
        AstNode::AnonFunction {
            arguments: vec![],
            vararg: None,
            arrow: tok(TokenKind::Arrow, ""),
            body: two,
        },
    );
    let call = push(&mut nodes, AstNode::Call { target: f_use, arguments: vec![anon] });
    let st = push(&mut nodes, AstNode::Expression(call));
    assert!(run_program(&program(nodes, vec![f, st])).is_ok());

    // F(1)
    let mut nodes = Vec::new();
    let f = def_f_taking_fn(&mut nodes);
    let f_use = name_use(&mut nodes, "F");
    let one = int_lit(&mut nodes, "1");
    let call = push(&mut nodes, AstNode::Call { target: f_use, arguments: vec![one] });
    let st = push(&mut nodes, AstNode::Expression(call));
    assert!(run_program(&program(nodes, vec![f, st])).is_err());

    // F((x) => x + 1)
    let mut nodes = Vec::new();
    let f = def_f_taking_fn(&mut nodes);
    let f_use = name_use(&mut nodes, "F");
    let anon = anon_x_plus_1(&mut nodes, false);
    let call = push(&mut nodes, AstNode::Call { target: f_use, arguments: vec![anon] });
    let st = push(&mut nodes, AstNode::Expression(call));
    assert!(run_program(&program(nodes, vec![f, st])).is_err());
}

// ----- capture and scoping scenarios -----

/// A function declared in the program block whose body holds an
/// anonymous function reading the outer variable `a`: the variable
/// must become `Boxed`, and both the anonymous function and the
/// enclosing one must capture it.
#[test]
fn closure_capture_boxes_outer_variable() {
    let mut nodes = Vec::new();
    let two = int_lit(&mut nodes, "2");
    let var_a = push(&mut nodes, AstNode::VarDeclaration { name: tn("a", None), value: Some(two) });
    let a_use = name_use(&mut nodes, "a");
    let x_use = name_use(&mut nodes, "x");
    let sum = binary(&mut nodes, TokenKind::Plus, a_use, x_use);
    let anon = push(
        &mut nodes,
        AstNode::AnonFunction {
            arguments: vec![tn("x", None)],
            vararg: None,
            arrow: tok(TokenKind::Arrow, ""),
            body: sum,
        },
    );
    let body_stmt = push(&mut nodes, AstNode::Expression(anon));
    let body = push(
        &mut nodes,
        AstNode::Block { start: tok(TokenKind::BeginBlock, ""), statements: vec![body_stmt] },
    );
    let f = push(
        &mut nodes,
        AstNode::FunctionDeclaration {
            name: name_tok("f"),
            arguments: vec![],
            vararg: None,
            ret: None,
            body,
        },
    );
    let ast = program(nodes, vec![var_a, f]);
    let root = ast.root;

    let mut ann = Annotations::new();
    AnnotationGenerator::generate_annotations(&ast, &mut ann).unwrap();

    let a = String::from("a");
    assert!(matches!(ann.get_block_var(root, &a), Some(VariableType::Boxed)));
    // once Boxed, later queries still report Boxed
    assert!(matches!(ann.get_block_var(root, &a), Some(VariableType::Boxed)));
    assert!(ann.closure_contains(anon, &a));
    assert!(ann.closure_contains(f, &a));
    assert_eq!(ann.closure_len(anon), 1);
    assert_eq!(ann.closure_name_at(anon, 0), Some(String::from("a")));
}

#[test]
fn unboxed_variable_stays_normal() {
    // var a = 2 ; a = 3 -- no capture, so `a` stays stack-resident
    let mut nodes = Vec::new();
    let two = int_lit(&mut nodes, "2");
    let var_a = push(&mut nodes, AstNode::VarDeclaration { name: tn("a", None), value: Some(two) });
    let three = int_lit(&mut nodes, "3");
    let assign = push(&mut nodes, AstNode::Assignment { target: name_tok("a"), value: three });
    let ast = program(nodes, vec![var_a, assign]);
    let root = ast.root;
    let mut ann = Annotations::new();
    AnnotationGenerator::generate_annotations(&ast, &mut ann).unwrap();
    assert!(matches!(ann.get_block_var(root, &String::from("a")), Some(VariableType::Normal)));
}

#[test]
fn scope_tables_keep_declaration_order() {
    let mut nodes = Vec::new();
    let one = int_lit(&mut nodes, "1");
    let var_a = push(&mut nodes, AstNode::VarDeclaration { name: tn("a", None), value: Some(one) });
    let two = int_lit(&mut nodes, "2");
    let var_b = push(&mut nodes, AstNode::VarDeclaration { name: tn("b", None), value: Some(two) });
    let ast = program(nodes, vec![var_a, var_b]);
    let root = ast.root;
    let mut ann = Annotations::new();
    AnnotationGenerator::generate_annotations(&ast, &mut ann).unwrap();
    assert_eq!(ann.block_scope_len(root), 2);
    let first = ann.block_scope_at(root, 0).unwrap();
    let second = ann.block_scope_at(root, 1).unwrap();
    assert_eq!(first.0, String::from("a"));
    assert!(matches!(first.1, VariableType::Normal));
    assert_eq!(second.0, String::from("b"));
    assert!(matches!(second.1, VariableType::Normal));
}

#[test]
fn shadowing_resolves_to_innermost_declaration() {
    // var a = 1 ; { var a = true ; a = false } -- inner block shadows
    let mut nodes = Vec::new();
    let one = int_lit(&mut nodes, "1");
    let var_outer = push(&mut nodes, AstNode::VarDeclaration { name: tn("a", None), value: Some(one) });
    let t = bool_lit(&mut nodes, "true");
    let var_inner = push(&mut nodes, AstNode::VarDeclaration { name: tn("a", None), value: Some(t) });
    let f = bool_lit(&mut nodes, "false");
    let assign = push(&mut nodes, AstNode::Assignment { target: name_tok("a"), value: f });
    let inner_block = push(
        &mut nodes,
        AstNode::Block {
            start: tok(TokenKind::BeginBlock, ""),
            statements: vec![var_inner, assign],
        },
    );
    let st = push(&mut nodes, AstNode::Expression(inner_block));
    let ast = program(nodes, vec![var_outer, st]);
    let mut ann = Annotations::new();
    AnnotationGenerator::generate_annotations(&ast, &mut ann).unwrap();
    // the assignment target resolves to the inner declaration
    assert_eq!(ann.get_definition(assign), Some(DefKey { node: var_inner, slot: 0 }));
}

// ----- resolver failures -----

#[test]
fn unknown_name_is_rejected() {
    let mut nodes = Vec::new();
    let b_use = name_use(&mut nodes, "b");
    let st = push(&mut nodes, AstNode::Expression(b_use));
    let ast = program(nodes, vec![st]);
    let mut ann = Annotations::new();
    let err = AnnotationGenerator::generate_annotations(&ast, &mut ann).unwrap_err();
    assert_eq!(err.kind, ResolveErrorKind::NoSuchVariable);
    assert_eq!(err.name, String::from("b"));
}

#[test]
fn use_before_definition_is_rejected() {
    // var a = a
    let mut nodes = Vec::new();
    let a_use = name_use(&mut nodes, "a");
    let var_a = push(&mut nodes, AstNode::VarDeclaration { name: tn("a", None), value: Some(a_use) });
    let ast = program(nodes, vec![var_a]);
    let mut ann = Annotations::new();
    let err = AnnotationGenerator::generate_annotations(&ast, &mut ann).unwrap_err();
    assert_eq!(err.kind, ResolveErrorKind::UseBeforeDefinition);
}

#[test]
fn duplicate_declaration_is_rejected() {
    // var a = 1 ; var a = 2
    let mut nodes = Vec::new();
    let one = int_lit(&mut nodes, "1");
    let first = push(&mut nodes, AstNode::VarDeclaration { name: tn("a", None), value: Some(one) });
    let two = int_lit(&mut nodes, "2");
    let second = push(&mut nodes, AstNode::VarDeclaration { name: tn("a", None), value: Some(two) });
    let ast = program(nodes, vec![first, second]);
    let mut ann = Annotations::new();
    let err = AnnotationGenerator::generate_annotations(&ast, &mut ann).unwrap_err();
    assert_eq!(err.kind, ResolveErrorKind::DuplicateDeclaration);
}

#[test]
fn forward_reference_into_function_body_is_allowed() {
    // def f(): Int = g() ; def g(): Int = 1 -- forward reference works
    let mut nodes = Vec::new();
    let g_use = name_use(&mut nodes, "g");
    let call = push(&mut nodes, AstNode::Call { target: g_use, arguments: vec![] });
    let f_body_stmt = push(&mut nodes, AstNode::Expression(call));
    let f_body = push(
        &mut nodes,
        AstNode::Block { start: tok(TokenKind::BeginBlock, ""), statements: vec![f_body_stmt] },
    );
    let f = push(
        &mut nodes,
        AstNode::FunctionDeclaration {
            name: name_tok("f"),
            arguments: vec![],
            vararg: None,
            ret: Some(mention("Int")),
            body: f_body,
        },
    );
    let one = int_lit(&mut nodes, "1");
    let g_body_stmt = push(&mut nodes, AstNode::Expression(one));
    let g_body = push(
        &mut nodes,
        AstNode::Block { start: tok(TokenKind::BeginBlock, ""), statements: vec![g_body_stmt] },
    );
    let g = push(
        &mut nodes,
        AstNode::FunctionDeclaration {
            name: name_tok("g"),
            arguments: vec![],
            vararg: None,
            ret: Some(mention("Int")),
            body: g_body,
        },
    );
    let ast = program(nodes, vec![f, g]);
    assert!(run_program(&ast).is_ok());
}

#[test]
fn unannotated_return_type_defaults_to_nothing() {
    // def g = 1 -- without a return annotation the body must fit
    // Nothing, so a body producing Int is rejected...
    let mut nodes = Vec::new();
    let one = int_lit(&mut nodes, "1");
    let body_stmt = push(&mut nodes, AstNode::Expression(one));
    let body = push(
        &mut nodes,
        AstNode::Block { start: tok(TokenKind::BeginBlock, ""), statements: vec![body_stmt] },
    );
    let g = push(
        &mut nodes,
        AstNode::FunctionDeclaration {
            name: name_tok("g"),
            arguments: vec![],
            vararg: None,
            ret: None,
            body,
        },
    );
    let ast = program(nodes, vec![g]);
    assert!(run_program(&ast).is_err());
    // ...while an Unspecified body (untyped code) is always accepted.
    let mut nodes = Vec::new();
    let x_use = name_use(&mut nodes, "x");
    let body_stmt = push(&mut nodes, AstNode::Expression(x_use));
    let body = push(
        &mut nodes,
        AstNode::Block { start: tok(TokenKind::BeginBlock, ""), statements: vec![body_stmt] },
    );
    let g = push(
        &mut nodes,
        AstNode::FunctionDeclaration {
            name: name_tok("g"),
            arguments: vec![tn("x", None)],
            vararg: None,
            ret: None,
            body,
        },
    );
    let ast = program(nodes, vec![g]);
    assert!(run_program(&ast).is_ok());
}

// ----- further type-checker behaviour -----

#[test]
fn gradual_escape_silences_every_operator() {
    // an unresolved name types as Unspecified; combined with any
    // operand under any non-equality operator it stays Unspecified
    for kind in [
        TokenKind::Plus,
        TokenKind::Minus,
        TokenKind::Star,
        TokenKind::Slash,
        TokenKind::Power,
        TokenKind::Mod,
        TokenKind::And,
        TokenKind::Or,
        TokenKind::CompareGreater,
    ] {
        let mut nodes = Vec::new();
        let u = name_use(&mut nodes, "mystery");
        let b = bool_lit(&mut nodes, "true");
        let e = binary(&mut nodes, kind, u, b);
        expect_expr_type(nodes, e, &Type::Unspecified);
    }
    // the equality tests stay Bool even on Unspecified operands
    let mut nodes = Vec::new();
    let u = name_use(&mut nodes, "mystery");
    let b = bool_lit(&mut nodes, "true");
    let e = binary(&mut nodes, TokenKind::CompareEquals, u, b);
    expect_expr_type(nodes, e, &Type::Bool);
    // calling an Unspecified callee yields Unspecified
    let mut nodes = Vec::new();
    let u = name_use(&mut nodes, "mystery");
    let one = int_lit(&mut nodes, "1");
    let call = push(&mut nodes, AstNode::Call { target: u, arguments: vec![one] });
    expect_expr_type(nodes, call, &Type::Unspecified);
}

#[test]
fn union_of_identical_branches_is_not_wrapped() {
    // if 1==2 2 else 3 types as Int, not Union{Int} -- and directly:
    let u = build_union(Type::Int, Type::Int);
    assert!(type_eq(&u, &Type::Int));
    let u2 = build_union(Type::Str, Type::Str);
    assert!(type_eq(&u2, &Type::Str));
}

#[test]
fn string_concatenation_and_ordering() {
    // "a" + "b" is String
    let mut nodes = Vec::new();
    let a = str_lit(&mut nodes, "a");
    let b = str_lit(&mut nodes, "b");
    let e = binary(&mut nodes, TokenKind::Plus, a, b);
    expect_expr_type(nodes, e, &Type::Str);
    // "a" < "b" is Bool
    let mut nodes = Vec::new();
    let a = str_lit(&mut nodes, "a");
    let b = str_lit(&mut nodes, "b");
    let e = binary(&mut nodes, TokenKind::CompareLess, a, b);
    expect_expr_type(nodes, e, &Type::Bool);
}

#[test]
fn boolean_connectives() {
    // true and false is Bool
    let mut nodes = Vec::new();
    let a = bool_lit(&mut nodes, "true");
    let b = bool_lit(&mut nodes, "false");
    let e = binary(&mut nodes, TokenKind::And, a, b);
    expect_expr_type(nodes, e, &Type::Bool);
    // 1 or true is Union{Int, Bool} (value passthrough)
    let mut nodes = Vec::new();
    let a = int_lit(&mut nodes, "1");
    let b = bool_lit(&mut nodes, "true");
    let e = binary(&mut nodes, TokenKind::Or, a, b);
    expect_expr_type(nodes, e, &build_union(Type::Int, Type::Bool));
}

#[test]
fn calling_a_non_callable_is_unsupported() {
    // 1(2)
    let mut nodes = Vec::new();
    let one = int_lit(&mut nodes, "1");
    let two = int_lit(&mut nodes, "2");
    let call = push(&mut nodes, AstNode::Call { target: one, arguments: vec![two] });
    let err = expect_expr_err(nodes, call);
    assert!(matches!(
        err,
        TypeError::LocalizedError(LocalizedError {
            error: SomewhereTypeError::OperationUnsupported { .. },
            ..
        })
    ));
}

#[test]
fn unknown_type_name_is_rejected() {
    // var a: Wat = 1
    let mut nodes = Vec::new();
    let one = int_lit(&mut nodes, "1");
    let var_a = push(
        &mut nodes,
        AstNode::VarDeclaration { name: tn("a", Some(mention("Wat"))), value: Some(one) },
    );
    let ast = program(nodes, vec![var_a]);
    let err = run_program(&ast).unwrap_err();
    assert!(matches!(
        err,
        TypeError::LocalizedError(LocalizedError {
            error: SomewhereTypeError::UnknownType { .. },
            ..
        })
    ));
}

#[test]
fn vararg_accepts_any_extra_arguments() {
    // def s(x: Int, rest: Int...): Int = x
    fn build(call_args: &[&str]) -> Result<Typemap, TypeError> {
        let mut nodes = Vec::new();
        let x_use = name_use(&mut nodes, "x");
        let body_stmt = push(&mut nodes, AstNode::Expression(x_use));
        let body = push(
            &mut nodes,
            AstNode::Block { start: tok(TokenKind::BeginBlock, ""), statements: vec![body_stmt] },
        );
        let f = push(
            &mut nodes,
            AstNode::FunctionDeclaration {
                name: name_tok("s"),
                arguments: vec![tn("x", Some(mention("Int")))],
                vararg: Some(tn("rest", Some(mention("Int")))),
                ret: Some(mention("Int")),
                body,
            },
        );
        let s_use = name_use(&mut nodes, "s");
        let mut args = Vec::new();
        for a in call_args {
            if *a == "true" {
                args.push(bool_lit(&mut nodes, a));
            } else {
                args.push(int_lit(&mut nodes, a));
            }
        }
        let call = push(&mut nodes, AstNode::Call { target: s_use, arguments: args });
        let st = push(&mut nodes, AstNode::Expression(call));
        run_program(&program(nodes, vec![f, st]))
    }
    // any count at or above the fixed one is accepted
    assert!(build(&["1"]).is_ok());
    assert!(build(&["1", "2", "3"]).is_ok());
    // each extra argument is checked against the vararg type
    assert!(build(&["1", "true"]).is_err());
    // below the fixed count the arity fails
    assert!(build(&[]).is_err());
}

#[test]
fn typemap_defaults_to_unspecified() {
    let ann = Annotations::new();
    let mut nodes = Vec::new();
    let e = int_lit(&mut nodes, "1");
    let ast = expr_program(nodes, e);
    let tm = Checker::typecheck(&ast, &ann).unwrap();
    let got = tm.type_of(Typable::Expr(4242));
    assert!(type_eq(&got, &Type::Unspecified));
}

#[test]
fn struct_and_enum_declarations_are_accepted_as_stubs() {
    let mut nodes = Vec::new();
    let s = push(
        &mut nodes,
        AstNode::StructDeclaration { name: name_tok("P"), fields: vec![tn("x", None)] },
    );
    let e = push(
        &mut nodes,
        AstNode::EnumDeclaration { name: name_tok("E"), variants: vec![name_tok("A")] },
    );
    let ast = program(nodes, vec![s, e]);
    let tm = run_program(&ast).unwrap();
    assert!(type_eq(&tm.type_of(Typable::Stmt(s)), &Type::Nothing));
    assert!(type_eq(&tm.type_of(Typable::Stmt(e)), &Type::Nothing));
}

#[test]
fn callable_arity_is_exposed() {
    let c = Type::Callable(CallableType {
        arguments: vec![Type::Int, Type::Bool],
        vararg: None,
        ret: Box::new(Type::Int),
    });
    let a = c.get_arity().unwrap();
    assert_eq!(a, Arity { required: 2, has_vararg: false });
    assert!(a.accepts(2));
    assert!(!a.accepts(1));
    assert!(!a.accepts(3));
    let v = Type::Callable(CallableType {
        arguments: vec![Type::Int],
        vararg: Some(Box::new(Type::Int)),
        ret: Box::new(Type::Int),
    });
    let av = v.get_arity().unwrap();
    assert_eq!(av, Arity { required: 1, has_vararg: true });
    assert!(av.accepts(1) && av.accepts(7));
    assert!(!av.accepts(0));
    assert!(Type::Int.get_arity().is_none());
    assert!(Type::Unspecified.get_arity().is_none());
}

#[test]
fn numeric_promotion_helper() {
    let r = number_upcast_binary_op(&Type::Int, &Type::Float).unwrap();
    assert!(type_eq(&r, &Type::Float));
    let r = number_upcast_binary_op(&Type::Float, &Type::Float).unwrap();
    assert!(type_eq(&r, &Type::Float));
    let r = number_upcast_binary_op(&Type::Int, &Type::Int).unwrap();
    assert!(type_eq(&r, &Type::Int));
    let e = number_upcast_binary_op(&Type::Bool, &Type::Int).unwrap_err();
    match e {
        SomewhereTypeError::TypeMismatch { expected, got } => {
            assert!(type_eq(&expected, &build_union(Type::Int, Type::Float)));
            assert!(type_eq(&got, &Type::Bool));
        },
        _ => panic!("expected a type mismatch"),
    }
}
