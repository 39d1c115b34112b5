use std::cell::Cell;

use oxc_allocator::Allocator;
use oxc_ast::ast;
use oxc_ast_visit::walk;
use oxc_ast_visit::Visit;
use oxc_parser::Parser;
use oxc_semantic::Scoping;
use oxc_semantic::SemanticBuilder;
use oxc_span::SourceType;
use oxc_syntax::reference::ReferenceFlags;
use oxc_syntax::reference::ReferenceId;
use oxc_syntax::scope::ScopeFlags;
use oxc_syntax::scope::ScopeId;
use oxc_syntax::symbol::SymbolFlags;
use oxc_traverse::traverse_mut;
use oxc_traverse::Traverse;
use oxc_traverse::TraverseCtx;
use ts_enum::ast::AssignmentTarget;
use ts_enum::ast::BindingIdentifier;
use ts_enum::ast::ComputedMemberExpression;
use ts_enum::ast::Declaration;
use ts_enum::ast::Expression;
use ts_enum::ast::IdentifierName;
use ts_enum::ast::IdentifierReference;
use ts_enum::ast::NodeKind;
use ts_enum::ast::Part;
use ts_enum::ast::SourceExpression;
use ts_enum::ast::Span;
use ts_enum::ast::Statement;
use ts_enum::ast::StaticMemberExpression;
use ts_enum::ast::TSEnumDeclaration;
use ts_enum::ast::TSEnumMember;
use ts_enum::ast::VariableDeclaration;
use ts_enum::ast::VariableDeclarationKind;
use ts_enum::number::Number;
use ts_enum::scoping;
use ts_enum::scoping::ConstantValue;
use ts_enum::typescript_enum::TypeScriptEnum;

// From the parser's nodes to the library's.

fn span(span: oxc_span::Span) -> Span {
    Span { start: span.start, end: span.end }
}

/// Collects what a visitor meets in an expression.
struct Collector<'a> {
    frames: Vec<Vec<Part<'a>>>,
    scopes: Vec<u32>,
    nodes: u32,
}

impl<'a> Collector<'a> {
    fn collect(expression: &ast::Expression<'a>) -> SourceExpression<'a> {
        let mut collector = Collector { frames: vec![vec![]], scopes: vec![], nodes: 0 };
        collector.visit_expression(expression);
        match collector.frames.pop().unwrap().pop() {
            Some(Part::Expression(expression)) => expression,
            _ => unreachable!(),
        }
    }

    fn push(&mut self, part: Part<'a>) {
        self.frames.last_mut().unwrap().push(part);
    }
}

impl<'a> Visit<'a> for Collector<'a> {
    fn enter_scope(&mut self, _flags: ScopeFlags, scope_id: &Cell<Option<ScopeId>>) {
        self.scopes.push(scope_id.get().unwrap().index() as u32);
        self.frames.push(vec![]);
    }

    fn leave_scope(&mut self) {
        let scope_id = self.scopes.pop().unwrap();
        let parts = self.frames.pop().unwrap();
        self.push(Part::Scope { scope_id, parts });
    }

    fn visit_expression(&mut self, expression: &ast::Expression<'a>) {
        let source = match expression {
            ast::Expression::Identifier(identifier) => {
                SourceExpression::Identifier(identifier_reference(identifier))
            }
            ast::Expression::StaticMemberExpression(member) => {
                SourceExpression::StaticMember(static_member(member))
            }
            _ => {
                let kind = match expression {
                    ast::Expression::StringLiteral(_) => NodeKind::StringLiteral,
                    ast::Expression::TemplateLiteral(_) => NodeKind::TemplateLiteral,
                    ast::Expression::NewExpression(_) => NodeKind::NewExpression,
                    ast::Expression::CallExpression(_) => NodeKind::CallExpression,
                    _ => NodeKind::Other,
                };
                let id = self.nodes;
                self.nodes += 1;
                self.frames.push(vec![]);
                walk::walk_expression(self, expression);
                let parts = self.frames.pop().unwrap();
                SourceExpression::Node { kind, id, parts }
            }
        };
        self.push(Part::Expression(source));
    }
}

fn identifier_reference<'a>(identifier: &ast::IdentifierReference<'a>) -> IdentifierReference<'a> {
    IdentifierReference {
        span: span(identifier.span),
        name: identifier.name.as_str(),
        reference_id: identifier.reference_id.get().map(|id| id.index() as u32),
    }
}

fn static_member<'a>(member: &ast::StaticMemberExpression<'a>) -> StaticMemberExpression<'a> {
    StaticMemberExpression {
        span: span(member.span),
        object: Box::new(Collector::collect(&member.object)),
        property: IdentifierName {
            span: span(member.property.span),
            name: member.property.name.as_str(),
        },
        optional: member.optional,
    }
}

fn enum_declaration<'a>(
    decl: &ast::TSEnumDeclaration<'a>,
    scoping: &Scoping,
) -> TSEnumDeclaration<'a> {
    let symbol_id = decl.id.symbol_id.get().unwrap();
    let members = decl.body.members.iter().map(|member| TSEnumMember {
        span: span(member.span),
        name: member.id.static_name().as_str(),
        initializer: member.initializer.as_ref().map(|it| Collector::collect(it)),
    });
    TSEnumDeclaration {
        span: span(decl.span),
        id: BindingIdentifier {
            span: span(decl.id.span),
            name: decl.id.name.as_str(),
            symbol_id: symbol_id.index() as u32,
        },
        members: members.collect(),
        scope_id: decl.body.scope_id.get().unwrap().index() as u32,
        is_const: scoping.symbol_flags(symbol_id).is_const_enum(),
        declare: decl.declare,
    }
}

fn statement<'a>(statement: &ast::Statement<'a>, scoping: &Scoping) -> Statement<'a> {
    match statement {
        ast::Statement::TSEnumDeclaration(decl) => {
            Statement::TSEnumDeclaration(enum_declaration(decl, scoping))
        }
        ast::Statement::ExportNamedDeclaration(export) => Statement::ExportNamedDeclaration {
            span: span(export.span),
            declaration: export.declaration.as_ref().map(|declaration| match declaration {
                ast::Declaration::TSEnumDeclaration(decl) => {
                    Declaration::TSEnumDeclaration(enum_declaration(decl, scoping))
                }
                _ => Declaration::Other { id: 7 },
            }),
        },
        _ => Statement::Other { id: 7 },
    }
}

// From the library's nodes to text.

fn show_source(expression: &SourceExpression) -> String {
    match expression {
        SourceExpression::Identifier(identifier) => identifier.name.to_string(),
        SourceExpression::StaticMember(member) => {
            format!("{}.{}", show_source(&member.object), member.property.name)
        }
        SourceExpression::Node { kind, parts, .. } => format!("{kind:?}({})", show_parts(parts)),
    }
}

fn show_parts(parts: &[Part]) -> String {
    let parts: Vec<String> = parts
        .iter()
        .map(|part| match part {
            Part::Expression(expression) => show_source(expression),
            Part::Scope { parts, .. } => format!("{{{}}}", show_parts(parts)),
        })
        .collect();
    parts.join(", ")
}

fn show_member(member: &ComputedMemberExpression) -> String {
    format!("{}[{}]", show(&member.object), show(&member.expression))
}

fn show(expression: &Expression) -> String {
    match expression {
        Expression::Source(source) => show_source(source),
        Expression::Identifier(identifier) => identifier.name.to_string(),
        Expression::NumericLiteral { value, .. } => format!("{}", f64::from_bits(value.bits)),
        Expression::StringLiteral { text, .. } => format!("{text:?}"),
        Expression::UnaryNegation { argument, .. } => format!("-{}", show(argument)),
        Expression::Addition { left, right, .. } => format!("{} + {}", show(left), show(right)),
        Expression::LogicalOr { left, right, .. } => format!("{} || {}", show(left), show(right)),
        Expression::Assignment { target, right, .. } => match target {
            AssignmentTarget::Identifier(identifier) => {
                format!("{} = {}", identifier.name, show(right))
            }
            AssignmentTarget::ComputedMember(member) => {
                format!("{} = {}", show_member(member), show(right))
            }
        },
        Expression::ComputedMember(member) => show_member(member),
        Expression::EmptyObject { .. } => "{}".to_string(),
        Expression::Call { callee, argument, pure, .. } => {
            let pure = if *pure { "pure " } else { "" };
            format!("{pure}({})({})", show(callee), show(argument))
        }
        Expression::ArrowFunction(function) => {
            let statements: Vec<String> = function.statements.iter().map(show_statement).collect();
            format!("({}) => {{ {} }}", function.param.name, statements.join("; "))
        }
    }
}

fn show_variable(declaration: &VariableDeclaration) -> String {
    let kind = match declaration.kind {
        VariableDeclarationKind::Var => "var",
        VariableDeclarationKind::Let => "let",
    };
    format!("{kind} {} = {}", declaration.id.name, show(&declaration.init))
}

fn show_statement(statement: &Statement) -> String {
    match statement {
        Statement::TSEnumDeclaration(decl) => format!("enum {}", decl.id.name),
        Statement::ExportNamedDeclaration { declaration, .. } => match declaration {
            Some(Declaration::VariableDeclaration(declaration)) => {
                format!("export {}", show_variable(declaration))
            }
            Some(Declaration::TSEnumDeclaration(decl)) => format!("export enum {}", decl.id.name),
            _ => "export other".to_string(),
        },
        Statement::VariableDeclaration(declaration) => show_variable(declaration),
        Statement::Expression { expression, .. } => show(expression),
        Statement::Return { argument, .. } => format!("return {}", show(argument)),
        Statement::Other { .. } => "other".to_string(),
    }
}

// The identifiers that are built.

fn built<'a>(expression: &Expression<'a>, found: &mut Vec<IdentifierReference<'a>>) {
    match expression {
        Expression::Identifier(identifier) => found.push(*identifier),
        Expression::UnaryNegation { argument, .. } => built(argument, found),
        Expression::Addition { left, right, .. } | Expression::LogicalOr { left, right, .. } => {
            built(left, found);
            built(right, found);
        }
        Expression::Assignment { target, right, .. } => {
            match target {
                AssignmentTarget::Identifier(identifier) => found.push(*identifier),
                AssignmentTarget::ComputedMember(member) => {
                    built(&member.object, found);
                    built(&member.expression, found);
                }
            }
            built(right, found);
        }
        Expression::ComputedMember(member) => {
            built(&member.object, found);
            built(&member.expression, found);
        }
        Expression::Call { callee, argument, .. } => {
            built(callee, found);
            built(argument, found);
        }
        Expression::ArrowFunction(function) => {
            for statement in &function.statements {
                built_in_statement(statement, found);
            }
        }
        _ => {}
    }
}

fn built_in_statement<'a>(statement: &Statement<'a>, found: &mut Vec<IdentifierReference<'a>>) {
    match statement {
        Statement::ExportNamedDeclaration {
            declaration: Some(Declaration::VariableDeclaration(declaration)),
            ..
        }
        | Statement::VariableDeclaration(declaration) => built(&declaration.init, found),
        Statement::Expression { expression, .. } => built(expression, found),
        Statement::Return { argument, .. } => built(argument, found),
        _ => {}
    }
}

/// Each identifier has an entry of its own, the entries are consecutive, and each is
/// resolved to a symbol of the same name where there is one.
fn assert_tracked(identifiers: &[IdentifierReference], scoping: &Scoping, scope_id: ScopeId) {
    let mut ids: Vec<u32> = identifiers.iter().map(|it| it.reference_id.unwrap()).collect();
    ids.sort_unstable();
    for pair in ids.windows(2) {
        assert_eq!(pair[0] + 1, pair[1]);
    }
    for identifier in identifiers {
        let id = ReferenceId::from_usize(identifier.reference_id.unwrap() as usize);
        let reference = scoping.get_reference(id);
        assert_eq!(reference.scope_id(), scope_id);
        match reference.symbol_id() {
            Some(symbol_id) => {
                assert_eq!(scoping.symbol_name(symbol_id), identifier.name);
                assert!(scoping.get_resolved_reference_ids(symbol_id).contains(&id));
            }
            None => {
                let unresolved = scoping.root_unresolved_references();
                assert!(unresolved[identifier.name].contains(&id));
            }
        }
    }
}

/// Transforms what a traversal meets, and shows the results.
struct Session {
    transform: TypeScriptEnum,
    lowered: Vec<String>,
    untouched: Vec<String>,
    inlined: Vec<String>,
    values: Vec<Option<ConstantValue>>,
}

impl<'a> Traverse<'a, ()> for Session {
    fn enter_statement(&mut self, node: &mut ast::Statement<'a>, ctx: &mut TraverseCtx<'a, ()>) {
        let mut lowered = statement(node, ctx.scoping());
        let before = show_statement(&lowered);
        let symbols = ctx.scoping().symbols_len();
        self.transform.enter_statement(&mut lowered, &mut ctx.scoping, ctx.ast);
        let after = show_statement(&lowered);
        if before == after {
            assert_eq!(ctx.scoping().symbols_len(), symbols);
            self.untouched.push(after);
        } else {
            assert_eq!(ctx.scoping().symbols_len(), symbols + 1);
            let mut identifiers = vec![];
            built_in_statement(&lowered, &mut identifiers);
            assert_tracked(&identifiers, ctx.scoping(), ctx.current_scope_id());
            // A second time, there is nothing left to do.
            self.transform.enter_statement(&mut lowered, &mut ctx.scoping, ctx.ast);
            assert_eq!(show_statement(&lowered), after);
            assert_eq!(ctx.scoping().symbols_len(), symbols + 1);
            self.lowered.push(after);
        }
    }

    fn enter_expression(&mut self, node: &mut ast::Expression<'a>, ctx: &mut TraverseCtx<'a, ()>) {
        if let ast::Expression::StaticMemberExpression(member) = node {
            let member = static_member(member);
            let before = show_source(&SourceExpression::StaticMember(static_member_copy(&member)));
            let value = TypeScriptEnum::try_inline_enum_member(&member, &ctx.scoping);
            let mut expression = Expression::Source(SourceExpression::StaticMember(member));
            self.transform.enter_expression(&mut expression, &mut ctx.scoping, ctx.ast);
            assert_eq!(value.is_some(), !matches!(expression, Expression::Source(_)));
            let mut identifiers = vec![];
            built(&expression, &mut identifiers);
            assert_tracked(&identifiers, ctx.scoping(), ctx.current_scope_id());
            self.inlined.push(format!("{before} -> {}", show(&expression)));
            self.values.push(value);
        } else {
            let mut expression = Expression::Source(Collector::collect(node));
            let before = show(&expression);
            self.transform.enter_expression(&mut expression, &mut ctx.scoping, ctx.ast);
            assert_eq!(show(&expression), before);
        }
    }
}

fn static_member_copy<'a>(member: &StaticMemberExpression<'a>) -> StaticMemberExpression<'a> {
    let object = match &*member.object {
        SourceExpression::Identifier(identifier) => SourceExpression::Identifier(*identifier),
        SourceExpression::StaticMember(member) => {
            SourceExpression::StaticMember(static_member_copy(member))
        }
        SourceExpression::Node { kind, id, .. } => {
            SourceExpression::Node { kind: *kind, id: *id, parts: vec![] }
        }
    };
    StaticMemberExpression {
        span: member.span,
        object: Box::new(object),
        property: member.property,
        optional: member.optional,
    }
}

fn run_with(source: &str, optimize_const_enums: bool) -> Session {
    let allocator = Allocator::default();
    let parsed = Parser::new(&allocator, source, SourceType::ts()).parse();
    assert!(parsed.errors.is_empty(), "{:?}", parsed.errors);
    let mut program = parsed.program;
    let scoping =
        SemanticBuilder::new().with_enum_eval(true).build(&program).semantic.into_scoping();
    let mut session = Session {
        transform: TypeScriptEnum::new(optimize_const_enums),
        lowered: vec![],
        untouched: vec![],
        inlined: vec![],
        values: vec![],
    };
    traverse_mut(&mut session, &allocator, &mut program, scoping, ());
    session
}

fn run(source: &str) -> Session {
    run_with(source, false)
}

/// The one enum of a program, lowered.
fn lower(source: &str) -> String {
    let session = run(source);
    assert_eq!(session.lowered.len(), 1);
    session.lowered[0].clone()
}

/// The statements of the function that the enum becomes.
fn lower_body(source: &str) -> String {
    let lowered = lower(source);
    let start = lowered.find("{ ").unwrap() + 2;
    let end = lowered.rfind(" })(").unwrap();
    lowered[start..end].to_string()
}

#[test]
fn enum_becomes_a_call_of_an_arrow_function() {
    assert_eq!(
        lower("enum Foo { X = 1, Y }"),
        "var Foo = pure ((Foo) => { \
         Foo[Foo[\"X\"] = 1] = \"X\"; \
         Foo[Foo[\"Y\"] = 2] = \"Y\"; \
         return Foo })(Foo || {})"
    );
}

#[test]
fn empty_enum_only_returns() {
    assert_eq!(lower("enum Foo {}"), "var Foo = pure ((Foo) => { return Foo })(Foo || {})");
}

#[test]
fn members_count_from_zero() {
    assert_eq!(
        lower_body("enum Foo { A, B, C }"),
        "Foo[Foo[\"A\"] = 0] = \"A\"; Foo[Foo[\"B\"] = 1] = \"B\"; \
         Foo[Foo[\"C\"] = 2] = \"C\"; return Foo"
    );
}

#[test]
fn members_count_on_from_a_constant() {
    assert_eq!(
        lower_body("enum Foo { A = 1 << 3, B, C = -2, D, E, F, G = 0.5, H }"),
        "Foo[Foo[\"A\"] = 8] = \"A\"; Foo[Foo[\"B\"] = 9] = \"B\"; \
         Foo[Foo[\"C\"] = -2] = \"C\"; Foo[Foo[\"D\"] = -1] = \"D\"; \
         Foo[Foo[\"E\"] = 0] = \"E\"; Foo[Foo[\"F\"] = 1] = \"F\"; \
         Foo[Foo[\"G\"] = 0.5] = \"G\"; Foo[Foo[\"H\"] = 1.5] = \"H\"; return Foo"
    );
}

#[test]
fn constants_refer_to_other_members() {
    assert_eq!(
        lower_body("enum Foo { A = 1, B = 2, C = A | B, 'd e' = Foo.B + 1 }"),
        "Foo[Foo[\"A\"] = 1] = \"A\"; Foo[Foo[\"B\"] = 2] = \"B\"; \
         Foo[Foo[\"C\"] = 3] = \"C\"; Foo[Foo[\"d e\"] = 3] = \"d e\"; return Foo"
    );
}

#[test]
fn strings_are_not_mapped_back() {
    assert_eq!(
        lower_body("enum Foo { A = 'x', B = `y`, C = 'x' + 'z' }"),
        "Foo[\"A\"] = \"x\"; Foo[\"B\"] = \"y\"; Foo[\"C\"] = \"xz\"; return Foo"
    );
}

#[test]
fn template_that_is_not_constant_is_not_mapped_back() {
    assert_eq!(
        lower_body("enum Foo { A = `${f()}` }"),
        "Foo[\"A\"] = TemplateLiteral(CallExpression(f)); return Foo"
    );
}

#[test]
fn member_after_an_unknown_value_is_computed() {
    assert_eq!(
        lower_body("enum Foo { A = f, B, C, D = 'x', E }"),
        "Foo[Foo[\"A\"] = f] = \"A\"; \
         Foo[Foo[\"B\"] = 1 + Foo[\"A\"]] = \"B\"; \
         Foo[Foo[\"C\"] = 1 + Foo[\"B\"]] = \"C\"; \
         Foo[\"D\"] = \"x\"; \
         Foo[Foo[\"E\"] = 1 + Foo[\"D\"]] = \"E\"; return Foo"
    );
}

#[test]
fn infinity_is_an_identifier() {
    assert_eq!(
        lower_body("enum Foo { A = Infinity, B, C = -Infinity, D, E = 1 / 0 }"),
        "Foo[Foo[\"A\"] = Infinity] = \"A\"; Foo[Foo[\"B\"] = Infinity] = \"B\"; \
         Foo[Foo[\"C\"] = -Infinity] = \"C\"; Foo[Foo[\"D\"] = -Infinity] = \"D\"; \
         Foo[Foo[\"E\"] = Infinity] = \"E\"; return Foo"
    );
}

#[test]
fn infinity_is_resolved_where_it_is_declared() {
    // The entry of the identifier is checked against the tables by the session.
    assert_eq!(
        lower_body("let Infinity = 1; { enum Foo { A = 1 / 0 } }"),
        "Foo[Foo[\"A\"] = Infinity] = \"A\"; return Foo"
    );
}

#[test]
fn nan_is_a_literal() {
    assert_eq!(
        lower_body("enum Foo { A = NaN, B }"),
        "Foo[Foo[\"A\"] = NaN] = \"A\"; Foo[Foo[\"B\"] = NaN] = \"B\"; return Foo"
    );
}

#[test]
fn members_are_qualified_in_initializers() {
    assert_eq!(
        lower_body("enum A { a = 1, b = a.toString(), d = c, c = f() }"),
        "A[A[\"a\"] = 1] = \"a\"; \
         A[A[\"b\"] = CallExpression(A.a.toString)] = \"b\"; \
         A[A[\"d\"] = A.c] = \"d\"; \
         A[A[\"c\"] = CallExpression(f)] = \"c\"; return A"
    );
}

#[test]
fn qualified_members_have_no_reference() {
    let allocator = Allocator::default();
    let source = "enum A { a = 1, b = a.length }";
    let parsed = Parser::new(&allocator, source, SourceType::ts()).parse();
    let mut program = parsed.program;
    let scoping = SemanticBuilder::new().build(&program).semantic.into_scoping();
    let mut session = Qualify { shown: String::new() };
    traverse_mut(&mut session, &allocator, &mut program, scoping, ());
    assert!(session.shown.contains("name: \"A\", reference_id: None"), "{}", session.shown);
}

/// Shows all of the statement that an enum becomes.
struct Qualify {
    shown: String,
}

impl<'a> Traverse<'a, ()> for Qualify {
    fn enter_statement(&mut self, node: &mut ast::Statement<'a>, ctx: &mut TraverseCtx<'a, ()>) {
        let mut lowered = statement(node, ctx.scoping());
        let mut transform = TypeScriptEnum::new(false);
        transform.enter_statement(&mut lowered, &mut ctx.scoping, ctx.ast);
        self.shown = format!("{lowered:?}");
    }
}

/// Binds the name `A` to a member in the scope of an enum, and lowers the enum.
struct Merged {
    lowered: Vec<String>,
}

impl<'a> Traverse<'a, ()> for Merged {
    fn enter_statement(&mut self, node: &mut ast::Statement<'a>, ctx: &mut TraverseCtx<'a, ()>) {
        let mut lowered = statement(node, ctx.scoping());
        if let Statement::TSEnumDeclaration(decl) = &lowered {
            let scope_id = ScopeId::from_usize(decl.scope_id as usize);
            ctx.scoping.generate_binding("A".into(), scope_id, SymbolFlags::EnumMember);
            let mut transform = TypeScriptEnum::new(false);
            transform.enter_statement(&mut lowered, &mut ctx.scoping, ctx.ast);
            self.lowered.push(show_statement(&lowered));
        }
    }
}

fn lower_merged(source: &str) -> Vec<String> {
    let allocator = Allocator::default();
    let parsed = Parser::new(&allocator, source, SourceType::ts()).parse();
    let mut program = parsed.program;
    let scoping = SemanticBuilder::new().build(&program).semantic.into_scoping();
    let mut session = Merged { lowered: vec![] };
    traverse_mut(&mut session, &allocator, &mut program, scoping, ());
    session.lowered
}

#[test]
fn members_of_an_earlier_declaration_are_qualified() {
    let lowered = lower_merged("enum Foo { A }; enum Foo { B = A }");
    assert_eq!(
        lowered[1],
        "Foo = pure ((Foo) => { Foo[Foo[\"B\"] = Foo.A] = \"B\"; return Foo })(Foo || {})"
    );
}

#[test]
fn members_of_an_earlier_declaration_shadow_outer_variables() {
    let lowered = lower_merged("const A = 0; enum Foo { A } enum Foo { B = A }");
    assert_eq!(
        lowered[1],
        "Foo = pure ((Foo) => { Foo[Foo[\"B\"] = Foo.A] = \"B\"; return Foo })(Foo || {})"
    );
}

#[test]
fn members_of_nested_enums_stay() {
    let session = run(
        "enum OuterEnum { A = f(), B = (() => { \
         enum InnerEnum { A = g(), B = A } return InnerEnum.B; })() }",
    );
    assert_eq!(
        session.lowered[0],
        "var OuterEnum = ((OuterEnum) => { \
         OuterEnum[OuterEnum[\"A\"] = CallExpression(f)] = \"A\"; \
         OuterEnum[OuterEnum[\"B\"] = CallExpression(Other(Other({{CallExpression(g), A}, \
         InnerEnum.B})))] = \"B\"; \
         return OuterEnum })(OuterEnum || {})"
    );
    assert_eq!(
        session.lowered[1],
        "let InnerEnum = ((InnerEnum) => { \
         InnerEnum[InnerEnum[\"A\"] = CallExpression(g)] = \"A\"; \
         InnerEnum[InnerEnum[\"B\"] = InnerEnum.A] = \"B\"; \
         return InnerEnum })({})"
    );
}

#[test]
fn parameters_of_inner_functions_stay() {
    assert_eq!(
        lower_body("enum Foo { A = f(), B = (A => A)(A) }"),
        "Foo[Foo[\"A\"] = CallExpression(f)] = \"A\"; \
         Foo[Foo[\"B\"] = CallExpression(Other(Other({A})), Foo.A)] = \"B\"; return Foo"
    );
}

#[test]
fn members_shadow_outer_variables() {
    assert_eq!(
        lower_body("const A = 0; enum Foo { A = f(), B = [A] }"),
        "Foo[Foo[\"A\"] = CallExpression(f)] = \"A\"; \
         Foo[Foo[\"B\"] = Other(Foo.A)] = \"B\"; return Foo"
    );
}

#[test]
fn other_names_stay() {
    assert_eq!(
        lower_body("const x = 0; enum Foo { A = x + y }"),
        "Foo[Foo[\"A\"] = Other(x, y)] = \"A\"; return Foo"
    );
}

#[test]
fn name_of_the_enum_is_not_qualified() {
    // Inside the body the name is that of the parameter, not that of the member.
    assert_eq!(
        lower_body("enum Foo { Foo = f(), B = [Foo] }"),
        "Foo[Foo[\"Foo\"] = CallExpression(f)] = \"Foo\"; \
         Foo[Foo[\"B\"] = Other(Foo)] = \"B\"; return Foo"
    );
}

#[test]
fn merged_enum_is_assigned() {
    let session = run("enum Foo { A } enum Foo { B = A }");
    assert_eq!(
        session.lowered,
        [
            "var Foo = pure ((Foo) => { Foo[Foo[\"A\"] = 0] = \"A\"; \
             return Foo })(Foo || {})",
            "Foo = pure ((Foo) => { Foo[Foo[\"B\"] = 0] = \"B\"; return Foo })(Foo || {})",
        ]
    );
}

#[test]
fn merged_exported_enum_is_assigned() {
    let session = run("export enum Foo { A = 1 } export enum Foo { B = 2 }");
    assert_eq!(
        session.lowered,
        [
            "export let Foo = pure ((Foo) => { Foo[Foo[\"A\"] = 1] = \"A\"; \
             return Foo })({})",
            "Foo = pure ((Foo) => { Foo[Foo[\"B\"] = 2] = \"B\"; return Foo })(Foo || {})",
        ]
    );
}

#[test]
fn exported_enum_is_an_exported_variable() {
    assert_eq!(
        lower("export enum Foo { A }"),
        "export let Foo = pure ((Foo) => { Foo[Foo[\"A\"] = 0] = \"A\"; return Foo })({})"
    );
}

#[test]
fn enum_in_a_block_is_local() {
    assert_eq!(
        lower("{ enum Foo { A } }"),
        "let Foo = pure ((Foo) => { Foo[Foo[\"A\"] = 0] = \"A\"; return Foo })({})"
    );
    assert_eq!(
        lower("function f() { enum Foo { A } }"),
        "let Foo = pure ((Foo) => { Foo[Foo[\"A\"] = 0] = \"A\"; return Foo })({})"
    );
}

#[test]
fn calls_in_initializers_are_side_effects() {
    assert!(!lower("enum Foo { A = f() }").contains("pure"));
    assert!(!lower("enum Foo { A, B = new F() }").contains("pure"));
    assert!(lower("enum Foo { A = f }").contains("pure"));
    // Only an initializer that is itself a call counts.
    assert!(lower("enum Foo { A = [f()] }").contains("pure"));
}

#[test]
fn ambient_enum_is_left() {
    let session = run("declare enum Foo { A }");
    assert!(session.lowered.is_empty());
    assert_eq!(session.untouched, ["enum Foo"]);
    let session = run("export declare enum Foo { A }");
    assert!(session.lowered.is_empty());
    assert_eq!(session.untouched, ["export enum Foo"]);
}

#[test]
fn const_enum_is_left_only_where_it_is_optimized() {
    let session = run_with("const enum Foo { A }", true);
    assert!(session.lowered.is_empty());
    assert_eq!(session.untouched, ["enum Foo"]);
    let session = run_with("const enum Foo { A }", false);
    assert_eq!(session.lowered.len(), 1);
    let session = run_with("enum Foo { A }", true);
    assert_eq!(session.lowered.len(), 1);
}

#[test]
fn other_statements_are_left() {
    let session = run("let x = 1; export const y = 2; x; export { x };");
    assert!(session.lowered.is_empty());
    assert_eq!(session.untouched, ["other", "export other", "other", "export other"]);
}

#[test]
fn accesses_to_members_are_inlined() {
    let session = run("enum Foo { A = -3, B = 'x', C = 1 / 0 } Foo.A; Foo.B; Foo.C;");
    assert_eq!(
        session.inlined,
        ["Foo.A -> -3", "Foo.B -> \"x\"", "Foo.C -> Infinity"]
    );
    assert!(matches!(&session.values[0], Some(ConstantValue::Number(value))
        if value.bits == (-3.0f64).to_bits()));
    assert!(matches!(&session.values[1], Some(ConstantValue::String(text)) if text == "x"));
}

#[test]
fn accesses_to_const_enums_are_inlined() {
    let session = run_with("const enum Direction { Up, Down = 5 } Direction.Up; Direction.Down", true);
    assert_eq!(session.inlined, ["Direction.Up -> 0", "Direction.Down -> 5"]);
}

#[test]
fn accesses_to_merged_enums_are_inlined() {
    let session = run("enum Foo { A = 1 } enum Foo { B = 2 } Foo.A; Foo.B");
    assert_eq!(session.inlined, ["Foo.A -> 1", "Foo.B -> 2"]);
    // Each access has the value that its declaration assigns.
    assert!(session.lowered[0].contains("Foo[\"A\"] = 1"));
    assert!(session.lowered[1].contains("Foo[\"B\"] = 2"));
}

#[test]
fn first_known_value_is_inlined() {
    let session = run("enum Foo { A = f() } enum Foo { A = 3 } enum Foo { A = 4 } Foo.A");
    assert_eq!(session.inlined, ["Foo.A -> 3"]);
    assert!(session.lowered[1].contains("Foo[\"A\"] = 3"));
}

#[test]
fn modifiers_decide_what_is_lowered() {
    let keeps = TypeScriptEnum::new(false);
    let optimizes = TypeScriptEnum::new(true);
    assert!(keeps.should_lower(false, false));
    assert!(keeps.should_lower(true, false));
    assert!(!keeps.should_lower(false, true));
    assert!(!keeps.should_lower(true, true));
    assert!(optimizes.should_lower(false, false));
    assert!(!optimizes.should_lower(true, false));
    assert!(!optimizes.should_lower(false, true));
}

#[test]
fn other_accesses_are_left() {
    let session = run(
        "enum Foo { A = f(), B = 1 } const o = { B: 1 }; \
         Foo.A; Foo.C; o.B; unknown.B; o.Foo.B; f().B",
    );
    assert_eq!(
        session.inlined,
        [
            "Foo.A -> Foo.A",
            "Foo.C -> Foo.C",
            "o.B -> o.B",
            "unknown.B -> unknown.B",
            "o.Foo.B -> o.Foo.B",
            "o.Foo -> o.Foo",
            "CallExpression().B -> CallExpression(f).B",
        ]
    );
    assert!(session.values.iter().all(|value| value.is_none()));
}

#[test]
fn shadowed_enum_is_not_inlined() {
    let session = run("enum Foo { A = 1 } function g(Foo) { return Foo.A; }");
    assert_eq!(session.inlined, ["Foo.A -> Foo.A"]);
}

#[test]
fn member_with_the_name_of_the_enum() {
    // Once the enum is lowered, its name in the scope of the body is the parameter.
    let session = run("enum A { A = 1, B = 2 } A.A; A.B");
    assert_eq!(session.inlined, ["A.A -> A.A", "A.B -> 2"]);
    let session = run_with("const enum A { A = 1, B = 2 } A.A; A.B", true);
    assert_eq!(session.inlined, ["A.A -> 1", "A.B -> 2"]);
}

#[test]
fn number_literals_carry_their_value() {
    let literal = TypeScriptEnum::get_number_literal_expression(Number::one());
    assert_eq!(show(&literal), "1");
}

#[test]
fn flags_are_those_of_the_tables() {
    assert_eq!(scoping::FUNCTION_SCOPED_VARIABLE, SymbolFlags::FunctionScopedVariable.bits());
    assert_eq!(scoping::REGULAR_ENUM, SymbolFlags::RegularEnum.bits());
    assert_eq!(scoping::CONST_ENUM, SymbolFlags::ConstEnum.bits());
    assert_eq!(scoping::ENUM_MEMBER, SymbolFlags::EnumMember.bits());
    assert_eq!(scoping::TOP, ScopeFlags::Top.bits());
    assert_eq!(scoping::READ, ReferenceFlags::Read.bits());
    assert_eq!(scoping::WRITE, ReferenceFlags::Write.bits());
}
