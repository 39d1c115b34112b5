//! The syntax that the transform reads and builds.
//!
//! What comes from the program text is described as far as the transform looks at
//! it: identifiers, static member accesses, and for every other node the parts that
//! a visitor meets in it. What the transform builds is described in full. Modifiers
//! and clauses that no node of this transform ever has (type parameters, decorators,
//! `async`, optional chaining on computed accesses) have no field.

use crate::number::Number;
use vstd::prelude::*;

verus! {

/// A range of the program text.
#[derive(Clone, Copy, PartialEq, Eq, Structural, Debug)]
pub struct Span {
    pub start: u32,
    pub end: u32,
}

impl Span {
    /// The span of a node that stands for no program text.
    pub open spec fn spec_empty() -> Span {
        Span { start: 0, end: 0 }
    }

    /// The span of a node that stands for no program text.
    #[verifier::when_used_as_spec(spec_empty)]
    pub fn empty() -> (span: Span)
        ensures
            span == Span::spec_empty(),
    {
        Span { start: 0, end: 0 }
    }
}

/// A use of a variable.
#[derive(Clone, Copy, Debug)]
pub struct IdentifierReference<'a> {
    pub span: Span,
    pub name: &'a str,
    /// The entry of the reference table, where the identifier has one.
    pub reference_id: Option<u32>,
}

/// The name of a property, or another identifier that refers to no variable.
#[derive(Clone, Copy, Debug)]
pub struct IdentifierName<'a> {
    pub span: Span,
    pub name: &'a str,
}

/// The place where a variable is declared.
#[derive(Clone, Copy, Debug)]
pub struct BindingIdentifier<'a> {
    pub span: Span,
    pub name: &'a str,
    pub symbol_id: u32,
}

/// What sort of expression a node of the program text is.
#[derive(Clone, Copy, PartialEq, Eq, Structural, Debug)]
pub enum NodeKind {
    StringLiteral,
    TemplateLiteral,
    NewExpression,
    CallExpression,
    Other,
}

/// An expression of the program text.
#[derive(Debug)]
pub enum SourceExpression<'a> {
    Identifier(IdentifierReference<'a>),
    StaticMember(StaticMemberExpression<'a>),
    /// Any other expression: a handle to the node, and what it holds.
    Node { kind: NodeKind, id: u32, parts: Vec<Part<'a>> },
}

/// `object.property`, or `object?.property` where it is optional.
#[derive(Debug)]
pub struct StaticMemberExpression<'a> {
    pub span: Span,
    pub object: Box<SourceExpression<'a>>,
    pub property: IdentifierName<'a>,
    pub optional: bool,
}

/// Something that a visitor meets in a node, in the order of the visit.
#[derive(Debug)]
pub enum Part<'a> {
    Expression(SourceExpression<'a>),
    /// A scope, with what is met inside it.
    Scope { scope_id: u32, parts: Vec<Part<'a>> },
}

/// The contents of an [`IdentifierReference`].
pub struct IdentifierView {
    pub span: Span,
    pub name: Seq<char>,
    pub reference_id: Option<u32>,
}

pub struct NameView {
    pub span: Span,
    pub name: Seq<char>,
}

pub struct BindingView {
    pub span: Span,
    pub name: Seq<char>,
    pub symbol_id: u32,
}

pub enum SourceView {
    Identifier(IdentifierView),
    StaticMember(StaticMemberView),
    Node { kind: NodeKind, id: u32, parts: Seq<PartView> },
}

pub struct StaticMemberView {
    pub span: Span,
    pub object: Box<SourceView>,
    pub property: NameView,
    pub optional: bool,
}

pub enum PartView {
    Expression(SourceView),
    Scope { scope_id: u32, parts: Seq<PartView> },
}

impl<'a> IdentifierReference<'a> {
    pub open spec fn view(self) -> IdentifierView {
        IdentifierView { span: self.span, name: self.name@, reference_id: self.reference_id }
    }
}

impl<'a> IdentifierName<'a> {
    pub open spec fn view(self) -> NameView {
        NameView { span: self.span, name: self.name@ }
    }
}

impl<'a> BindingIdentifier<'a> {
    pub open spec fn view(self) -> BindingView {
        BindingView { span: self.span, name: self.name@, symbol_id: self.symbol_id }
    }
}

impl<'a> SourceExpression<'a> {
    pub open spec fn view(self) -> SourceView
        decreases self,
    {
        match self {
            SourceExpression::Identifier(identifier) => SourceView::Identifier(identifier@),
            SourceExpression::StaticMember(member) => SourceView::StaticMember(member.view()),
            SourceExpression::Node { kind, id, parts } => SourceView::Node {
                kind,
                id,
                parts: parts_view(parts@),
            },
        }
    }
}

impl<'a> StaticMemberExpression<'a> {
    pub open spec fn view(self) -> StaticMemberView
        decreases self,
    {
        StaticMemberView {
            span: self.span,
            object: Box::new((*self.object).view()),
            property: self.property@,
            optional: self.optional,
        }
    }
}

impl<'a> Part<'a> {
    pub open spec fn view(self) -> PartView
        decreases self,
    {
        match self {
            Part::Expression(expression) => PartView::Expression(expression.view()),
            Part::Scope { scope_id, parts } => PartView::Scope {
                scope_id,
                parts: parts_view(parts@),
            },
        }
    }
}

pub open spec fn parts_view(parts: Seq<Part>) -> Seq<PartView>
    decreases parts,
{
    Seq::new(
        parts.len(),
        |i: int|
            if 0 <= i < parts.len() {
                parts[i].view()
            } else {
                arbitrary()
            },
    )
}

/// An expression: one of the program text, or one that the transform builds.
#[derive(Debug)]
pub enum Expression<'a> {
    Source(SourceExpression<'a>),
    Identifier(IdentifierReference<'a>),
    /// A decimal literal that is written nowhere in the program text.
    NumericLiteral { span: Span, value: Number },
    /// A string literal that is written nowhere in the program text.
    StringLiteral { span: Span, text: &'a str },
    /// `-argument`
    UnaryNegation { span: Span, argument: Box<Expression<'a>> },
    /// `left + right`
    Addition { span: Span, left: Box<Expression<'a>>, right: Box<Expression<'a>> },
    /// `left || right`
    LogicalOr { span: Span, left: Box<Expression<'a>>, right: Box<Expression<'a>> },
    /// `target = right`
    Assignment { span: Span, target: AssignmentTarget<'a>, right: Box<Expression<'a>> },
    ComputedMember(ComputedMemberExpression<'a>),
    /// `{}`
    EmptyObject { span: Span },
    /// `callee(argument)`, marked as free of side effects where it is pure.
    Call { span: Span, callee: Box<Expression<'a>>, argument: Box<Expression<'a>>, pure: bool },
    ArrowFunction(ArrowFunctionExpression<'a>),
}

/// `object[expression]`
#[derive(Debug)]
pub struct ComputedMemberExpression<'a> {
    pub span: Span,
    pub object: Box<Expression<'a>>,
    pub expression: Box<Expression<'a>>,
}

/// What is assigned to.
#[derive(Debug)]
pub enum AssignmentTarget<'a> {
    Identifier(IdentifierReference<'a>),
    ComputedMember(ComputedMemberExpression<'a>),
}

/// `(param) => { statements }`
#[derive(Debug)]
pub struct ArrowFunctionExpression<'a> {
    pub span: Span,
    pub param: BindingIdentifier<'a>,
    pub body_span: Span,
    pub statements: Vec<Statement<'a>>,
    pub scope_id: u32,
}

/// A statement: one of the program text, or one that the transform builds.
#[derive(Debug)]
pub enum Statement<'a> {
    TSEnumDeclaration(TSEnumDeclaration<'a>),
    /// `export declaration`, or another export where there is none.
    ExportNamedDeclaration { span: Span, declaration: Option<Declaration<'a>> },
    VariableDeclaration(VariableDeclaration<'a>),
    Expression { span: Span, expression: Expression<'a> },
    /// `return argument`
    Return { span: Span, argument: Expression<'a> },
    /// Any other statement of the program text: a handle to it.
    Other { id: u32 },
}

/// A declaration: one of the program text, or one that the transform builds.
#[derive(Debug)]
pub enum Declaration<'a> {
    TSEnumDeclaration(TSEnumDeclaration<'a>),
    VariableDeclaration(VariableDeclaration<'a>),
    /// Any other declaration of the program text: a handle to it.
    Other { id: u32 },
}

#[derive(Clone, Copy, PartialEq, Eq, Structural, Debug)]
pub enum VariableDeclarationKind {
    Var,
    Let,
}

/// `kind id = init`, where the declarator `id = init` has a span of its own.
#[derive(Debug)]
pub struct VariableDeclaration<'a> {
    pub span: Span,
    pub kind: VariableDeclarationKind,
    pub declarator_span: Span,
    pub id: BindingIdentifier<'a>,
    pub init: Expression<'a>,
}

/// `enum id { members }`, with `const` or `declare` before it.
#[derive(Debug)]
pub struct TSEnumDeclaration<'a> {
    pub span: Span,
    pub id: BindingIdentifier<'a>,
    pub members: Vec<TSEnumMember<'a>>,
    /// The scope of the body.
    pub scope_id: u32,
    pub is_const: bool,
    pub declare: bool,
}

/// `name = initializer`
#[derive(Debug)]
pub struct TSEnumMember<'a> {
    pub span: Span,
    pub name: &'a str,
    pub initializer: Option<SourceExpression<'a>>,
}

pub enum ExpressionView {
    Source(SourceView),
    Identifier(IdentifierView),
    NumericLiteral { span: Span, value: Number },
    StringLiteral { span: Span, text: Seq<char> },
    UnaryNegation { span: Span, argument: Box<ExpressionView> },
    Addition { span: Span, left: Box<ExpressionView>, right: Box<ExpressionView> },
    LogicalOr { span: Span, left: Box<ExpressionView>, right: Box<ExpressionView> },
    Assignment { span: Span, target: TargetView, right: Box<ExpressionView> },
    ComputedMember(ComputedMemberView),
    EmptyObject { span: Span },
    Call { span: Span, callee: Box<ExpressionView>, argument: Box<ExpressionView>, pure: bool },
    ArrowFunction(ArrowFunctionView),
}

pub struct ComputedMemberView {
    pub span: Span,
    pub object: Box<ExpressionView>,
    pub expression: Box<ExpressionView>,
}

pub enum TargetView {
    Identifier(IdentifierView),
    ComputedMember(ComputedMemberView),
}

pub struct ArrowFunctionView {
    pub span: Span,
    pub param: BindingView,
    pub body_span: Span,
    pub statements: Seq<StatementView>,
    pub scope_id: u32,
}

pub enum StatementView {
    TSEnumDeclaration(EnumView),
    ExportNamedDeclaration { span: Span, declaration: Option<DeclarationView> },
    VariableDeclaration(VariableView),
    Expression { span: Span, expression: ExpressionView },
    Return { span: Span, argument: ExpressionView },
    Other { id: u32 },
}

pub enum DeclarationView {
    TSEnumDeclaration(EnumView),
    VariableDeclaration(VariableView),
    Other { id: u32 },
}

pub struct VariableView {
    pub span: Span,
    pub kind: VariableDeclarationKind,
    pub declarator_span: Span,
    pub id: BindingView,
    pub init: ExpressionView,
}

pub struct EnumView {
    pub span: Span,
    pub id: BindingView,
    pub members: Seq<MemberView>,
    pub scope_id: u32,
    pub is_const: bool,
    pub declare: bool,
}

pub struct MemberView {
    pub span: Span,
    pub name: Seq<char>,
    pub initializer: Option<SourceView>,
}

impl<'a> Expression<'a> {
    pub open spec fn view(self) -> ExpressionView
        decreases self,
    {
        match self {
            Expression::Source(source) => ExpressionView::Source(source@),
            Expression::Identifier(identifier) => ExpressionView::Identifier(identifier@),
            Expression::NumericLiteral { span, value } => ExpressionView::NumericLiteral {
                span,
                value,
            },
            Expression::StringLiteral { span, text } => ExpressionView::StringLiteral {
                span,
                text: text@,
            },
            Expression::UnaryNegation { span, argument } => ExpressionView::UnaryNegation {
                span,
                argument: Box::new((*argument).view()),
            },
            Expression::Addition { span, left, right } => ExpressionView::Addition {
                span,
                left: Box::new((*left).view()),
                right: Box::new((*right).view()),
            },
            Expression::LogicalOr { span, left, right } => ExpressionView::LogicalOr {
                span,
                left: Box::new((*left).view()),
                right: Box::new((*right).view()),
            },
            Expression::Assignment { span, target, right } => ExpressionView::Assignment {
                span,
                target: target.view(),
                right: Box::new((*right).view()),
            },
            Expression::ComputedMember(member) => ExpressionView::ComputedMember(member.view()),
            Expression::EmptyObject { span } => ExpressionView::EmptyObject { span },
            Expression::Call { span, callee, argument, pure } => ExpressionView::Call {
                span,
                callee: Box::new((*callee).view()),
                argument: Box::new((*argument).view()),
                pure,
            },
            Expression::ArrowFunction(function) => ExpressionView::ArrowFunction(function.view()),
        }
    }
}

impl<'a> ComputedMemberExpression<'a> {
    pub open spec fn view(self) -> ComputedMemberView
        decreases self,
    {
        ComputedMemberView {
            span: self.span,
            object: Box::new((*self.object).view()),
            expression: Box::new((*self.expression).view()),
        }
    }
}

impl<'a> AssignmentTarget<'a> {
    pub open spec fn view(self) -> TargetView
        decreases self,
    {
        match self {
            AssignmentTarget::Identifier(identifier) => TargetView::Identifier(identifier@),
            AssignmentTarget::ComputedMember(member) => TargetView::ComputedMember(member.view()),
        }
    }
}

impl<'a> ArrowFunctionExpression<'a> {
    pub open spec fn view(self) -> ArrowFunctionView
        decreases self,
    {
        ArrowFunctionView {
            span: self.span,
            param: self.param@,
            body_span: self.body_span,
            statements: statements_view(self.statements@),
            scope_id: self.scope_id,
        }
    }
}

pub open spec fn statements_view(statements: Seq<Statement>) -> Seq<StatementView>
    decreases statements,
{
    Seq::new(
        statements.len(),
        |i: int|
            if 0 <= i < statements.len() {
                statements[i].view()
            } else {
                arbitrary()
            },
    )
}

impl<'a> Statement<'a> {
    pub open spec fn view(self) -> StatementView
        decreases self,
    {
        match self {
            Statement::TSEnumDeclaration(decl) => StatementView::TSEnumDeclaration(decl@),
            Statement::ExportNamedDeclaration { span, declaration } => {
                StatementView::ExportNamedDeclaration {
                    span,
                    declaration: match declaration {
                        Some(declaration) => Some(declaration.view()),
                        None => None,
                    },
                }
            },
            Statement::VariableDeclaration(decl) => StatementView::VariableDeclaration(
                decl.view(),
            ),
            Statement::Expression { span, expression } => StatementView::Expression {
                span,
                expression: expression.view(),
            },
            Statement::Return { span, argument } => StatementView::Return {
                span,
                argument: argument.view(),
            },
            Statement::Other { id } => StatementView::Other { id },
        }
    }
}

impl<'a> Declaration<'a> {
    pub open spec fn view(self) -> DeclarationView
        decreases self,
    {
        match self {
            Declaration::TSEnumDeclaration(decl) => DeclarationView::TSEnumDeclaration(decl@),
            Declaration::VariableDeclaration(decl) => DeclarationView::VariableDeclaration(
                decl.view(),
            ),
            Declaration::Other { id } => DeclarationView::Other { id },
        }
    }
}

impl<'a> VariableDeclaration<'a> {
    pub open spec fn view(self) -> VariableView
        decreases self,
    {
        VariableView {
            span: self.span,
            kind: self.kind,
            declarator_span: self.declarator_span,
            id: self.id@,
            init: self.init.view(),
        }
    }
}

impl<'a> TSEnumDeclaration<'a> {
    pub open spec fn view(self) -> EnumView {
        EnumView {
            span: self.span,
            id: self.id@,
            members: members_view(self.members@),
            scope_id: self.scope_id,
            is_const: self.is_const,
            declare: self.declare,
        }
    }
}

pub open spec fn members_view(members: Seq<TSEnumMember>) -> Seq<MemberView> {
    Seq::new(members.len(), |i: int| members[i].view())
}

impl<'a> TSEnumMember<'a> {
    pub open spec fn view(self) -> MemberView {
        MemberView {
            span: self.span,
            name: self.name@,
            initializer: match self.initializer {
                Some(initializer) => Some(initializer@),
                None => None,
            },
        }
    }
}

impl StatementView {
    /// The enum that a statement declares, and the span of the export where it is
    /// exported.
    pub open spec fn enum_declaration(self) -> Option<(EnumView, Option<Span>)> {
        match self {
            StatementView::TSEnumDeclaration(decl) => Some((decl, None)),
            StatementView::ExportNamedDeclaration {
                span,
                declaration: Some(DeclarationView::TSEnumDeclaration(decl)),
            } => Some((decl, Some(span))),
            _ => None,
        }
    }
}

impl ExpressionView {
    /// Whether the expression is a string literal or a template.
    pub open spec fn is_string(self) -> bool {
        match self {
            ExpressionView::StringLiteral { .. } => true,
            ExpressionView::Source(SourceView::Node { kind, .. }) => kind
                == NodeKind::StringLiteral || kind == NodeKind::TemplateLiteral,
            _ => false,
        }
    }
}

impl<'a> Expression<'a> {
    /// Whether the expression is a string literal or a template.
    pub fn is_string_literal(&self) -> (is: bool)
        ensures
            is == self@.is_string(),
    {
        match self {
            Expression::StringLiteral { .. } => true,
            Expression::Source(SourceExpression::Node { kind, .. }) => match kind {
                NodeKind::StringLiteral => true,
                NodeKind::TemplateLiteral => true,
                _ => false,
            },
            _ => false,
        }
    }
}

/// The span of a node that stands for no program text is the empty one at the start.
pub proof fn built_nodes_stand_for_no_text()
    ensures
        Span::empty() == (Span { start: 0, end: 0 }),
{
}

/// The enums of a program stand in its statements by themselves or exported.
pub proof fn enums_are_found(decl: EnumView, span: Span, statement: StatementView)
    ensures
        StatementView::TSEnumDeclaration(decl).enum_declaration() == Some(
            (decl, None::<Span>),
        ),
        (StatementView::ExportNamedDeclaration {
            span,
            declaration: Some(DeclarationView::TSEnumDeclaration(decl)),
        }).enum_declaration() == Some((decl, Some(span))),
        statement.enum_declaration() is Some ==> {
            ||| statement is TSEnumDeclaration
            ||| statement matches StatementView::ExportNamedDeclaration {
                declaration: Some(DeclarationView::TSEnumDeclaration(_)),
                ..
            }
        },
{
}

/// String literals and templates are told from all other expressions, by what they are
/// and not by what they hold.
pub proof fn strings_are_told_by_their_kind(expression: ExpressionView)
    ensures
        expression.is_string() == match expression {
            ExpressionView::StringLiteral { .. } => true,
            ExpressionView::Source(source) => match source {
                SourceView::Node { kind, .. } => kind is StringLiteral || kind is TemplateLiteral,
                SourceView::Identifier(_) => false,
                SourceView::StaticMember(_) => false,
            },
            _ => false,
        },
{
}

/// The views of identifiers hold all of their fields.
pub proof fn identifier_views_are_complete(
    span: Span,
    name: &str,
    reference_id: Option<u32>,
    symbol_id: u32,
)
    ensures
        (IdentifierReference { span, name, reference_id })@ == (IdentifierView {
            span,
            name: name@,
            reference_id,
        }),
        (IdentifierName { span, name })@ == (NameView { span, name: name@ }),
        (BindingIdentifier { span, name, symbol_id })@ == (BindingView {
            span,
            name: name@,
            symbol_id,
        }),
{
}

/// The view of an expression of the program text holds all that the expression does.
pub proof fn source_views_are_complete(expression: SourceExpression, part: Part, k: int)
    ensures
        match expression {
            SourceExpression::Identifier(identifier) => expression@ == SourceView::Identifier(
                identifier@,
            ),
            SourceExpression::StaticMember(member) => {
                &&& expression@ matches SourceView::StaticMember(view)
                &&& view == member@
                &&& view.span == member.span
                &&& *view.object == member.object@
                &&& view.property == member.property@
                &&& view.optional == member.optional
            },
            SourceExpression::Node { kind, id, parts } => {
                &&& expression@ matches SourceView::Node {
                    kind: kind_view,
                    id: id_view,
                    parts: parts_view,
                }
                &&& kind_view == kind
                &&& id_view == id
                &&& parts_view.len() == parts@.len()
                &&& 0 <= k < parts@.len() ==> parts_view[k] == parts@[k]@
            },
        },
        match part {
            Part::Expression(inner) => part@ == PartView::Expression(inner@),
            Part::Scope { scope_id, parts } => {
                &&& part@ matches PartView::Scope { scope_id: id_view, parts: parts_view }
                &&& id_view == scope_id
                &&& parts_view.len() == parts@.len()
                &&& 0 <= k < parts@.len() ==> parts_view[k] == parts@[k]@
            },
        },
{
}

/// The view of an expression holds all that the expression does.
pub proof fn expression_views_are_complete(expression: Expression)
    ensures
        match expression {
            Expression::Source(source) => expression@ == ExpressionView::Source(source@),
            Expression::Identifier(identifier) => expression@ == ExpressionView::Identifier(
                identifier@,
            ),
            Expression::NumericLiteral { span, value } => expression@
                == (ExpressionView::NumericLiteral { span, value }),
            Expression::StringLiteral { span, text } => expression@
                == (ExpressionView::StringLiteral { span, text: text@ }),
            Expression::UnaryNegation { span, argument } => expression@
                == (ExpressionView::UnaryNegation { span, argument: Box::new(argument@) }),
            Expression::Addition { span, left, right } => expression@ == (ExpressionView::Addition {
                span,
                left: Box::new(left@),
                right: Box::new(right@),
            }),
            Expression::LogicalOr { span, left, right } => expression@
                == (ExpressionView::LogicalOr {
                span,
                left: Box::new(left@),
                right: Box::new(right@),
            }),
            Expression::Assignment { span, target, right } => expression@
                == (ExpressionView::Assignment { span, target: target@, right: Box::new(right@) }),
            Expression::ComputedMember(member) => expression@ == ExpressionView::ComputedMember(
                member@,
            ),
            Expression::EmptyObject { span } => expression@ == (ExpressionView::EmptyObject {
                span,
            }),
            Expression::Call { span, callee, argument, pure } => expression@
                == (ExpressionView::Call {
                span,
                callee: Box::new(callee@),
                argument: Box::new(argument@),
                pure,
            }),
            Expression::ArrowFunction(function) => expression@ == ExpressionView::ArrowFunction(
                function@,
            ),
        },
{
}

/// The views of what expressions are made of hold all of their fields.
pub proof fn operand_views_are_complete(
    member: ComputedMemberExpression,
    target: AssignmentTarget,
    function: ArrowFunctionExpression,
    k: int,
)
    ensures
        member@ == (ComputedMemberView {
            span: member.span,
            object: Box::new(member.object@),
            expression: Box::new(member.expression@),
        }),
        match target {
            AssignmentTarget::Identifier(identifier) => target@ == TargetView::Identifier(
                identifier@,
            ),
            AssignmentTarget::ComputedMember(inner) => target@ == TargetView::ComputedMember(
                inner@,
            ),
        },
        function@.span == function.span,
        function@.param == function.param@,
        function@.body_span == function.body_span,
        function@.scope_id == function.scope_id,
        function@.statements.len() == function.statements@.len(),
        0 <= k < function.statements@.len() ==> function@.statements[k]
            == function.statements@[k]@,
{
}

/// The view of a statement holds all that the statement does.
pub proof fn statement_views_are_complete(
    statement: Statement,
    declaration: Declaration,
    variable: VariableDeclaration,
)
    ensures
        match statement {
            Statement::TSEnumDeclaration(decl) => statement@ == StatementView::TSEnumDeclaration(
                decl@,
            ),
            Statement::ExportNamedDeclaration { span, declaration: Some(inner) } => statement@
                == (StatementView::ExportNamedDeclaration { span, declaration: Some(inner@) }),
            Statement::ExportNamedDeclaration { span, declaration: None } => statement@
                == (StatementView::ExportNamedDeclaration { span, declaration: None }),
            Statement::VariableDeclaration(decl) => statement@
                == StatementView::VariableDeclaration(decl@),
            Statement::Expression { span, expression } => statement@ == (StatementView::Expression {
                span,
                expression: expression@,
            }),
            Statement::Return { span, argument } => statement@ == (StatementView::Return {
                span,
                argument: argument@,
            }),
            Statement::Other { id } => statement@ == (StatementView::Other { id }),
        },
        match declaration {
            Declaration::TSEnumDeclaration(decl) => declaration@
                == DeclarationView::TSEnumDeclaration(decl@),
            Declaration::VariableDeclaration(decl) => declaration@
                == DeclarationView::VariableDeclaration(decl@),
            Declaration::Other { id } => declaration@ == (DeclarationView::Other { id }),
        },
        variable@ == (VariableView {
            span: variable.span,
            kind: variable.kind,
            declarator_span: variable.declarator_span,
            id: variable.id@,
            init: variable.init@,
        }),
{
}

/// The view of an enum holds all of its modifiers and members, and that of a member its
/// name and its initializer.
pub proof fn enum_views_are_complete(decl: TSEnumDeclaration, member: TSEnumMember, k: int)
    ensures
        decl@.span == decl.span,
        decl@.id == decl.id@,
        decl@.scope_id == decl.scope_id,
        decl@.is_const == decl.is_const,
        decl@.declare == decl.declare,
        decl@.members.len() == decl.members@.len(),
        0 <= k < decl.members@.len() ==> decl@.members[k] == decl.members@[k]@,
        member@.span == member.span,
        member@.name == member.name@,
        match member.initializer {
            Some(initializer) => member@.initializer == Some(initializer@),
            None => member@.initializer is None,
        },
{
}

} // verus!
