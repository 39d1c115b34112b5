//! The transform of `enum` declarations and of accesses to enum members.

use crate::ast::members_view;
use crate::ast::statements_view;
use crate::ast::ArrowFunctionExpression;
use crate::ast::AssignmentTarget;
use crate::ast::BindingIdentifier;
use crate::ast::ComputedMemberExpression;
use crate::ast::Declaration;
use crate::ast::EnumView;
use crate::ast::Expression;
use crate::ast::ExpressionView;
use crate::ast::IdentifierReference;
use crate::ast::NodeKind;
use crate::ast::SourceExpression;
use crate::ast::SourceView;
use crate::ast::Span;
use crate::ast::Statement;
use crate::ast::StatementView;
use crate::ast::StaticMemberExpression;
use crate::ast::TSEnumDeclaration;
use crate::ast::TargetView;
use crate::ast::TSEnumMember;
use crate::ast::VariableDeclaration;
use crate::ast::VariableDeclarationKind;
use crate::model::after_constant;
use crate::model::after_numeral;
use crate::model::constant;
use crate::model::element;
use crate::model::element_assignment;
use crate::model::first_member_value;
use crate::model::may_have_side_effect;
use crate::model::member_value;
use crate::model::numeral;
use crate::model::numeric_literal;
use crate::model::string;
use crate::model::BodyView;
use crate::model::BoundView;
use crate::model::Progress;
use crate::number::Number;
use crate::rename::IdentifierReferenceRename;
use crate::scoping::create_bound_reference;
use crate::scoping::create_reference;
use crate::scoping::current_scope_id;
use crate::scoping::find_binding;
use crate::scoping::generate_binding;
use crate::scoping::get_binding;
use crate::scoping::get_enum_body_scopes;
use crate::scoping::get_enum_member_value;
use crate::scoping::is_const_enum;
use crate::scoping::is_top;
use crate::scoping::name_fits;
use crate::scoping::reference_symbol;
use crate::scoping::scope_flags;
use crate::scoping::symbol_flags;
use crate::scoping::symbol_flags_contain;
use crate::scoping::symbol_redeclarations;
use crate::scoping::tables;
use crate::scoping::ConstantValue;
use crate::scoping::ConstantView;
use crate::scoping::ScopingView;
use crate::scoping::FUNCTION_SCOPED_VARIABLE;
use crate::scoping::READ;
use crate::scoping::REGULAR_ENUM;
use crate::scoping::WRITE;
use oxc_ast::AstBuilder;
use oxc_traverse::TraverseScoping;
use vstd::prelude::*;

verus! {

/// What puts the parts of a syntax tree into an arena.
#[verifier::external_type_specification]
#[verifier::external_body]
pub struct ExAstBuilder<'a>(AstBuilder<'a>);

/// Calls `AstBuilder::str`, which copies a text into the arena.
#[verifier::external_body]
fn arena_str<'a>(ast: AstBuilder<'a>, text: &str) -> (copy: &'a str)
    ensures
        copy@ == text@,
{
    ast.str(text).as_str()
}

/// A variable, from which uses of it are made.
#[derive(Clone, Copy, Debug)]
pub struct BoundIdentifier<'a> {
    pub name: &'a str,
    pub symbol_id: u32,
}

impl<'a> BoundIdentifier<'a> {
    pub open spec fn view(self) -> BoundView {
        BoundView { name: self.name@, symbol_id: self.symbol_id }
    }

    /// A use of the variable.
    pub fn create_reference(
        &self,
        span: Span,
        flags: u8,
        scoping: &mut TraverseScoping<'a>,
    ) -> (identifier: IdentifierReference<'a>)
        requires
            tables(*old(scoping)).wf(),
            tables(*old(scoping)).has_symbol(self.symbol_id),
            tables(*old(scoping)).has_room(1),
        ensures
            identifier@ == self@.reference(span, tables(*old(scoping))),
            tables(*final(scoping)) == tables(*old(scoping)).with_bound_reference(
                self.symbol_id,
                flags,
            ),
    {
        let reference_id: u32 = create_bound_reference(scoping, self.symbol_id, flags);
        IdentifierReference { span, name: self.name, reference_id: Some(reference_id) }
    }

    /// A use of the variable that reads it.
    pub fn create_read_expression(&self, scoping: &mut TraverseScoping<'a>) -> (read: Expression<
        'a,
    >)
        requires
            tables(*old(scoping)).wf(),
            tables(*old(scoping)).has_symbol(self.symbol_id),
            tables(*old(scoping)).has_room(1),
        ensures
            read@ == self@.read(tables(*old(scoping))),
            tables(*final(scoping)) == self@.after_read(tables(*old(scoping))),
    {
        Expression::Identifier(self.create_reference(Span::empty(), READ, scoping))
    }

    /// The declaration of the variable as a parameter.
    pub fn create_binding_identifier(&self) -> (binding: BindingIdentifier<'a>)
        ensures
            binding.span == Span::spec_empty(),
            binding.name == self.name,
            binding.symbol_id == self.symbol_id,
    {
        BindingIdentifier { span: Span::empty(), name: self.name, symbol_id: self.symbol_id }
    }
}

/// The name `Infinity` is short.
proof fn lemma_infinity_fits()
    ensures
        name_fits("Infinity"@),
{
    reveal_strlit("Infinity");
    vstd::utf8::is_ascii_chars_encode_utf8("Infinity"@);
}

/// The transform of enums.
pub struct TypeScriptEnum {
    optimize_const_enums: bool,
}

impl TypeScriptEnum {
    /// Whether declarations of `const enum`s are left to be removed.
    pub closed spec fn optimizes(self) -> bool {
        self.optimize_const_enums
    }

    pub fn new(optimize_const_enums: bool) -> (transform: Self)
        ensures
            transform.optimizes() == optimize_const_enums,
    {
        TypeScriptEnum { optimize_const_enums }
    }

    /// Puts the lowered form of an enum in the place of its declaration.
    pub fn enter_statement<'a>(
        &mut self,
        stmt: &mut Statement<'a>,
        scoping: &mut TraverseScoping<'a>,
        ast: AstBuilder<'a>,
    )
        requires
            old(stmt)@.enum_declaration() matches Some((decl, _)) ==> old(self).lowers(decl)
                ==> decl.can_lower(tables(*old(scoping))),
        ensures
            *final(self) == *old(self),
            match old(stmt)@.enum_declaration() {
                Some((decl, export_span)) if old(self).lowers(decl) => {
                    &&& final(stmt)@ == decl.lowered(export_span, tables(*old(scoping)))
                    &&& tables(*final(scoping)) == decl.after_lowered(
                        export_span is Some,
                        tables(*old(scoping)),
                    )
                },
                _ => *final(stmt) == *old(stmt) && *final(scoping) == *old(scoping),
            },
    {
        let new_stmt = match stmt {
            Statement::TSEnumDeclaration(decl) => self.transform_ts_enum(decl, None, scoping, ast),
            Statement::ExportNamedDeclaration { span, declaration } => {
                let span = *span;
                if let Some(Declaration::TSEnumDeclaration(decl)) = declaration {
                    self.transform_ts_enum(decl, Some(span), scoping, ast)
                } else {
                    None
                }
            },
            _ => None,
        };
        if let Some(new_stmt) = new_stmt {
            *stmt = new_stmt;
        }
    }

    /// Puts the constant value of an enum member in the place of an access to it.
    pub fn enter_expression<'a>(
        &mut self,
        expr: &mut Expression<'a>,
        scoping: &mut TraverseScoping<'a>,
        ast: AstBuilder<'a>,
    )
        requires
            old(expr)@ matches ExpressionView::Source(SourceView::StaticMember(member)) ==> {
                &&& member.can_inline(tables(*old(scoping)))
                &&& member.inlined(tables(*old(scoping))) matches Some(ConstantView::Number(value))
                    ==> value.is_infinite() ==> tables(*old(scoping)).wf() && tables(
                    *old(scoping),
                ).has_room(1)
            },
        ensures
            *final(self) == *old(self),
            match old(expr)@ {
                ExpressionView::Source(SourceView::StaticMember(member)) if member.inlined(
                    tables(*old(scoping)),
                ) is Some => {
                    let value = member.inlined(tables(*old(scoping)))->0;
                    &&& final(expr)@ == constant(value, tables(*old(scoping)))
                    &&& tables(*final(scoping)) == after_constant(value, tables(*old(scoping)))
                },
                _ => *final(expr) == *old(expr) && *final(scoping) == *old(scoping),
            },
    {
        let value = match expr {
            Expression::Source(SourceExpression::StaticMember(member)) => {
                Self::try_inline_enum_member(member, scoping)
            },
            _ => None,
        };
        match value {
            Some(ConstantValue::Number(value)) => {
                *expr = Self::get_initializer_expr(value, scoping);
            },
            Some(ConstantValue::String(text)) => {
                *expr = Self::string_literal(arena_str(ast, text.as_str()));
            },
            None => {},
        }
    }

    /// The constant value of an access to an enum member, such as `Direction.Up`, where
    /// it is known. Regular enums and `const enum`s are treated alike.
    pub fn try_inline_enum_member<'a>(
        expr: &StaticMemberExpression<'a>,
        scoping: &TraverseScoping<'a>,
    ) -> (value: Option<ConstantValue>)
        requires
            expr@.can_inline(tables(*scoping)),
        ensures
            match value {
                Some(value) => expr@.inlined(tables(*scoping)) == Some(value@),
                None => expr@.inlined(tables(*scoping)) is None,
            },
    {
        let reference_id: u32 = match &*expr.object {
            SourceExpression::Identifier(ident) => match ident.reference_id {
                Some(reference_id) => reference_id,
                None => return None,
            },
            _ => return None,
        };
        let symbol_id: u32 = match reference_symbol(scoping, reference_id) {
            Some(symbol_id) => symbol_id,
            None => return None,
        };
        let flags: u32 = symbol_flags(scoping, symbol_id);
        if !is_const_enum(flags) && !symbol_flags_contain(flags, REGULAR_ENUM) {
            return None;
        }
        let scopes = match get_enum_body_scopes(scoping, symbol_id) {
            Some(scopes) => scopes,
            None => return None,
        };
        let name = expr.property.name;
        let ghost t = tables(*scoping);
        let mut i: usize = 0;
        assert(scopes@.skip(0) =~= scopes@);
        while i < scopes.len()
            invariant
                i <= scopes@.len(),
                t == tables(*scoping),
                name_fits(name@),
                forall|j: int|
                    0 <= j < scopes@.len() ==> t.can_look_up(#[trigger] scopes@[j], name@),
                expr@.inlined(t) == first_member_value(t, scopes@.skip(i as int), name@),
            decreases scopes@.len() - i,
        {
            let value = Self::get_member_value(scopes[i], name, scoping);
            assert(scopes@.skip(i as int)[0] == scopes@[i as int]);
            assert(scopes@.skip(i as int).drop_first() =~= scopes@.skip(i + 1));
            if value.is_some() {
                return value;
            }
            i = i + 1;
        }
        None
    }

    /// The constant value of a member of an enum body, where it is known.
    pub fn get_member_value<'a>(
        scope_id: u32,
        name: &str,
        scoping: &TraverseScoping<'a>,
    ) -> (value: Option<ConstantValue>)
        requires
            tables(*scoping).can_look_up(scope_id, name@),
            name_fits(name@),
        ensures
            match value {
                Some(value) => member_value(tables(*scoping), scope_id, name@) == Some(value@),
                None => member_value(tables(*scoping), scope_id, name@) is None,
            },
    {
        match get_binding(scoping, scope_id, name) {
            Some(symbol_id) => get_enum_member_value(scoping, symbol_id),
            None => None,
        }
    }

    /// Whether a declaration is lowered. One that only declares is left alone, and so
    /// is a `const enum` that is to be removed.
    pub open spec fn lowers(self, decl: EnumView) -> bool {
        !decl.declare && !(decl.is_const && self.optimizes())
    }

    /// Whether a declaration with these modifiers is lowered.
    pub fn should_lower(&self, is_const: bool, declare: bool) -> (should: bool)
        ensures
            should == (!declare && !(is_const && self.optimizes())),
    {
        // Accesses to the members of a `const enum` are inlined, so that its declaration
        // can be removed.
        !declare && !(is_const && self.optimize_const_enums)
    }

    /// The statement that takes the place of an enum declaration.
    /// ```ts
    /// enum Foo {
    ///   X = 1,
    ///   Y
    /// }
    /// ```
    /// ```js
    /// var Foo = ((Foo) => {
    ///   Foo[Foo["X"] = 1] = "X";
    ///   Foo[Foo["Y"] = 2] = "Y";
    ///   return Foo;
    /// })(Foo || {});
    /// ```
    pub fn transform_ts_enum<'a>(
        &self,
        decl: &mut TSEnumDeclaration<'a>,
        export_span: Option<Span>,
        scoping: &mut TraverseScoping<'a>,
        ast: AstBuilder<'a>,
    ) -> (statement: Option<Statement<'a>>)
        requires
            self.lowers(old(decl)@) ==> old(decl)@.can_lower(tables(*old(scoping))),
        ensures
            match statement {
                Some(statement) => {
                    &&& self.lowers(old(decl)@)
                    &&& statement@ == old(decl)@.lowered(export_span, tables(*old(scoping)))
                    &&& tables(*final(scoping)) == old(decl)@.after_lowered(
                        export_span is Some,
                        tables(*old(scoping)),
                    )
                    &&& final(decl)@ == (EnumView { members: seq![], ..old(decl)@ })
                },
                None => {
                    &&& !self.lowers(old(decl)@)
                    &&& *final(decl) == *old(decl)
                    &&& *final(scoping) == *old(scoping)
                },
            },
    {
        if !self.should_lower(decl.is_const, decl.declare) {
            return None;
        }
        let ghost view = decl@;
        let ghost t = tables(*scoping);
        let span = decl.span;
        let is_export = export_span.is_some();
        let is_not_top_scope = !is_top(scope_flags(scoping, current_scope_id(scoping)));
        let is_local = is_export || is_not_top_scope;
        let has_potential_side_effect = Self::has_potential_side_effect(&decl.members);
        let callee = Self::enum_function(decl, scoping, ast);
        proof {
            view.lemma_after_function(t);
        }
        let redeclarations = symbol_redeclarations(scoping, decl.id.symbol_id);
        let is_already_declared = redeclarations.len() > 0 && redeclarations[0] != decl.id.span;
        let argument = Self::enum_argument(decl, is_local && !is_already_declared, scoping);
        let call_expression = Expression::Call {
            span,
            callee: Box::new(callee),
            argument: Box::new(argument),
            pure: !has_potential_side_effect,
        };
        assert(call_expression@ == view.call(is_export, t));
        if is_already_declared {
            return Some(Self::enum_assignment(decl, call_expression, scoping));
        }
        let kind = if is_local {
            VariableDeclarationKind::Let
        } else {
            VariableDeclarationKind::Var
        };
        let variable_declaration = VariableDeclaration {
            span,
            kind,
            declarator_span: span,
            id: decl.id,
            init: call_expression,
        };
        assert(variable_declaration@.init == call_expression@);
        let statement = if let Some(span) = export_span {
            let declaration = Declaration::VariableDeclaration(variable_declaration);
            assert(declaration@ is VariableDeclaration);
            Statement::ExportNamedDeclaration { span, declaration: Some(declaration) }
        } else {
            Statement::VariableDeclaration(variable_declaration)
        };
        Some(statement)
    }

    /// The arrow function that the body of an enum becomes.
    fn enum_function<'a>(
        decl: &mut TSEnumDeclaration<'a>,
        scoping: &mut TraverseScoping<'a>,
        ast: AstBuilder<'a>,
    ) -> (callee: Expression<'a>)
        requires
            old(decl)@.can_lower(tables(*old(scoping))),
        ensures
            callee@ == old(decl)@.function(tables(*old(scoping))),
            tables(*final(scoping)) == old(decl)@.after_function(tables(*old(scoping))),
            final(decl)@ == (EnumView { members: seq![], ..old(decl)@ }),
    {
        let ghost view = decl@;
        let ghost t = tables(*scoping);
        let span = decl.span;
        let func_scope_id: u32 = decl.scope_id;
        let symbol_id: u32 = generate_binding(
            scoping,
            decl.id.name,
            func_scope_id,
            FUNCTION_SCOPED_VARIABLE,
        );
        let param_binding = BoundIdentifier { name: decl.id.name, symbol_id };
        proof {
            view.lemma_after_function(t);
        }
        let statements = Self::transform_ts_enum_members(
            func_scope_id,
            &mut decl.members,
            &param_binding,
            scoping,
            ast,
        );
        let function = ArrowFunctionExpression {
            span,
            param: param_binding.create_binding_identifier(),
            body_span: span,
            statements,
            scope_id: func_scope_id,
        };
        assert(function@.statements == statements_view(statements@));
        assert(members_view(decl.members@) =~= seq![]);
        Expression::ArrowFunction(function)
    }

    /// What the function is called with: `{}`, or `Foo || {}`.
    fn enum_argument<'a>(
        decl: &TSEnumDeclaration<'a>,
        is_new: bool,
        scoping: &mut TraverseScoping<'a>,
    ) -> (argument: Expression<'a>)
        requires
            tables(*old(scoping)).wf(),
            tables(*old(scoping)).has_symbol(decl.id.symbol_id),
            tables(*old(scoping)).has_room(2),
        ensures
            argument@ == (if is_new {
                ExpressionView::EmptyObject { span: Span::spec_empty() }
            } else {
                ExpressionView::LogicalOr {
                    span: decl.span,
                    left: Box::new(
                        ExpressionView::Identifier(
                            decl@.variable().reference(decl.id.span, tables(*old(scoping))),
                        ),
                    ),
                    right: Box::new(ExpressionView::EmptyObject { span: Span::spec_empty() }),
                }
            }),
            tables(*final(scoping)) == (if is_new {
                tables(*old(scoping))
            } else {
                decl@.variable().after_read(tables(*old(scoping)))
            }),
            tables(*final(scoping)).wf(),
            tables(*final(scoping)).has_room(1),
    {
        let ghost t = tables(*scoping);
        let object = Expression::EmptyObject { span: Span::empty() };
        if is_new {
            proof {
                t.lemma_less_room(2, 1);
            }
            // })({});
            object
        } else {
            proof {
                t.lemma_with_reference(seq![], Some(decl.id.symbol_id), READ, 1);
            }
            // })(Foo || {});
            let binding = BoundIdentifier { name: decl.id.name, symbol_id: decl.id.symbol_id };
            let left = Expression::Identifier(
                binding.create_reference(decl.id.span, READ, scoping),
            );
            assert(left@ is Identifier && object@ is EmptyObject);
            Expression::LogicalOr {
                span: decl.span,
                left: Box::new(left),
                right: Box::new(object),
            }
        }
    }

    /// `Foo = call`
    fn enum_assignment<'a>(
        decl: &TSEnumDeclaration<'a>,
        call_expression: Expression<'a>,
        scoping: &mut TraverseScoping<'a>,
    ) -> (statement: Statement<'a>)
        requires
            tables(*old(scoping)).wf(),
            tables(*old(scoping)).has_symbol(decl.id.symbol_id),
            tables(*old(scoping)).has_room(1),
        ensures
            statement@ == (StatementView::Expression {
                span: decl.span,
                expression: ExpressionView::Assignment {
                    span: decl.span,
                    target: TargetView::Identifier(
                        decl@.variable().reference(decl.id.span, tables(*old(scoping))),
                    ),
                    right: Box::new(call_expression@),
                },
            }),
            tables(*final(scoping)) == tables(*old(scoping)).with_bound_reference(
                decl.id.symbol_id,
                WRITE,
            ),
    {
        let binding = BoundIdentifier { name: decl.id.name, symbol_id: decl.id.symbol_id };
        let target = AssignmentTarget::Identifier(
            binding.create_reference(decl.id.span, WRITE, scoping),
        );
        assert(target@ is Identifier);
        let expression = Expression::Assignment {
            span: decl.span,
            target,
            right: Box::new(call_expression),
        };
        assert(expression@ is Assignment);
        Statement::Expression { span: decl.span, expression }
    }

    /// Whether an initializer is a call or an instantiation.
    fn has_potential_side_effect<'a>(members: &Vec<TSEnumMember<'a>>) -> (has: bool)
        ensures
            has == exists|i: int|
                0 <= i < members@.len() && may_have_side_effect(
                    #[trigger] members_view(members@)[i],
                ),
    {
        let mut i: usize = 0;
        while i < members.len()
            invariant
                i <= members@.len(),
                forall|j: int|
                    0 <= j < i ==> !may_have_side_effect(#[trigger] members_view(members@)[j]),
            decreases members@.len() - i,
        {
            assert(members_view(members@)[i as int] == members@[i as int]@);
            if let Some(SourceExpression::Node { kind, .. }) = &members[i].initializer {
                match kind {
                    NodeKind::NewExpression => return true,
                    NodeKind::CallExpression => return true,
                    _ => {},
                }
            }
            i = i + 1;
        }
        false
    }

    /// A numeric literal.
    pub fn get_number_literal_expression<'a>(value: Number) -> (literal: Expression<'a>)
        ensures
            literal@ == numeric_literal(value),
    {
        Expression::NumericLiteral { span: Span::empty(), value }
    }

    /// The expression for a number.
    pub fn get_initializer_expr<'a>(
        value: Number,
        scoping: &mut TraverseScoping<'a>,
    ) -> (expression: Expression<'a>)
        requires
            value.is_infinite() ==> tables(*old(scoping)).wf() && tables(*old(scoping)).has_room(1),
        ensures
            expression@ == numeral(value, tables(*old(scoping))),
            tables(*final(scoping)) == after_numeral(value, tables(*old(scoping))),
    {
        let is_negative = value.is_negative();
        let expr = if value.is_infinite() {
            let infinity = "Infinity";
            let scope_id: u32 = current_scope_id(scoping);
            proof {
                lemma_infinity_fits();
                let t = tables(*scoping);
                t.lemma_lookup(scope_id, infinity@, t.scope_bindings.len());
            }
            let symbol_id = find_binding(scoping, scope_id, infinity);
            let reference_id: u32 = create_reference(scoping, infinity, symbol_id, READ);
            Expression::Identifier(
                IdentifierReference {
                    span: Span::empty(),
                    name: infinity,
                    reference_id: Some(reference_id),
                },
            )
        } else {
            let value = if is_negative {
                value.negate()
            } else {
                value
            };
            Self::get_number_literal_expression(value)
        };
        if is_negative {
            Expression::UnaryNegation { span: Span::empty(), argument: Box::new(expr) }
        } else {
            expr
        }
    }

    /// The value that a member is initialized with.
    fn transform_initializer<'a>(
        enum_scope_id: u32,
        member: TSEnumMember<'a>,
        previous: &mut PreviousMember<'a>,
        param_binding: &BoundIdentifier<'a>,
        scoping: &mut TraverseScoping<'a>,
        ast: AstBuilder<'a>,
    ) -> (init: Expression<'a>)
        requires
            tables(*old(scoping)).wf(),
            tables(*old(scoping)).has_scope(enum_scope_id),
            tables(*old(scoping)).has_symbol(param_binding.symbol_id),
            tables(*old(scoping)).has_room(1),
            (BodyView { scope_id: enum_scope_id, param: param_binding@ }).can_lower(
                member@,
                tables(*old(scoping)),
            ),
        ensures
            ({
                let body = BodyView { scope_id: enum_scope_id, param: param_binding@ };
                let before = old(previous).progress(tables(*old(scoping)));
                &&& init@ == before.init(body, member@)
                &&& tables(*final(scoping)) == before.after_init(body, member@)
                &&& final(previous).prev_constant_number == before.number_of(body, member@)
                &&& final(previous).prev_member_name == old(previous).prev_member_name
            }),
    {
        if let Some(initializer) = member.initializer {
            // Look up the pre-computed constant value.
            let constant_value = Self::get_member_value(enum_scope_id, member.name, scoping);
            match constant_value {
                None => {
                    previous.prev_constant_number = None;
                    let mut initializer = initializer;
                    let mut rename = IdentifierReferenceRename::new(
                        param_binding.name,
                        enum_scope_id,
                        scoping,
                    );
                    rename.visit_expression(&mut initializer);
                    Expression::Source(initializer)
                },
                Some(ConstantValue::Number(value)) => {
                    previous.prev_constant_number = Some(value);
                    Self::get_initializer_expr(value, scoping)
                },
                Some(ConstantValue::String(text)) => {
                    previous.prev_constant_number = None;
                    Self::string_literal(arena_str(ast, text.as_str()))
                },
            }
        } else if let Some(value) = previous.prev_constant_number {
            // No initializer, try to infer the value from the previous member.
            let value = value.add_one();
            previous.prev_constant_number = Some(value);
            Self::get_initializer_expr(value, scoping)
        } else if let Some(prev_member_name) = previous.prev_member_name {
            // 1 + Foo["x"]
            let object = param_binding.create_read_expression(scoping);
            let name = Self::string_literal(prev_member_name);
            let self_ref = Expression::ComputedMember(Self::element(object, name));
            let one = Self::get_number_literal_expression(Number::one());
            assert(self_ref@ is ComputedMember);
            Expression::Addition {
                span: Span::empty(),
                left: Box::new(one),
                right: Box::new(self_ref),
            }
        } else {
            Self::get_number_literal_expression(Number::zero())
        }
    }

    /// The statement that a member becomes.
    fn transform_member<'a>(
        enum_scope_id: u32,
        member: TSEnumMember<'a>,
        previous: &mut PreviousMember<'a>,
        param_binding: &BoundIdentifier<'a>,
        scoping: &mut TraverseScoping<'a>,
        ast: AstBuilder<'a>,
    ) -> (statement: Statement<'a>)
        requires
            tables(*old(scoping)).wf(),
            tables(*old(scoping)).has_scope(enum_scope_id),
            tables(*old(scoping)).has_symbol(param_binding.symbol_id),
            tables(*old(scoping)).has_room(3),
            (BodyView { scope_id: enum_scope_id, param: param_binding@ }).can_lower(
                member@,
                tables(*old(scoping)),
            ),
        ensures
            ({
                let body = BodyView { scope_id: enum_scope_id, param: param_binding@ };
                let before = old(previous).progress(tables(*old(scoping)));
                &&& statement@ == before.statement(body, member@)
                &&& final(previous).progress(tables(*final(scoping))) == before.next(body, member@)
            }),
    {
        let member_span = member.span;
        let member_name = member.name;
        let ghost t0 = tables(*scoping);
        let init = Self::transform_initializer(
            enum_scope_id,
            member,
            previous,
            param_binding,
            scoping,
            ast,
        );
        let is_str = init.is_string_literal();
        let ghost t1 = tables(*scoping);
        proof {
            t0.lemma_lookup(t0.current_scope, "Infinity"@, t0.scope_bindings.len());
            let symbol_id = t0.resolve(t0.current_scope, "Infinity"@);
            t0.lemma_with_reference("Infinity"@, symbol_id, READ, 2);
            t0.lemma_with_reference(seq![], Some(param_binding.symbol_id), READ, 2);
            t1.lemma_with_reference(seq![], Some(param_binding.symbol_id), READ, 1);
        }

        // Foo["x"] = init
        let object = param_binding.create_read_expression(scoping);
        let ghost t2 = tables(*scoping);
        let name = Self::string_literal(member_name);
        let expr = Self::assign_element(member_span, object, name, init);

        // Foo[Foo["x"] = init] = "x"
        let expr = if is_str {
            expr
        } else {
            proof {
                t2.lemma_with_reference(seq![], Some(param_binding.symbol_id), READ, 0);
            }
            let object = param_binding.create_read_expression(scoping);
            let name = Self::string_literal(member_name);
            Self::assign_element(member_span, object, expr, name)
        };
        previous.prev_member_name = Some(member_name);
        Statement::Expression { span: member_span, expression: expr }
    }

    /// The statements of the function that the body of an enum becomes.
    pub fn transform_ts_enum_members<'a>(
        enum_scope_id: u32,
        members: &mut Vec<TSEnumMember<'a>>,
        param_binding: &BoundIdentifier<'a>,
        scoping: &mut TraverseScoping<'a>,
        ast: AstBuilder<'a>,
    ) -> (statements: Vec<Statement<'a>>)
        requires
            (BodyView { scope_id: enum_scope_id, param: param_binding@ }).can_lower_all(
                members_view(old(members)@),
                tables(*old(scoping)),
            ),
        ensures
            ({
                let body = BodyView { scope_id: enum_scope_id, param: param_binding@ };
                let views = members_view(old(members)@);
                &&& statements_view(statements@) == body.statements(views, tables(*old(scoping)))
                &&& tables(*final(scoping)) == body.after_statements(views, tables(*old(scoping)))
            }),
            final(members)@.len() == 0,
    {
        let ghost body = BodyView { scope_id: enum_scope_id, param: param_binding@ };
        let ghost views = members_view(members@);
        let ghost t = tables(*scoping);
        let mut statements: Vec<Statement<'a>> = Vec::new();
        let mut previous = PreviousMember {
            prev_constant_number: Some(Number::minus_one()),
            prev_member_name: None,
        };
        let mut taken: Vec<TSEnumMember<'a>> = Vec::new();
        std::mem::swap(&mut taken, members);
        let count: usize = taken.len();
        let mut i: usize = 0;
        while i < count
            invariant
                i <= count == views.len(),
                taken@.len() == count,
                forall|j: int| i <= j < count ==> #[trigger] taken@[j]@ == views[j],
                body == (BodyView { scope_id: enum_scope_id, param: param_binding@ }),
                body.can_lower_all(views, t),
                previous.progress(tables(*scoping)) == body.progress(views, t, i as nat),
                statements@.len() == i,
                forall|j: int|
                    0 <= j < i ==> #[trigger] statements@[j]@ == body.progress(
                        views,
                        t,
                        j as nat,
                    ).statement(body, views[j]),
            decreases count - i,
        {
            let initializer = taken[i].initializer.take();
            let member = TSEnumMember { span: taken[i].span, name: taken[i].name, initializer };
            proof {
                assert(member@ == views[i as int]);
                assert(body.can_lower(views[i as int], t));
                t.lemma_less_room(3 * views.len() + 1, (3 * i + 3) as nat);
                body.lemma_progress(views, t, i as nat, 3);
                body.lemma_can_lower_extends(member@, t, tables(*scoping));
            }
            let statement = Self::transform_member(
                enum_scope_id,
                member,
                &mut previous,
                param_binding,
                scoping,
                ast,
            );
            statements.push(statement);
            i = i + 1;
        }
        proof {
            body.lemma_progress(views, t, views.len(), 1);
        }
        // return Foo;
        let enum_ref = param_binding.create_read_expression(scoping);
        let return_stmt = Statement::Return { span: Span::empty(), argument: enum_ref };
        assert(return_stmt@ is Return);
        statements.push(return_stmt);
        proof {
            let expected = body.statements(views, t);
            let actual = statements_view(statements@);
            assert forall|j: int| 0 <= j < expected.len() implies actual[j] == expected[j] by {
                if j < count {
                    assert(actual[j] == statements@[j]@);
                    assert(expected[j] == body.progress(views, t, j as nat).statement(
                        body,
                        views[j],
                    ));
                }
            }
            assert(actual =~= expected);
        }
        statements
    }

    /// A string literal.
    fn string_literal<'a>(text: &'a str) -> (literal: Expression<'a>)
        ensures
            literal@ == string(text@),
    {
        Expression::StringLiteral { span: Span::empty(), text }
    }

    /// `object[expression]`
    fn element<'a>(object: Expression<'a>, expression: Expression<'a>) -> (member:
        ComputedMemberExpression<'a>)
        ensures
            member@ == element(object@, expression@),
    {
        ComputedMemberExpression {
            span: Span::empty(),
            object: Box::new(object),
            expression: Box::new(expression),
        }
    }

    /// `object[expression] = value`
    fn assign_element<'a>(
        span: Span,
        object: Expression<'a>,
        expression: Expression<'a>,
        value: Expression<'a>,
    ) -> (assignment: Expression<'a>)
        ensures
            assignment@ == element_assignment(span, object@, expression@, value@),
    {
        let member = Self::element(object, expression);
        let target = AssignmentTarget::ComputedMember(member);
        assert(target@ == TargetView::ComputedMember(member@));
        Expression::Assignment { span, target, right: Box::new(value) }
    }
}

/// What is known of the member before the one that is transformed.
struct PreviousMember<'a> {
    /// Its value, where that is a known number. A member without an initializer is one
    /// more, so that before the first member, which is then zero, this is minus one.
    prev_constant_number: Option<Number>,
    /// Its name, where there is a member before.
    prev_member_name: Option<&'a str>,
}

impl<'a> PreviousMember<'a> {
    spec fn progress(self, tables: ScopingView) -> Progress {
        Progress {
            tables,
            number: self.prev_constant_number,
            name: match self.prev_member_name {
                Some(name) => Some(name@),
                None => None,
            },
        }
    }
}

/// Of the declarations without `declare`, all are lowered, but for those of `const enum`s
/// where they are to be removed.
pub proof fn modifiers_decide_what_is_lowered(transform: TypeScriptEnum, decl: EnumView)
    ensures
        decl.declare ==> !transform.lowers(decl),
        !decl.declare && !decl.is_const ==> transform.lowers(decl),
        !decl.declare && decl.is_const ==> (transform.lowers(decl) <==> !transform.optimizes()),
{
}

/// A variable that uses are made from keeps its name and its symbol.
pub proof fn variable_views_are_complete(variable: BoundIdentifier)
    ensures
        variable@.name == variable.name@,
        variable@.symbol_id == variable.symbol_id,
{
}

} // verus!
