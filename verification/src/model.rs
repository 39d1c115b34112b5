//! What an enum declaration becomes.
//!
//! ```ts
//! enum Foo { X = 1, Y }
//! ```
//! becomes
//! ```js
//! var Foo = ((Foo) => {
//!   Foo[Foo["X"] = 1] = "X";
//!   Foo[Foo["Y"] = 2] = "Y";
//!   return Foo;
//! })(Foo || {});
//! ```
//!
//! Every identifier that is built has an entry of its own in the reference table. The
//! functions here come in pairs: one gives the node that is built over given tables,
//! the other, whose name starts with `after`, gives the tables afterwards.

use crate::ast::ArrowFunctionView;
use crate::ast::BindingView;
use crate::ast::ComputedMemberView;
use crate::ast::DeclarationView;
use crate::ast::EnumView;
use crate::ast::ExpressionView;
use crate::ast::IdentifierView;
use crate::ast::MemberView;
use crate::ast::NodeKind;
use crate::ast::SourceView;
use crate::ast::Span;
use crate::ast::StatementView;
use crate::ast::StaticMemberView;
use crate::ast::TargetView;
use crate::ast::VariableDeclarationKind;
use crate::ast::VariableView;
use crate::number::Number;
use crate::rename::RenameView;
use crate::scoping::name_fits;
use crate::scoping::ConstantView;
use crate::scoping::ScopingView;
use crate::scoping::CONST_ENUM;
use crate::scoping::FUNCTION_SCOPED_VARIABLE;
use crate::scoping::READ;
use crate::scoping::REGULAR_ENUM;
use crate::scoping::SYMBOL_LIMIT;
use crate::scoping::TOP;
use crate::scoping::WRITE;
use vstd::prelude::*;

verus! {

/// A variable, by its name and its symbol.
pub struct BoundView {
    pub name: Seq<char>,
    pub symbol_id: u32,
}

impl BoundView {
    /// A use of the variable, which takes the next entry of the reference table.
    pub open spec fn reference(self, span: Span, tables: ScopingView) -> IdentifierView {
        IdentifierView { span, name: self.name, reference_id: Some(tables.next_reference()) }
    }

    /// A use of the variable that reads it.
    pub open spec fn read(self, tables: ScopingView) -> ExpressionView {
        ExpressionView::Identifier(self.reference(Span::empty(), tables))
    }

    pub open spec fn after_read(self, tables: ScopingView) -> ScopingView {
        tables.with_bound_reference(self.symbol_id, READ)
    }
}

/// A string literal.
pub open spec fn string(text: Seq<char>) -> ExpressionView {
    ExpressionView::StringLiteral { span: Span::empty(), text }
}

/// `object[expression]`
pub open spec fn element(
    object: ExpressionView,
    expression: ExpressionView,
) -> ComputedMemberView {
    ComputedMemberView {
        span: Span::empty(),
        object: Box::new(object),
        expression: Box::new(expression),
    }
}

/// `object[expression] = value`
pub open spec fn element_assignment(
    span: Span,
    object: ExpressionView,
    expression: ExpressionView,
    value: ExpressionView,
) -> ExpressionView {
    ExpressionView::Assignment {
        span,
        target: TargetView::ComputedMember(element(object, expression)),
        right: Box::new(value),
    }
}

/// A numeric literal.
pub open spec fn numeric_literal(value: Number) -> ExpressionView {
    ExpressionView::NumericLiteral { span: Span::empty(), value }
}

/// The expression for the absolute value of a number: a literal, or the identifier
/// `Infinity`.
pub open spec fn unsigned_numeral(value: Number, tables: ScopingView) -> ExpressionView {
    if value.is_infinite() {
        ExpressionView::Identifier(
            IdentifierView {
                span: Span::empty(),
                name: "Infinity"@,
                reference_id: Some(tables.next_reference()),
            },
        )
    } else if value.is_negative() {
        numeric_literal(value.opposite())
    } else {
        numeric_literal(value)
    }
}

/// The expression for a number. No literal is negative: `-1` is the negation of `1`.
pub open spec fn numeral(value: Number, tables: ScopingView) -> ExpressionView {
    if value.is_negative() {
        ExpressionView::UnaryNegation {
            span: Span::empty(),
            argument: Box::new(unsigned_numeral(value, tables)),
        }
    } else {
        unsigned_numeral(value, tables)
    }
}

/// The identifier `Infinity` refers to whatever has that name in the current scope.
pub open spec fn after_numeral(value: Number, tables: ScopingView) -> ScopingView {
    if value.is_infinite() {
        tables.with_reference(
            "Infinity"@,
            tables.resolve(tables.current_scope, "Infinity"@),
            READ,
        )
    } else {
        tables
    }
}

/// The expression for a constant value.
pub open spec fn constant(value: ConstantView, tables: ScopingView) -> ExpressionView {
    match value {
        ConstantView::Number(value) => numeral(value, tables),
        ConstantView::String(text) => string(text),
    }
}

pub open spec fn after_constant(value: ConstantView, tables: ScopingView) -> ScopingView {
    match value {
        ConstantView::Number(value) => after_numeral(value, tables),
        ConstantView::String(text) => tables,
    }
}

/// The constant value of the member that `name` is bound to in the scope of an enum
/// body.
pub open spec fn member_value(
    tables: ScopingView,
    scope_id: u32,
    name: Seq<char>,
) -> Option<ConstantView> {
    match tables.binding(scope_id, name) {
        Some(symbol_id) => if tables.enum_values.contains_key(symbol_id) {
            Some(tables.enum_values[symbol_id])
        } else {
            None
        },
        None => None,
    }
}

/// The body of an enum: its scope, and the parameter that stands for the enum inside
/// the function that the body becomes.
pub struct BodyView {
    pub scope_id: u32,
    pub param: BoundView,
}

impl BodyView {
    /// How members are qualified inside the body.
    pub open spec fn renaming(self, tables: ScopingView) -> RenameView {
        RenameView { enum_name: self.param.name, enum_scope_id: self.scope_id, tables }
    }

    /// Whether a member can be lowered: where its initializer has no constant value,
    /// the initializer is visited.
    pub open spec fn can_lower(self, member: MemberView, tables: ScopingView) -> bool {
        &&& name_fits(member.name)
        &&& match member.initializer {
            Some(initializer) => member_value(tables, self.scope_id, member.name) is None
                ==> self.renaming(tables).can_visit(initializer, seq![self.scope_id]),
            None => true,
        }
    }

    /// Whether the members of the body can be lowered.
    pub open spec fn can_lower_all(self, members: Seq<MemberView>, tables: ScopingView) -> bool {
        &&& tables.wf()
        &&& tables.has_scope(self.scope_id)
        &&& tables.has_symbol(self.param.symbol_id)
        &&& tables.has_room(3 * members.len() + 1)
        &&& forall|i: int| 0 <= i < members.len() ==> self.can_lower(#[trigger] members[i], tables)
    }

    /// What is known after the first `count` members.
    pub open spec fn progress(
        self,
        members: Seq<MemberView>,
        tables: ScopingView,
        count: nat,
    ) -> Progress
        decreases count,
    {
        if count == 0 {
            Progress { tables, number: Some(Number::minus_one()), name: None }
        } else {
            self.progress(members, tables, (count - 1) as nat).next(self, members[count - 1])
        }
    }

    /// The statements of the function: one for each member, and `return param`.
    pub open spec fn statements(
        self,
        members: Seq<MemberView>,
        tables: ScopingView,
    ) -> Seq<StatementView> {
        Seq::new(
            members.len(),
            |i: int| self.progress(members, tables, i as nat).statement(self, members[i]),
        ).push(
            StatementView::Return {
                span: Span::empty(),
                argument: self.param.read(
                    self.progress(members, tables, members.len()).tables,
                ),
            },
        )
    }

    pub open spec fn after_statements(
        self,
        members: Seq<MemberView>,
        tables: ScopingView,
    ) -> ScopingView {
        self.param.after_read(self.progress(members, tables, members.len()).tables)
    }
}

/// What is known before a member is lowered.
pub struct Progress {
    pub tables: ScopingView,
    /// The value of the previous member, where it is a known number. Before the first
    /// member, minus one.
    pub number: Option<Number>,
    /// The name of the previous member.
    pub name: Option<Seq<char>>,
}

impl Progress {
    /// The value that a member is initialized with.
    pub open spec fn init(self, body: BodyView, member: MemberView) -> ExpressionView {
        match member.initializer {
            Some(initializer) => match member_value(self.tables, body.scope_id, member.name) {
                Some(value) => constant(value, self.tables),
                None => ExpressionView::Source(
                    body.renaming(self.tables).rename(initializer, seq![body.scope_id]),
                ),
            },
            None => match (self.number, self.name) {
                // The previous number plus one,
                (Some(number), _) => numeral(number.plus_one(), self.tables),
                // `1 + param["name"]`,
                (None, Some(name)) => ExpressionView::Addition {
                    span: Span::empty(),
                    left: Box::new(numeric_literal(Number::one())),
                    right: Box::new(
                        ExpressionView::ComputedMember(
                            element(body.param.read(self.tables), string(name)),
                        ),
                    ),
                },
                // or zero.
                (None, None) => numeric_literal(Number::zero()),
            },
        }
    }

    pub open spec fn after_init(self, body: BodyView, member: MemberView) -> ScopingView {
        match member.initializer {
            Some(initializer) => match member_value(self.tables, body.scope_id, member.name) {
                Some(value) => after_constant(value, self.tables),
                None => self.tables,
            },
            None => match (self.number, self.name) {
                (Some(number), _) => after_numeral(number.plus_one(), self.tables),
                (None, Some(name)) => body.param.after_read(self.tables),
                (None, None) => self.tables,
            },
        }
    }

    /// The value of the member, where it is a known number.
    pub open spec fn number_of(self, body: BodyView, member: MemberView) -> Option<Number> {
        match member.initializer {
            Some(initializer) => match member_value(self.tables, body.scope_id, member.name) {
                Some(ConstantView::Number(value)) => Some(value),
                _ => None,
            },
            None => match self.number {
                Some(number) => Some(number.plus_one()),
                None => None,
            },
        }
    }

    /// `param["name"] = init`
    pub open spec fn assignment(self, body: BodyView, member: MemberView) -> ExpressionView {
        element_assignment(
            member.span,
            body.param.read(self.after_init(body, member)),
            string(member.name),
            self.init(body, member),
        )
    }

    pub open spec fn after_assignment(self, body: BodyView, member: MemberView) -> ScopingView {
        body.param.after_read(self.after_init(body, member))
    }

    /// `param[param["name"] = init] = "name"`, or `param["name"] = init` for a string.
    pub open spec fn statement(self, body: BodyView, member: MemberView) -> StatementView {
        StatementView::Expression {
            span: member.span,
            expression: if self.init(body, member).is_string() {
                self.assignment(body, member)
            } else {
                element_assignment(
                    member.span,
                    body.param.read(self.after_assignment(body, member)),
                    self.assignment(body, member),
                    string(member.name),
                )
            },
        }
    }

    pub open spec fn after_statement(self, body: BodyView, member: MemberView) -> ScopingView {
        if self.init(body, member).is_string() {
            self.after_assignment(body, member)
        } else {
            body.param.after_read(self.after_assignment(body, member))
        }
    }

    /// What is known after the member.
    pub open spec fn next(self, body: BodyView, member: MemberView) -> Progress {
        Progress {
            tables: self.after_statement(body, member),
            number: self.number_of(body, member),
            name: Some(member.name),
        }
    }
}

impl Progress {
    /// Lowering a member adds at most three references, and changes nothing else.
    pub proof fn lemma_next(self, body: BodyView, member: MemberView, room: nat)
        requires
            self.tables.wf(),
            self.tables.has_symbol(body.param.symbol_id),
            self.tables.has_room(room + 3),
        ensures
            self.next(body, member).tables.wf(),
            self.next(body, member).tables.extends(self.tables),
            self.next(body, member).tables.has_room(room),
    {
        let t0 = self.tables;
        let param = Some(body.param.symbol_id);
        let infinity = t0.resolve(t0.current_scope, "Infinity"@);
        t0.lemma_lookup(t0.current_scope, "Infinity"@, t0.scope_bindings.len());
        t0.lemma_with_reference("Infinity"@, infinity, READ, room + 2);
        t0.lemma_with_reference(seq![], param, READ, room + 2);
        t0.lemma_less_room(room + 3, room + 2);
        let t1 = self.after_init(body, member);
        t1.lemma_with_reference(seq![], param, READ, room + 1);
        let t2 = self.after_assignment(body, member);
        t2.lemma_less_room(room + 1, room);
        t2.lemma_with_reference(seq![], param, READ, room);
    }
}

impl BodyView {
    /// Lowering some members adds at most three references for each of them, and
    /// changes nothing else.
    pub proof fn lemma_progress(
        self,
        members: Seq<MemberView>,
        tables: ScopingView,
        count: nat,
        room: nat,
    )
        requires
            tables.wf(),
            tables.has_symbol(self.param.symbol_id),
            tables.has_room(3 * count + room),
        ensures
            self.progress(members, tables, count).tables.wf(),
            self.progress(members, tables, count).tables.extends(tables),
            self.progress(members, tables, count).tables.has_room(room),
        decreases count,
    {
        if count > 0 {
            let before = self.progress(members, tables, (count - 1) as nat);
            self.lemma_progress(members, tables, (count - 1) as nat, room + 3);
            before.lemma_next(self, members[count - 1], room);
        }
    }

    /// A member can still be lowered when references have been added.
    pub proof fn lemma_can_lower_extends(
        self,
        member: MemberView,
        tables: ScopingView,
        after: ScopingView,
    )
        requires
            after.extends(tables),
            self.can_lower(member, tables),
        ensures
            self.can_lower(member, after),
    {
        if let Some(initializer) = member.initializer {
            if member_value(tables, self.scope_id, member.name) is None {
                self.renaming(tables).lemma_can_visit_extends(
                    after,
                    initializer,
                    seq![self.scope_id],
                );
            }
        }
    }
}

/// Whether an initializer is a call or an instantiation.
pub open spec fn may_have_side_effect(member: MemberView) -> bool {
    member.initializer matches Some(SourceView::Node { kind, .. }) && (kind
        == NodeKind::NewExpression || kind == NodeKind::CallExpression)
}

impl EnumView {
    /// The variable that the enum declares.
    pub open spec fn variable(self) -> BoundView {
        BoundView { name: self.id.name, symbol_id: self.id.symbol_id }
    }

    /// The body of the function, whose parameter is a new symbol.
    pub open spec fn body(self, tables: ScopingView) -> BodyView {
        BodyView {
            scope_id: self.scope_id,
            param: BoundView {
                name: self.id.name,
                symbol_id: tables.symbol_names.len() as u32,
            },
        }
    }

    /// The tables with the parameter of the function, which has the name of the enum.
    pub open spec fn with_param(self, tables: ScopingView) -> ScopingView {
        tables.with_binding(self.id.name, self.scope_id, FUNCTION_SCOPED_VARIABLE)
    }

    /// Whether the enum can be lowered.
    pub open spec fn can_lower(self, tables: ScopingView) -> bool {
        &&& tables.wf()
        &&& tables.has_scope(self.scope_id)
        &&& tables.has_symbol(self.id.symbol_id)
        &&& tables.symbol_names.len() < SYMBOL_LIMIT
        &&& tables.has_room(3 * self.members.len() + 3)
        &&& name_fits(self.id.name)
        &&& forall|i: int|
            0 <= i < self.members.len() ==> self.body(tables).can_lower(
                #[trigger] self.members[i],
                self.with_param(tables),
            )
    }

    /// Whether the variable has been declared before this declaration.
    pub open spec fn is_already_declared(self, tables: ScopingView) -> bool {
        &&& tables.redeclarations.contains_key(self.id.symbol_id)
        &&& tables.redeclarations[self.id.symbol_id].len() > 0
        &&& tables.redeclarations[self.id.symbol_id][0] != self.id.span
    }

    /// Whether the declaration is local to a block or to a module: it is exported, or
    /// not in a top-level scope.
    pub open spec fn is_local(self, exported: bool, tables: ScopingView) -> bool {
        exported || tables.scope_flags[tables.current_scope as int] & TOP != TOP
    }

    /// The arrow function that the body becomes.
    pub open spec fn function(self, tables: ScopingView) -> ExpressionView {
        let body = self.body(tables);
        ExpressionView::ArrowFunction(
            ArrowFunctionView {
                span: self.span,
                param: BindingView {
                    span: Span::empty(),
                    name: body.param.name,
                    symbol_id: body.param.symbol_id,
                },
                body_span: self.span,
                statements: body.statements(self.members, self.with_param(tables)),
                scope_id: self.scope_id,
            },
        )
    }

    pub open spec fn after_function(self, tables: ScopingView) -> ScopingView {
        self.body(tables).after_statements(self.members, self.with_param(tables))
    }

    /// What the function is called with: `{}` where the enum cannot have a value yet,
    /// else `Foo || {}`.
    pub open spec fn argument(self, exported: bool, tables: ScopingView) -> ExpressionView {
        if self.is_local(exported, tables) && !self.is_already_declared(tables) {
            ExpressionView::EmptyObject { span: Span::empty() }
        } else {
            ExpressionView::LogicalOr {
                span: self.span,
                left: Box::new(
                    ExpressionView::Identifier(
                        self.variable().reference(self.id.span, self.after_function(tables)),
                    ),
                ),
                right: Box::new(ExpressionView::EmptyObject { span: Span::empty() }),
            }
        }
    }

    pub open spec fn after_argument(self, exported: bool, tables: ScopingView) -> ScopingView {
        if self.is_local(exported, tables) && !self.is_already_declared(tables) {
            self.after_function(tables)
        } else {
            self.variable().after_read(self.after_function(tables))
        }
    }

    /// The call of the function. It is pure unless an initializer may have a side
    /// effect.
    pub open spec fn call(self, exported: bool, tables: ScopingView) -> ExpressionView {
        ExpressionView::Call {
            span: self.span,
            callee: Box::new(self.function(tables)),
            argument: Box::new(self.argument(exported, tables)),
            pure: !(exists|i: int|
                0 <= i < self.members.len() && may_have_side_effect(#[trigger] self.members[i])),
        }
    }

    /// The statement that takes the place of the declaration: an assignment where the
    /// variable is already declared, else a declaration of it.
    pub open spec fn lowered(
        self,
        export_span: Option<Span>,
        tables: ScopingView,
    ) -> StatementView {
        let exported = export_span is Some;
        let call = self.call(exported, tables);
        if self.is_already_declared(tables) {
            StatementView::Expression {
                span: self.span,
                expression: ExpressionView::Assignment {
                    span: self.span,
                    target: TargetView::Identifier(
                        self.variable().reference(
                            self.id.span,
                            self.after_argument(exported, tables),
                        ),
                    ),
                    right: Box::new(call),
                },
            }
        } else {
            let declaration = VariableView {
                span: self.span,
                kind: if self.is_local(exported, tables) {
                    VariableDeclarationKind::Let
                } else {
                    VariableDeclarationKind::Var
                },
                declarator_span: self.span,
                id: self.id,
                init: call,
            };
            match export_span {
                Some(span) => StatementView::ExportNamedDeclaration {
                    span,
                    declaration: Some(DeclarationView::VariableDeclaration(declaration)),
                },
                None => StatementView::VariableDeclaration(declaration),
            }
        }
    }

    pub open spec fn after_lowered(self, exported: bool, tables: ScopingView) -> ScopingView {
        if self.is_already_declared(tables) {
            self.after_argument(exported, tables).with_bound_reference(self.id.symbol_id, WRITE)
        } else {
            self.after_argument(exported, tables)
        }
    }
}

impl EnumView {
    /// Lowering the body adds the parameter and references, and changes nothing else.
    pub proof fn lemma_after_function(self, tables: ScopingView)
        requires
            self.can_lower(tables),
        ensures
            self.body(tables).can_lower_all(self.members, self.with_param(tables)),
            self.after_function(tables).wf(),
            self.after_function(tables).has_room(2),
            self.after_function(tables).extends(self.with_param(tables)),
    {
        let room = 3 * self.members.len() + 3;
        let body = self.body(tables);
        let before = self.with_param(tables);
        tables.lemma_with_binding(self.id.name, self.scope_id, FUNCTION_SCOPED_VARIABLE, room);
        before.lemma_less_room(room, 3 * self.members.len() + 1);
        body.lemma_progress(self.members, before, self.members.len(), 3);
        let last = body.progress(self.members, before, self.members.len()).tables;
        last.lemma_with_reference(seq![], Some(body.param.symbol_id), READ, 2);
    }
}

/// The constant value of the member `name` in the first of some enum bodies in which
/// it is known.
pub open spec fn first_member_value(
    tables: ScopingView,
    scopes: Seq<u32>,
    name: Seq<char>,
) -> Option<ConstantView>
    decreases scopes.len(),
{
    if scopes.len() == 0 {
        None
    } else {
        match member_value(tables, scopes[0], name) {
            Some(value) => Some(value),
            None => first_member_value(tables, scopes.drop_first(), name),
        }
    }
}

impl StaticMemberView {
    /// Whether the tables have what the access refers to: the object, and where it is an
    /// enum, its bodies and the member in them.
    pub open spec fn can_inline(self, tables: ScopingView) -> bool {
        &&& name_fits(self.property.name)
        &&& match *self.object {
            SourceView::Identifier(identifier) => match identifier.reference_id {
                Some(reference_id) => tables.can_resolve(reference_id),
                None => true,
            },
            _ => true,
        }
        &&& match self.object_symbol(tables) {
            Some(symbol_id) => {
                &&& symbol_id < tables.symbol_flags.len()
                &&& tables.enum_bodies.contains_key(symbol_id) ==> forall|i: int|
                    0 <= i < tables.enum_bodies[symbol_id].len() ==> tables.can_look_up(
                        #[trigger] tables.enum_bodies[symbol_id][i],
                        self.property.name,
                    )
            },
            None => true,
        }
    }

    /// The symbol that the object is resolved to, where it is an identifier.
    pub open spec fn object_symbol(self, tables: ScopingView) -> Option<u32> {
        match *self.object {
            SourceView::Identifier(identifier) => match identifier.reference_id {
                Some(reference_id) => tables.references[reference_id as int].0,
                None => None,
            },
            _ => None,
        }
    }

    /// The constant value of an access to a member of an enum.
    pub open spec fn inlined(self, tables: ScopingView) -> Option<ConstantView> {
        match self.object_symbol(tables) {
            Some(symbol_id) => {
                let flags = tables.symbol_flags[symbol_id as int];
                if (flags & CONST_ENUM != 0 || flags & REGULAR_ENUM == REGULAR_ENUM)
                    && tables.enum_bodies.contains_key(symbol_id) {
                    first_member_value(tables, tables.enum_bodies[symbol_id], self.property.name)
                } else {
                    None
                }
            },
            None => None,
        }
    }
}

} // verus!
