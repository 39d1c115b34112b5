//! What holds of the transform as a whole, whatever the program.

use crate::ast::DeclarationView;
use crate::ast::EnumView;
use crate::ast::ExpressionView;
use crate::ast::IdentifierView;
use crate::ast::MemberView;
use crate::ast::NameView;
use crate::ast::PartView;
use crate::ast::SourceView;
use crate::ast::Span;
use crate::ast::StatementView;
use crate::ast::StaticMemberView;
use crate::ast::TargetView;
use crate::ast::VariableDeclarationKind;
use crate::model::after_constant;
use crate::model::constant;
use crate::model::element;
use crate::model::element_assignment;
use crate::model::first_member_value;
use crate::model::may_have_side_effect;
use crate::model::member_value;
use crate::model::numeral;
use crate::model::numeric_literal;
use crate::model::string;
use crate::model::BodyView;
use crate::model::Progress;
use crate::number::exact_sum_is_kept;
use crate::number::integers_count_up;
use crate::number::Number;
use crate::number::HIDDEN;
use crate::number::INFINITE;
use crate::rename::RenameView;
use crate::scoping::ConstantView;
use crate::scoping::ScopingView;
use crate::scoping::CONST_ENUM;
use crate::scoping::ENUM_MEMBER;
use crate::scoping::FUNCTION_SCOPED_VARIABLE;
use crate::scoping::READ;
use crate::scoping::REGULAR_ENUM;
use crate::scoping::WRITE;
use vstd::arithmetic::power2::lemma2_to64_rest;
use vstd::arithmetic::power2::lemma_pow2_adds;
use vstd::prelude::*;

verus! {

/// The number that a numeral denotes, where `Infinity` has its usual value.
pub open spec fn denoted(expression: ExpressionView) -> Option<Number>
    decreases expression,
{
    match expression {
        ExpressionView::NumericLiteral { value, .. } => Some(value),
        ExpressionView::Identifier(identifier) if identifier.name == "Infinity"@ => Some(
            Number { bits: INFINITE },
        ),
        ExpressionView::UnaryNegation { argument, .. } => match denoted(*argument) {
            Some(value) => Some(value.opposite()),
            None => None,
        },
        _ => None,
    }
}

/// The expression for a number denotes that number, whatever its sign and size.
pub proof fn numeral_denotes_its_number(value: Number, tables: ScopingView)
    ensures
        denoted(numeral(value, tables)) == Some(value),
{
    reveal_with_fuel(denoted, 2);
}

/// No literal is negative: a minus sign is an operator of its own.
pub proof fn literals_are_not_negative(value: Number, tables: ScopingView)
    ensures
        match numeral(value, tables) {
            ExpressionView::NumericLiteral { value: literal, .. } => !literal.is_negative(),
            ExpressionView::UnaryNegation { argument, .. } => match *argument {
                ExpressionView::NumericLiteral { value: literal, .. } => !literal.is_negative(),
                _ => value.is_infinite(),
            },
            _ => value.is_infinite(),
        },
{
}

/// Minus one plus one is zero.
proof fn lemma_minus_one_plus_one()
    ensures
        Number::minus_one().plus_one() == Number::zero(),
        Number::minus_one().has_value(-1),
{
    lemma2_to64_rest();
    lemma_pow2_adds(52, 1022);
    exact_sum_is_kept(Number::minus_one(), Number::zero());
}

/// A first member without an initializer is zero.
pub proof fn first_member_is_zero(body: BodyView, members: Seq<MemberView>, tables: ScopingView)
    requires
        members.len() > 0,
        members[0].initializer is None,
    ensures
        body.progress(members, tables, 0).init(body, members[0]) == numeric_literal(Number::zero()),
        body.progress(members, tables, 1).number == Some(Number::zero()),
{
    lemma_minus_one_plus_one();
    reveal_with_fuel(BodyView::progress, 2);
}

/// A member without an initializer is one more than a member before it whose value is
/// a known number.
pub proof fn next_member_is_one_more(
    body: BodyView,
    members: Seq<MemberView>,
    tables: ScopingView,
    i: nat,
    value: Number,
)
    requires
        i < members.len(),
        members[i as int].initializer is None,
        body.progress(members, tables, i).number == Some(value),
    ensures
        ({
            let before = body.progress(members, tables, i);
            before.init(body, members[i as int]) == numeral(value.plus_one(), before.tables)
        }),
        body.progress(members, tables, i + 1).number == Some(value.plus_one()),
{
}

/// From an integer on, members without initializers count up, as long as the
/// integers are all exact.
pub proof fn members_count_up(
    body: BodyView,
    members: Seq<MemberView>,
    tables: ScopingView,
    first: nat,
    i: nat,
    value: int,
)
    requires
        first <= i <= members.len(),
        forall|j: int| first <= j < i ==> (#[trigger] members[j]).initializer is None,
        body.progress(members, tables, first).number matches Some(number) && number.has_value(
            value,
        ),
        -2 * HIDDEN <= value,
        value + (i - first) <= 2 * HIDDEN,
    ensures
        body.progress(members, tables, i).number matches Some(number) && number.has_value(
            value + (i - first),
        ),
    decreases i - first,
{
    if first < i {
        let before = (i - 1) as nat;
        members_count_up(body, members, tables, first, before, value);
        let number = body.progress(members, tables, before).number->0;
        integers_count_up(number, value + (before - first));
    }
}

/// Where no member has an initializer, each is the number of members before it.
pub proof fn members_count_from_zero(
    body: BodyView,
    members: Seq<MemberView>,
    tables: ScopingView,
    i: nat,
)
    requires
        i < members.len() <= 2 * HIDDEN,
        forall|j: int| 0 <= j < members.len() ==> (#[trigger] members[j]).initializer is None,
    ensures
        body.progress(members, tables, i + 1).number matches Some(number) && number.has_value(
            i as int,
        ),
{
    lemma_minus_one_plus_one();
    members_count_up(body, members, tables, 0, i + 1, -1);
}

/// A member without an initializer, after one whose value is not a known number, is
/// computed from that one: `1 + Foo["previous"]`.
pub proof fn member_after_unknown_is_computed(
    body: BodyView,
    members: Seq<MemberView>,
    tables: ScopingView,
    i: nat,
)
    requires
        0 < i < members.len(),
        members[i as int].initializer is None,
        body.progress(members, tables, i).number is None,
    ensures
        ({
            let before = body.progress(members, tables, i);
            before.init(body, members[i as int]) == ExpressionView::Addition {
                span: Span::empty(),
                left: Box::new(numeric_literal(Number::one())),
                right: Box::new(
                    ExpressionView::ComputedMember(
                        element(body.param.read(before.tables), string(members[i - 1].name)),
                    ),
                ),
            }
        }),
        body.progress(members, tables, i + 1).number is None,
{
}

/// The function has one statement for each member, in the order of the members, and
/// returns its parameter.
pub proof fn each_member_has_a_statement(
    body: BodyView,
    members: Seq<MemberView>,
    tables: ScopingView,
)
    ensures
        body.statements(members, tables).len() == members.len() + 1,
        forall|i: int|
            0 <= i < members.len() ==> #[trigger] body.statements(members, tables)[i]
                == body.progress(members, tables, i as nat).statement(body, members[i]),
        body.statements(members, tables).last() matches StatementView::Return {
            argument: ExpressionView::Identifier(identifier),
            ..
        } && identifier.name == body.param.name,
{
}

/// A member whose value is a constant string is not mapped back to its name. One
/// whose value is a known number is, whether the number is written down or not.
pub proof fn numbers_are_mapped_back(before: Progress, body: BodyView, member: MemberView)
    ensures
        before.number_of(body, member) is Some ==> before.statement(body, member)
            == (StatementView::Expression {
            span: member.span,
            expression: element_assignment(
                member.span,
                body.param.read(before.after_assignment(body, member)),
                before.assignment(body, member),
                string(member.name),
            ),
        }),
        member.initializer is Some ==> match member_value(
            before.tables,
            body.scope_id,
            member.name,
        ) {
            Some(ConstantView::String(text)) => before.statement(body, member) == (
            StatementView::Expression {
                span: member.span,
                expression: element_assignment(
                    member.span,
                    body.param.read(before.tables),
                    string(member.name),
                    string(text),
                ),
            }),
            _ => true,
        },
{
}

/// Lowering an enum adds one symbol, the parameter of the function, and references.
/// No scope, no other symbol and no reference that was there changes, but that the
/// scope of the body binds the name of the enum to the parameter.
pub proof fn lowering_adds_one_symbol(decl: EnumView, exported: bool, tables: ScopingView)
    requires
        decl.can_lower(tables),
    ensures
        decl.after_lowered(exported, tables).wf(),
        decl.after_lowered(exported, tables).extends(decl.with_param(tables)),
        decl.after_lowered(exported, tables).symbol_names == tables.symbol_names.push(decl.id.name),
{
    decl.lemma_after_function(tables);
    let t1 = decl.after_function(tables);
    t1.lemma_with_reference(seq![], Some(decl.id.symbol_id), READ, 1);
    let t2 = decl.after_argument(exported, tables);
    t1.lemma_less_room(2, 1);
    t2.lemma_with_reference(seq![], Some(decl.id.symbol_id), WRITE, 0);
}

/// The statement that takes the place of an enum declaration declares no enum, so that
/// lowering is over in one step.
pub proof fn lowered_enum_is_no_enum(
    decl: EnumView,
    export_span: Option<Span>,
    tables: ScopingView,
)
    ensures
        decl.lowered(export_span, tables).enum_declaration() is None,
{
}

/// An enum that is declared again adds to the object that it has: the function is
/// called with a use of the variable that reads it, and the result is assigned to a
/// use that writes it.
pub proof fn redeclared_enum_is_merged(
    decl: EnumView,
    export_span: Option<Span>,
    tables: ScopingView,
)
    requires
        decl.can_lower(tables),
        decl.is_already_declared(tables),
    ensures
        ({
            let after = decl.after_lowered(export_span is Some, tables);
            let symbol_id = Some(decl.id.symbol_id);
            &&& decl.lowered(export_span, tables) matches StatementView::Expression {
                expression: ExpressionView::Assignment {
                    target: TargetView::Identifier(written),
                    right,
                    ..
                },
                ..
            }
            &&& *right matches ExpressionView::Call { argument, .. }
            &&& *argument matches ExpressionView::LogicalOr { left, right: object, .. }
            &&& *left matches ExpressionView::Identifier(read)
            &&& *object is EmptyObject
            &&& read.reference_id matches Some(id) && after.references[id as int] == (
                symbol_id,
                tables.current_scope,
                READ,
            )
            &&& written.reference_id matches Some(id) && after.references[id as int] == (
                symbol_id,
                tables.current_scope,
                WRITE,
            )
        }),
{
    decl.lemma_after_function(tables);
}

/// An enum that is not declared before is declared by a variable of its own, which is
/// exported where the enum is. Where the enum is exported or not at the top level, the
/// function gets a new object.
pub proof fn new_enum_is_declared(decl: EnumView, export_span: Option<Span>, tables: ScopingView)
    requires
        !decl.is_already_declared(tables),
    ensures
        ({
            let exported = export_span is Some;
            let call = decl.call(exported, tables);
            let variable = match decl.lowered(export_span, tables) {
                StatementView::VariableDeclaration(variable) => Some((variable, None)),
                StatementView::ExportNamedDeclaration {
                    span,
                    declaration: Some(DeclarationView::VariableDeclaration(variable)),
                } => Some((variable, Some(span))),
                _ => None,
            };
            &&& variable matches Some((variable, span))
            &&& span == export_span
            &&& variable.id == decl.id
            &&& variable.init == call
            &&& call matches ExpressionView::Call { argument, .. }
            &&& if decl.is_local(exported, tables) {
                variable.kind == VariableDeclarationKind::Let && *argument is EmptyObject
            } else {
                variable.kind == VariableDeclarationKind::Var && *argument is LogicalOr
            }
        }),
{
}

/// The call is marked as free of side effects exactly where no initializer is itself a
/// call or an instantiation.
pub proof fn call_is_pure_without_calls(decl: EnumView, exported: bool, tables: ScopingView)
    ensures
        decl.call(exported, tables) matches ExpressionView::Call { pure, .. } && pure == (forall|
            i: int,
        |
            0 <= i < decl.members.len() ==> !may_have_side_effect(#[trigger] decl.members[i])),
{
}

/// The name of the enum stands for the parameter inside the body, even where a member
/// has the same name.
pub proof fn parameter_is_no_member(decl: EnumView, tables: ScopingView)
    requires
        decl.can_lower(tables),
    ensures
        !decl.body(tables).renaming(decl.with_param(tables)).names_member(decl.id.name),
{
    assert(FUNCTION_SCOPED_VARIABLE & ENUM_MEMBER != ENUM_MEMBER) by (bit_vector);
}

impl RenameView {
    /// Whether an identifier in an expression inside `scopes` stands for a member.
    pub open spec fn mentions_member(self, expression: SourceView, scopes: Seq<u32>) -> bool
        decreases expression,
    {
        match expression {
            SourceView::Identifier(identifier) => self.refers_to_member(identifier, scopes),
            SourceView::StaticMember(member) => self.mentions_member(*member.object, scopes),
            SourceView::Node { kind, id, parts } => self.parts_mention_member(parts, scopes),
        }
    }

    pub open spec fn part_mentions_member(self, part: PartView, scopes: Seq<u32>) -> bool
        decreases part,
    {
        match part {
            PartView::Expression(expression) => self.mentions_member(expression, scopes),
            PartView::Scope { scope_id, parts } => self.parts_mention_member(
                parts,
                scopes.push(scope_id),
            ),
        }
    }

    pub open spec fn parts_mention_member(self, parts: Seq<PartView>, scopes: Seq<u32>) -> bool
        decreases parts,
    {
        exists|i: int|
            0 <= i < parts.len() && self.part_mentions_member(#[trigger] parts[i], scopes)
    }

    /// An expression that mentions no member stays as it is.
    pub proof fn other_expressions_stay(self, expression: SourceView, scopes: Seq<u32>)
        requires
            !self.mentions_member(expression, scopes),
        ensures
            self.rename(expression, scopes) == expression,
        decreases expression,
    {
        match expression {
            SourceView::Identifier(identifier) => {},
            SourceView::StaticMember(member) => {
                self.other_expressions_stay(*member.object, scopes);
            },
            SourceView::Node { kind, id, parts } => {
                self.lemma_other_parts_stay(parts, scopes);
            },
        }
    }

    proof fn lemma_other_part_stays(self, part: PartView, scopes: Seq<u32>)
        requires
            !self.part_mentions_member(part, scopes),
        ensures
            self.rename_part(part, scopes) == part,
        decreases part,
    {
        match part {
            PartView::Expression(expression) => {
                self.other_expressions_stay(expression, scopes);
            },
            PartView::Scope { scope_id, parts } => {
                self.lemma_other_parts_stay(parts, scopes.push(scope_id));
            },
        }
    }

    proof fn lemma_other_parts_stay(self, parts: Seq<PartView>, scopes: Seq<u32>)
        requires
            !self.parts_mention_member(parts, scopes),
        ensures
            self.rename_parts(parts, scopes) == parts,
        decreases parts,
    {
        assert forall|i: int| 0 <= i < parts.len() implies self.rename_part(parts[i], scopes)
            == parts[i] by {
            self.lemma_other_part_stays(parts[i], scopes);
        }
        assert(self.rename_parts(parts, scopes) =~= parts);
    }

    /// No member is left to qualify in an expression whose members are qualified, where
    /// the name of the enum is not that of a member.
    pub proof fn members_are_qualified_once(self, expression: SourceView, scopes: Seq<u32>)
        requires
            !self.names_member(self.enum_name),
        ensures
            !self.mentions_member(self.rename(expression, scopes), scopes),
            self.rename(self.rename(expression, scopes), scopes) == self.rename(expression, scopes),
        decreases expression, 1int,
    {
        self.lemma_no_member_is_left(expression, scopes);
        self.other_expressions_stay(self.rename(expression, scopes), scopes);
    }

    proof fn lemma_no_member_is_left(self, expression: SourceView, scopes: Seq<u32>)
        requires
            !self.names_member(self.enum_name),
        ensures
            !self.mentions_member(self.rename(expression, scopes), scopes),
        decreases expression,
    {
        reveal_with_fuel(RenameView::mentions_member, 2);
        match expression {
            SourceView::Identifier(identifier) => {},
            SourceView::StaticMember(member) => {
                self.lemma_no_member_is_left(*member.object, scopes);
            },
            SourceView::Node { kind, id, parts } => {
                self.lemma_no_member_is_left_in_parts(parts, scopes);
            },
        }
    }

    proof fn lemma_no_member_is_left_in_part(self, part: PartView, scopes: Seq<u32>)
        requires
            !self.names_member(self.enum_name),
        ensures
            !self.part_mentions_member(self.rename_part(part, scopes), scopes),
        decreases part,
    {
        match part {
            PartView::Expression(expression) => {
                self.lemma_no_member_is_left(expression, scopes);
            },
            PartView::Scope { scope_id, parts } => {
                self.lemma_no_member_is_left_in_parts(parts, scopes.push(scope_id));
            },
        }
    }

    proof fn lemma_no_member_is_left_in_parts(self, parts: Seq<PartView>, scopes: Seq<u32>)
        requires
            !self.names_member(self.enum_name),
        ensures
            !self.parts_mention_member(self.rename_parts(parts, scopes), scopes),
        decreases parts,
    {
        let renamed = self.rename_parts(parts, scopes);
        assert forall|i: int| 0 <= i < renamed.len() implies !self.part_mentions_member(
            #[trigger] renamed[i],
            scopes,
        ) by {
            self.lemma_no_member_is_left_in_part(parts[i], scopes);
        }
    }

    /// A name that is resolved to a variable of a scope inside the enum stays: it
    /// stands for that variable, even where a member has the same name.
    pub proof fn inner_names_stay(
        self,
        identifier: IdentifierView,
        symbol_id: u32,
        scopes: Seq<u32>,
    )
        requires
            self.tables.references[identifier.reference_id->0 as int].0 == Some(symbol_id),
            self.tables.symbol_scopes[symbol_id as int] != self.enum_scope_id,
            scopes.contains(self.tables.symbol_scopes[symbol_id as int]),
        ensures
            self.rename(SourceView::Identifier(identifier), scopes) == SourceView::Identifier(
                identifier,
            ),
    {
    }

    /// A name of a member that is resolved to nothing, to the member itself, or to a
    /// variable around the enum, stands for the member.
    pub proof fn members_shadow_outer_names(self, identifier: IdentifierView, scopes: Seq<u32>)
        requires
            self.names_member(identifier.name),
            match self.tables.references[identifier.reference_id->0 as int].0 {
                Some(symbol_id) => {
                    let scope_id = self.tables.symbol_scopes[symbol_id as int];
                    scope_id == self.enum_scope_id || !scopes.contains(scope_id)
                },
                None => true,
            },
        ensures
            self.rename(SourceView::Identifier(identifier), scopes) == self.qualified(identifier),
    {
    }
}

/// In the initializers that a lowered enum keeps, no member is left unqualified.
pub proof fn no_member_is_left_unqualified(decl: EnumView, tables: ScopingView, i: nat)
    requires
        decl.can_lower(tables),
        i < decl.members.len(),
    ensures
        ({
            let body = decl.body(tables);
            let before = body.progress(decl.members, decl.with_param(tables), i);
            before.init(body, decl.members[i as int]) matches ExpressionView::Source(initializer)
                ==> !body.renaming(before.tables).mentions_member(initializer, seq![body.scope_id])
        }),
{
    let body = decl.body(tables);
    let start = decl.with_param(tables);
    let room = 3 * decl.members.len() + 3;
    tables.lemma_with_binding(decl.id.name, decl.scope_id, FUNCTION_SCOPED_VARIABLE, room);
    start.lemma_less_room(room, 3 * i);
    body.lemma_progress(decl.members, start, i, 0);
    parameter_is_no_member(decl, tables);
    let before = body.progress(decl.members, start, i);
    if let Some(initializer) = decl.members[i as int].initializer {
        body.renaming(before.tables).members_are_qualified_once(initializer, seq![body.scope_id]);
    }
}

impl StaticMemberView {
    /// References that are added change no constant value of an access.
    pub proof fn references_keep_inlined_value(self, tables: ScopingView, after: ScopingView)
        requires
            self.can_inline(tables),
            after.extends(tables),
        ensures
            self.inlined(after) == self.inlined(tables),
    {
        if let Some(symbol_id) = self.object_symbol(tables) {
            if tables.enum_bodies.contains_key(symbol_id) {
                lemma_same_first_value(
                    tables,
                    after,
                    tables.enum_bodies[symbol_id],
                    self.property.name,
                );
            }
        }
    }
}

/// A constant value depends on the bindings of a name and on the values of members.
proof fn lemma_same_first_value(
    tables: ScopingView,
    after: ScopingView,
    scopes: Seq<u32>,
    name: Seq<char>,
)
    requires
        forall|i: int|
            0 <= i < scopes.len() ==> after.binding(#[trigger] scopes[i], name) == tables.binding(
                scopes[i],
                name,
            ),
        after.enum_values == tables.enum_values,
    ensures
        first_member_value(after, scopes, name) == first_member_value(tables, scopes, name),
    decreases scopes.len(),
{
    if scopes.len() > 0 {
        assert(after.binding(scopes[0], name) == tables.binding(scopes[0], name));
        assert forall|i: int| 0 <= i < scopes.drop_first().len() implies after.binding(
            #[trigger] scopes.drop_first()[i],
            name,
        ) == tables.binding(scopes.drop_first()[i], name) by {
            assert(scopes.drop_first()[i] == scopes[i + 1]);
        }
        lemma_same_first_value(tables, after, scopes.drop_first(), name);
    }
}

/// Lowering an enum changes no constant value of an access, but where the member has
/// the name of the enum.
pub proof fn lowering_keeps_inlined_values(
    decl: EnumView,
    exported: bool,
    access: StaticMemberView,
    tables: ScopingView,
)
    requires
        decl.can_lower(tables),
        access.can_inline(tables),
        access.property.name != decl.id.name,
    ensures
        access.inlined(decl.after_lowered(exported, tables)) == access.inlined(tables),
{
    lowering_adds_one_symbol(decl, exported, tables);
    let after = decl.after_lowered(exported, tables);
    if let Some(symbol_id) = access.object_symbol(tables) {
        if tables.enum_bodies.contains_key(symbol_id) {
            lemma_same_first_value(
                tables,
                after,
                tables.enum_bodies[symbol_id],
                access.property.name,
            );
        }
    }
}

/// An access to a member has the value that the lowered declaration assigns to the
/// member, where the member has an initializer and not the name of the enum, and the
/// body of the declaration is the first of the enum in which its value is known.
pub proof fn inlined_value_is_assigned(
    decl: EnumView,
    access: StaticMemberView,
    tables: ScopingView,
    k: int,
    i: nat,
)
    requires
        decl.can_lower(tables),
        access.can_inline(tables),
        access.object_symbol(tables) == Some(decl.id.symbol_id),
        tables.enum_bodies.contains_key(decl.id.symbol_id),
        0 <= k < tables.enum_bodies[decl.id.symbol_id].len(),
        tables.enum_bodies[decl.id.symbol_id][k] == decl.scope_id,
        forall|j: int|
            0 <= j < k ==> member_value(
                tables,
                #[trigger] tables.enum_bodies[decl.id.symbol_id][j],
                access.property.name,
            ) is None,
        i < decl.members.len(),
        access.property.name == decl.members[i as int].name,
        access.property.name != decl.id.name,
        decl.members[i as int].initializer is Some,
        member_value(tables, decl.scope_id, access.property.name) is Some,
        access.inlined(tables) is Some,
    ensures
        ({
            let body = decl.body(tables);
            let before = body.progress(decl.members, decl.with_param(tables), i);
            let value = access.inlined(tables)->0;
            before.init(body, decl.members[i as int]) == constant(value, before.tables)
        }),
{
    let body = decl.body(tables);
    let start = decl.with_param(tables);
    let room = 3 * decl.members.len() + 3;
    tables.lemma_with_binding(decl.id.name, decl.scope_id, FUNCTION_SCOPED_VARIABLE, room);
    start.lemma_less_room(room, 3 * i);
    body.lemma_progress(decl.members, start, i, 0);
    let before = body.progress(decl.members, start, i);
    lemma_first_known_value(
        tables,
        tables.enum_bodies[decl.id.symbol_id],
        access.property.name,
        k,
        access.inlined(tables)->0,
    );
    assert(member_value(before.tables, decl.scope_id, access.property.name) == member_value(
        tables,
        decl.scope_id,
        access.property.name,
    ));
}

/// Bodies without a known value are passed over.
proof fn lemma_first_known_value(
    tables: ScopingView,
    scopes: Seq<u32>,
    name: Seq<char>,
    k: int,
    value: ConstantView,
)
    requires
        0 <= k < scopes.len(),
        forall|j: int| 0 <= j < k ==> member_value(tables, #[trigger] scopes[j], name) is None,
        first_member_value(tables, scopes, name) == Some(value),
        member_value(tables, scopes[k], name) is Some,
    ensures
        member_value(tables, scopes[k], name) == Some(value),
    decreases k,
{
    if k > 0 {
        let rest = scopes.drop_first();
        assert(member_value(tables, scopes[0], name) is None);
        assert forall|j: int| 0 <= j < k - 1 implies member_value(
            tables,
            #[trigger] rest[j],
            name,
        ) is None by {
            assert(rest[j] == scopes[j + 1]);
        }
        assert(rest[k - 1] == scopes[k]);
        lemma_first_known_value(tables, rest, name, k - 1, value);
    }
}

/// Only accesses to members of enums whose value is known are replaced.
pub proof fn only_enum_members_are_inlined(access: StaticMemberView, tables: ScopingView)
    requires
        access.inlined(tables) is Some,
    ensures
        ({
            let symbol_id = access.object_symbol(tables)->0;
            let flags = tables.symbol_flags[symbol_id as int];
            &&& access.object_symbol(tables) is Some
            &&& flags & CONST_ENUM != 0 || flags & REGULAR_ENUM == REGULAR_ENUM
            &&& exists|i: int|
                0 <= i < tables.enum_bodies[symbol_id].len() && access.inlined(tables)
                    == member_value(
                    tables,
                    #[trigger] tables.enum_bodies[symbol_id][i],
                    access.property.name,
                )
        }),
{
    let symbol_id = access.object_symbol(tables)->0;
    lemma_first_value_is_a_value(tables, tables.enum_bodies[symbol_id], access.property.name);
}

/// The first known value is the value in one of the bodies.
proof fn lemma_first_value_is_a_value(tables: ScopingView, scopes: Seq<u32>, name: Seq<char>)
    requires
        first_member_value(tables, scopes, name) is Some,
    ensures
        exists|i: int|
            0 <= i < scopes.len() && first_member_value(tables, scopes, name) == member_value(
                tables,
                #[trigger] scopes[i],
                name,
            ),
    decreases scopes.len(),
{
    if member_value(tables, scopes[0], name) is None {
        let rest = scopes.drop_first();
        lemma_first_value_is_a_value(tables, rest, name);
        let i = choose|i: int|
            0 <= i < rest.len() && first_member_value(tables, rest, name) == member_value(
                tables,
                #[trigger] rest[i],
                name,
            );
        assert(rest[i] == scopes[i + 1]);
    }
}

/// An access to a member whose value is known in one of the bodies is replaced, whether
/// the enum is a regular one or a `const enum`.
pub proof fn known_members_are_inlined(
    access: StaticMemberView,
    tables: ScopingView,
    symbol_id: u32,
    i: int,
)
    requires
        access.object_symbol(tables) == Some(symbol_id),
        ({
            let flags = tables.symbol_flags[symbol_id as int];
            flags & CONST_ENUM != 0 || flags & REGULAR_ENUM == REGULAR_ENUM
        }),
        tables.enum_bodies.contains_key(symbol_id),
        0 <= i < tables.enum_bodies[symbol_id].len(),
        member_value(tables, tables.enum_bodies[symbol_id][i], access.property.name) is Some,
    ensures
        access.inlined(tables) is Some,
{
    lemma_known_value_is_found(tables, tables.enum_bodies[symbol_id], access.property.name, i);
}

/// A value in one of the bodies is enough for a first known value.
proof fn lemma_known_value_is_found(
    tables: ScopingView,
    scopes: Seq<u32>,
    name: Seq<char>,
    i: int,
)
    requires
        0 <= i < scopes.len(),
        member_value(tables, scopes[i], name) is Some,
    ensures
        first_member_value(tables, scopes, name) is Some,
    decreases i,
{
    if i > 0 {
        assert(scopes.drop_first()[i - 1] == scopes[i]);
        lemma_known_value_is_found(tables, scopes.drop_first(), name, i - 1);
    }
}

/// A constant value is no access any more, so that inlining is over in one step, and
/// only adds a reference.
pub proof fn inlined_access_is_no_access(value: ConstantView, tables: ScopingView)
    ensures
        !(constant(value, tables) is Source),
        after_constant(value, tables).extends(tables),
{
}

impl RenameView {
    /// An identifier with a name that the scope of the enum binds to a member is
    /// replaced by `enum_name.name`, whatever the value of the member, unless it is
    /// resolved to a variable of a scope inside the enum.
    pub proof fn member_names_are_qualified(
        self,
        identifier: IdentifierView,
        scopes: Seq<u32>,
        member_id: u32,
    )
        requires
            self.tables.scope_bindings[self.enum_scope_id as int].contains_key(identifier.name),
            self.tables.scope_bindings[self.enum_scope_id as int][identifier.name] == member_id,
            self.tables.symbol_flags[member_id as int] & ENUM_MEMBER == ENUM_MEMBER,
            match self.tables.references[identifier.reference_id->0 as int].0 {
                Some(symbol_id) => {
                    ||| self.tables.symbol_scopes[symbol_id as int] == self.enum_scope_id
                    ||| !scopes.contains(self.tables.symbol_scopes[symbol_id as int])
                },
                None => true,
            },
        ensures
            self.refers_to_member(identifier, scopes),
            self.rename(SourceView::Identifier(identifier), scopes) == SourceView::StaticMember(
                StaticMemberView {
                    span: Span { start: 0, end: 0 },
                    object: Box::new(
                        SourceView::Identifier(
                            IdentifierView {
                                span: Span { start: 0, end: 0 },
                                name: self.enum_name,
                                reference_id: None,
                            },
                        ),
                    ),
                    property: NameView {
                        span: Span { start: 0, end: 0 },
                        name: identifier.name,
                    },
                    optional: false,
                },
            ),
    {
    }

    /// An identifier stays as it is where the scope of the enum does not bind its name,
    /// or binds it to something that is no member.
    pub proof fn names_of_no_member_stay(self, identifier: IdentifierView, scopes: Seq<u32>)
        requires
            ({
                let bindings = self.tables.scope_bindings[self.enum_scope_id as int];
                bindings.contains_key(identifier.name) ==> self.tables.symbol_flags[
                    bindings[identifier.name] as int] & ENUM_MEMBER != ENUM_MEMBER
            }),
        ensures
            !self.refers_to_member(identifier, scopes),
            self.rename(SourceView::Identifier(identifier), scopes) == SourceView::Identifier(
                identifier,
            ),
    {
    }

    /// An identifier stays as it is where it is resolved to a variable of a scope that
    /// it stands in, other than that of the enum.
    pub proof fn names_of_inner_variables_stay(
        self,
        identifier: IdentifierView,
        symbol_id: u32,
        scopes: Seq<u32>,
        k: int,
    )
        requires
            self.tables.references[identifier.reference_id->0 as int].0 == Some(symbol_id),
            0 <= k < scopes.len(),
            self.tables.symbol_scopes[symbol_id as int] == scopes[k],
            scopes[k] != self.enum_scope_id,
        ensures
            !self.refers_to_member(identifier, scopes),
            self.rename(SourceView::Identifier(identifier), scopes) == SourceView::Identifier(
                identifier,
            ),
    {
        assert(scopes.contains(scopes[k]));
    }

    /// Every other expression keeps its form, and its parts are treated alike: those in
    /// a scope with that scope around them, after the scopes around the expression.
    pub proof fn renaming_reaches_all_parts(
        self,
        expression: SourceView,
        scopes: Seq<u32>,
        k: int,
    )
        ensures
            match expression {
                SourceView::Identifier(_) => true,
                SourceView::StaticMember(member) => {
                    &&& self.rename(expression, scopes) matches SourceView::StaticMember(renamed)
                    &&& renamed.span == member.span
                    &&& *renamed.object == self.rename(*member.object, scopes)
                    &&& renamed.property == member.property
                    &&& renamed.optional == member.optional
                },
                SourceView::Node { kind, id, parts } => {
                    &&& self.rename(expression, scopes) matches SourceView::Node {
                        kind: kind_after,
                        id: id_after,
                        parts: renamed,
                    }
                    &&& kind_after == kind
                    &&& id_after == id
                    &&& renamed.len() == parts.len()
                    &&& 0 <= k < parts.len() ==> renamed[k] == self.rename_part(parts[k], scopes)
                },
            },
    {
        if let SourceView::Node { parts, .. } = expression {
            assert(self.rename_parts(parts, scopes).len() == parts.len());
        }
    }

    /// What a visitor meets in a node is treated as it would be by itself: expressions
    /// in the scopes of the node, and the contents of a scope in one scope more.
    pub proof fn renaming_follows_scopes(self, part: PartView, scopes: Seq<u32>, k: int)
        ensures
            match part {
                PartView::Expression(expression) => self.rename_part(part, scopes)
                    == PartView::Expression(self.rename(expression, scopes)),
                PartView::Scope { scope_id, parts } => {
                    &&& self.rename_part(part, scopes) matches PartView::Scope {
                        scope_id: id_after,
                        parts: renamed,
                    }
                    &&& id_after == scope_id
                    &&& renamed.len() == parts.len()
                    &&& 0 <= k < parts.len() ==> renamed[k] == self.rename_part(
                        parts[k],
                        scopes.push(scope_id),
                    )
                },
            },
    {
    }
}

/// The constant value of a member is what the tables have for the symbol that its name
/// is bound to.
pub proof fn values_are_read_from_tables(tables: ScopingView, scope_id: u32, name: Seq<char>)
    ensures
        ({
            let bindings = tables.scope_bindings[scope_id as int];
            member_value(tables, scope_id, name) == (if bindings.contains_key(name)
                && tables.enum_values.contains_key(bindings[name]) {
                Some(tables.enum_values[bindings[name]])
            } else {
                None
            })
        }),
{
}

/// An access whose object refers to an enum has the value that the first body in which
/// the member is known has for it, whatever scope the access is in.
pub proof fn accesses_have_the_first_known_value(
    access: StaticMemberView,
    tables: ScopingView,
    identifier: IdentifierView,
    reference_id: u32,
    symbol_id: u32,
    k: int,
    member_id: u32,
)
    requires
        *access.object == SourceView::Identifier(identifier),
        identifier.reference_id == Some(reference_id),
        tables.references[reference_id as int].0 == Some(symbol_id),
        tables.symbol_flags[symbol_id as int] & CONST_ENUM != 0 || tables.symbol_flags[
            symbol_id as int] & REGULAR_ENUM == REGULAR_ENUM,
        tables.enum_bodies.contains_key(symbol_id),
        ({
            let bodies = tables.enum_bodies[symbol_id];
            let name = access.property.name;
            &&& 0 <= k < bodies.len()
            &&& tables.scope_bindings[bodies[k] as int].contains_key(name)
            &&& tables.scope_bindings[bodies[k] as int][name] == member_id
            &&& tables.enum_values.contains_key(member_id)
            &&& forall|j: int|
                0 <= j < k && tables.scope_bindings[#[trigger] bodies[j] as int].contains_key(name)
                    ==> !tables.enum_values.contains_key(
                    tables.scope_bindings[bodies[j] as int][name],
                )
        }),
    ensures
        access.inlined(tables) == Some(tables.enum_values[member_id]),
{
    let bodies = tables.enum_bodies[symbol_id];
    let name = access.property.name;
    assert forall|j: int| 0 <= j < k implies member_value(tables, #[trigger] bodies[j], name)
        is None by {}
    lemma_known_value_is_found(tables, bodies, name, k);
    lemma_first_known_value(
        tables,
        bodies,
        name,
        k,
        first_member_value(tables, bodies, name)->0,
    );
}

/// An access has no value where its object is no identifier, or one that is not
/// resolved, or refers to no enum, or to one in no body of which the member is known.
pub proof fn accesses_have_no_other_value(access: StaticMemberView, tables: ScopingView)
    ensures
        !(*access.object is Identifier) ==> access.inlined(tables) is None,
        match *access.object {
            SourceView::Identifier(identifier) => match identifier.reference_id {
                Some(reference_id) => match tables.references[reference_id as int].0 {
                    Some(symbol_id) => {
                        let flags = tables.symbol_flags[symbol_id as int];
                        let bodies = tables.enum_bodies[symbol_id];
                        let name = access.property.name;
                        &&& flags & CONST_ENUM == 0 && flags & REGULAR_ENUM != REGULAR_ENUM
                            ==> access.inlined(tables) is None
                        &&& !tables.enum_bodies.contains_key(symbol_id) ==> access.inlined(
                            tables,
                        ) is None
                        &&& (forall|j: int|
                            0 <= j < bodies.len() && tables.scope_bindings[
                                #[trigger] bodies[j] as int].contains_key(name)
                                ==> !tables.enum_values.contains_key(
                                tables.scope_bindings[bodies[j] as int][name],
                            )) ==> access.inlined(tables) is None
                    },
                    None => access.inlined(tables) is None,
                },
                None => access.inlined(tables) is None,
            },
            _ => true,
        },
{
    if access.inlined(tables) is Some {
        let symbol_id = access.object_symbol(tables)->0;
        lemma_first_value_is_a_value(tables, tables.enum_bodies[symbol_id], access.property.name);
    }
}

/// The value of an access does not depend on the scope that the traversal is in.
pub proof fn accesses_have_their_value_everywhere(
    access: StaticMemberView,
    tables: ScopingView,
    scope_id: u32,
)
    ensures
        access.inlined(ScopingView { current_scope: scope_id, ..tables }) == access.inlined(tables),
{
    let elsewhere = ScopingView { current_scope: scope_id, ..tables };
    if let Some(symbol_id) = access.object_symbol(tables) {
        lemma_same_first_value(
            tables,
            elsewhere,
            tables.enum_bodies[symbol_id],
            access.property.name,
        );
    }
}

} // verus!
