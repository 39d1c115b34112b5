//! The reference table and the syntax that is built agree: every new entry of the
//! table belongs to exactly one identifier.

use crate::ast::ComputedMemberView;
use crate::ast::DeclarationView;
use crate::ast::EnumView;
use crate::ast::ExpressionView;
use crate::ast::MemberView;
use crate::ast::Span;
use crate::ast::StatementView;
use crate::ast::TargetView;
use crate::model::after_constant;
use crate::model::after_numeral;
use crate::model::constant;
use crate::model::element;
use crate::model::element_assignment;
use crate::model::member_value;
use crate::model::numeral;
use crate::model::string;
use crate::model::unsigned_numeral;
use crate::model::BodyView;
use crate::model::Progress;
use crate::number::Number;
use crate::scoping::ConstantView;
use crate::scoping::ScopingView;
use vstd::prelude::*;

verus! {

/// How many of the identifiers that are built in an expression have the entry `id` of
/// the reference table.
pub open spec fn uses(expression: ExpressionView, id: u32) -> nat
    decreases expression,
{
    match expression {
        ExpressionView::Identifier(identifier) => if identifier.reference_id == Some(id) {
            1
        } else {
            0
        },
        ExpressionView::UnaryNegation { argument, .. } => uses(*argument, id),
        ExpressionView::Addition { left, right, .. } => uses(*left, id) + uses(*right, id),
        ExpressionView::LogicalOr { left, right, .. } => uses(*left, id) + uses(*right, id),
        ExpressionView::Assignment { target, right, .. } => uses_in_target(target, id) + uses(
            *right,
            id,
        ),
        ExpressionView::ComputedMember(member) => uses_in_member(member, id),
        ExpressionView::Call { callee, argument, .. } => uses(*callee, id) + uses(*argument, id),
        ExpressionView::ArrowFunction(function) => uses_in_statements(function.statements, id),
        _ => 0,
    }
}

pub open spec fn uses_in_member(member: ComputedMemberView, id: u32) -> nat
    decreases member,
{
    uses(*member.object, id) + uses(*member.expression, id)
}

pub open spec fn uses_in_target(target: TargetView, id: u32) -> nat
    decreases target,
{
    match target {
        TargetView::Identifier(identifier) => if identifier.reference_id == Some(id) {
            1
        } else {
            0
        },
        TargetView::ComputedMember(member) => uses_in_member(member, id),
    }
}

pub open spec fn uses_in_statements(statements: Seq<StatementView>, id: u32) -> nat
    decreases statements,
{
    if statements.len() == 0 {
        0
    } else {
        uses_in_statements(statements.subrange(0, statements.len() - 1), id) + uses_in_statement(
            statements[statements.len() - 1],
            id,
        )
    }
}

pub open spec fn uses_in_statement(statement: StatementView, id: u32) -> nat
    decreases statement,
{
    match statement {
        StatementView::ExportNamedDeclaration {
            declaration: Some(DeclarationView::VariableDeclaration(variable)),
            ..
        } => uses(variable.init, id),
        StatementView::VariableDeclaration(variable) => uses(variable.init, id),
        StatementView::Expression { expression, .. } => uses(expression, id),
        StatementView::Return { argument, .. } => uses(argument, id),
        _ => 0,
    }
}

/// One for an entry that is added between two states of the tables, else zero.
pub open spec fn added(before: ScopingView, after: ScopingView, id: u32) -> nat {
    if before.references.len() <= id < after.references.len() {
        1
    } else {
        0
    }
}

/// A numeral uses the entries that it adds, each once.
pub proof fn numeral_uses_its_entries(value: Number, tables: ScopingView, id: u32)
    requires
        tables.has_room(1),
    ensures
        uses(numeral(value, tables), id) == added(tables, after_numeral(value, tables), id),
{
    let unsigned = unsigned_numeral(value, tables);
    assert(uses(unsigned, id) == added(tables, after_numeral(value, tables), id));
}

/// A constant value uses the entries that it adds, each once.
pub proof fn constant_uses_its_entries(value: ConstantView, tables: ScopingView, id: u32)
    requires
        tables.has_room(1),
    ensures
        uses(constant(value, tables), id) == added(tables, after_constant(value, tables), id),
{
    if let ConstantView::Number(number) = value {
        numeral_uses_its_entries(number, tables, id);
    }
}

proof fn lemma_element_assignment(
    span: Span,
    object: ExpressionView,
    expression: ExpressionView,
    value: ExpressionView,
    id: u32,
)
    ensures
        uses(element_assignment(span, object, expression, value), id) == uses(object, id) + uses(
            expression,
            id,
        ) + uses(value, id),
{
    let member = element(object, expression);
    assert(uses_in_member(member, id) == uses(object, id) + uses(expression, id));
    let target = TargetView::ComputedMember(member);
    assert(uses_in_target(target, id) == uses_in_member(member, id));
}

proof fn lemma_init(before: Progress, body: BodyView, member: MemberView, id: u32)
    requires
        before.tables.has_room(1),
    ensures
        uses(before.init(body, member), id) == added(
            before.tables,
            before.after_init(body, member),
            id,
        ),
{
    let t = before.tables;
    match before.init(body, member) {
        ExpressionView::Addition { left, right, .. } => {
            if let Some(name) = before.name {
                let object = body.param.read(t);
                let access = element(object, string(name));
                assert(uses(*left, id) == 0);
                assert(uses(object, id) == added(t, body.param.after_read(t), id));
                assert(uses(string(name), id) == 0);
                assert(uses_in_member(access, id) == uses(object, id) + uses(string(name), id));
                assert(uses(ExpressionView::ComputedMember(access), id) == uses_in_member(
                    access,
                    id,
                ));
            }
        },
        _ => {
            if let Some(number) = before.number {
                numeral_uses_its_entries(number.plus_one(), t, id);
            }
            if let Some(value) = member_value(t, body.scope_id, member.name) {
                constant_uses_its_entries(value, t, id);
            }
        },
    }
}

/// The statement that a member becomes uses the entries that it adds, each once.
pub proof fn member_uses_its_entries(before: Progress, body: BodyView, member: MemberView, id: u32)
    requires
        before.tables.wf(),
        before.tables.has_symbol(body.param.symbol_id),
        before.tables.has_room(3),
    ensures
        uses_in_statement(before.statement(body, member), id) == added(
            before.tables,
            before.after_statement(body, member),
            id,
        ),
{
    let t0 = before.tables;
    t0.lemma_less_room(3, 1);
    lemma_init(before, body, member, id);
    let init = before.init(body, member);
    let t1 = before.after_init(body, member);
    let t2 = before.after_assignment(body, member);
    let object = body.param.read(t1);
    assert(t0.references.len() <= t1.references.len() <= t0.references.len() + 1);
    assert(uses(object, id) == added(t1, t2, id));
    lemma_element_assignment(member.span, object, string(member.name), init, id);
    if !init.is_string() {
        let outer = body.param.read(t2);
        let t3 = before.after_statement(body, member);
        assert(uses(outer, id) == added(t2, t3, id));
        lemma_element_assignment(
            member.span,
            outer,
            before.assignment(body, member),
            string(member.name),
            id,
        );
    }
}

proof fn lemma_statements(
    body: BodyView,
    members: Seq<MemberView>,
    tables: ScopingView,
    count: nat,
    id: u32,
)
    requires
        count <= members.len(),
        tables.wf(),
        tables.has_symbol(body.param.symbol_id),
        tables.has_room(3 * members.len() + 1),
    ensures
        uses_in_statements(body.statements(members, tables).subrange(0, count as int), id)
            == added(tables, body.progress(members, tables, count).tables, id),
        tables.references.len() <= body.progress(members, tables, count).tables.references.len(),
    decreases count,
{
    let statements = body.statements(members, tables);
    if count > 0 {
        let last = (count - 1) as nat;
        lemma_statements(body, members, tables, last, id);
        tables.lemma_less_room(3 * members.len() + 1, 3 * count);
        body.lemma_progress(members, tables, last, 3);
        member_uses_its_entries(
            body.progress(members, tables, last),
            body,
            members[last as int],
            id,
        );
        body.progress(members, tables, last).lemma_next(body, members[last as int], 0);
        let taken = statements.subrange(0, count as int);
        assert(taken.subrange(0, taken.len() - 1) =~= statements.subrange(0, last as int));
        assert(taken[taken.len() - 1] == statements[last as int]);
    }
}

/// The statements of the function use the entries that they add, each once.
pub proof fn body_uses_its_entries(
    body: BodyView,
    members: Seq<MemberView>,
    tables: ScopingView,
    id: u32,
)
    requires
        tables.wf(),
        tables.has_symbol(body.param.symbol_id),
        tables.has_room(3 * members.len() + 1),
    ensures
        uses_in_statements(body.statements(members, tables), id) == added(
            tables,
            body.after_statements(members, tables),
            id,
        ),
        tables.references.len() <= body.after_statements(members, tables).references.len(),
{
    let statements = body.statements(members, tables);
    let count = members.len();
    lemma_statements(body, members, tables, count, id);
    body.lemma_progress(members, tables, count, 1);
    let t = body.progress(members, tables, count).tables;
    assert(uses(body.param.read(t), id) == added(t, body.param.after_read(t), id));
    assert(uses_in_statement(statements[count as int], id) == uses(body.param.read(t), id));
    assert(statements.subrange(0, statements.len() - 1) =~= statements.subrange(0, count as int));
}

/// What an enum declaration becomes uses the entries that lowering adds to the
/// reference table, each once, and no other.
pub proof fn enum_uses_its_entries(
    decl: EnumView,
    export_span: Option<Span>,
    tables: ScopingView,
    id: u32,
)
    requires
        decl.can_lower(tables),
    ensures
        uses_in_statement(decl.lowered(export_span, tables), id) == added(
            tables,
            decl.after_lowered(export_span is Some, tables),
            id,
        ),
{
    let exported = export_span is Some;
    decl.lemma_after_function(tables);
    body_uses_its_entries(decl.body(tables), decl.members, decl.with_param(tables), id);
    let t1 = decl.after_function(tables);
    assert(uses(decl.function(tables), id) == added(tables, t1, id));
    let t2 = decl.after_argument(exported, tables);
    let argument = decl.argument(exported, tables);
    assert(uses(argument, id) == added(t1, t2, id)) by {
        if let ExpressionView::LogicalOr { left, right, .. } = argument {
            assert(uses(*left, id) == added(t1, t2, id));
            assert(uses(*right, id) == 0);
        }
    }
    let call = decl.call(exported, tables);
    assert(uses(call, id) == added(tables, t2, id));
    if decl.is_already_declared(tables) {
        let t3 = decl.after_lowered(exported, tables);
        let target = TargetView::Identifier(decl.variable().reference(decl.id.span, t2));
        assert(uses_in_target(target, id) == added(t2, t3, id));
    }
}

} // verus!
