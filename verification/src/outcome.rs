//! What the transform puts into a program, stated over the declaration and the tables
//! that it was given and over the nodes that came out.

use crate::ast::ArrowFunctionView;
use crate::ast::BindingView;
use crate::ast::ComputedMemberView;
use crate::ast::DeclarationView;
use crate::ast::EnumView;
use crate::ast::ExpressionView;
use crate::ast::IdentifierView;
use crate::ast::MemberView;
use crate::ast::NodeKind;
use crate::ast::SourceView;
use crate::ast::Span;
use crate::ast::StatementView;
use crate::ast::TargetView;
use crate::ast::VariableDeclarationKind;
use crate::ast::VariableView;
use crate::laws::denoted;
use crate::laws::numeral_denotes_its_number;
use crate::model::after_constant;
use crate::model::after_numeral;
use crate::model::constant;
use crate::model::member_value;
use crate::model::numeral;
use crate::model::BodyView;
use crate::model::BoundView;
use crate::model::Progress;
use crate::number::exact_sum_is_kept;
use crate::number::named_numbers_have_their_value;
use crate::number::Number;
use crate::rename::RenameView;
use crate::scoping::ConstantView;
use crate::scoping::ScopingView;
use crate::scoping::FUNCTION_SCOPED_VARIABLE;
use crate::scoping::READ;
use crate::scoping::TOP;
use crate::scoping::WRITE;
use vstd::prelude::*;

verus! {

/// `name`, with an entry of the reference table.
pub open spec fn use_of(name: Seq<char>, id: u32) -> ExpressionView {
    ExpressionView::Identifier(
        IdentifierView { span: Span { start: 0, end: 0 }, name, reference_id: Some(id) },
    )
}

/// `"text"`
pub open spec fn quoted(text: Seq<char>) -> ExpressionView {
    ExpressionView::StringLiteral { span: Span { start: 0, end: 0 }, text }
}

/// `object[key]`
pub open spec fn entry_of(object: ExpressionView, key: ExpressionView) -> ComputedMemberView {
    ComputedMemberView {
        span: Span { start: 0, end: 0 },
        object: Box::new(object),
        expression: Box::new(key),
    }
}

/// `object["name"] = value`
pub open spec fn named_entry(
    span: Span,
    object: ExpressionView,
    name: Seq<char>,
    value: ExpressionView,
) -> ExpressionView {
    ExpressionView::Assignment {
        span,
        target: TargetView::ComputedMember(entry_of(object, quoted(name))),
        right: Box::new(value),
    }
}

/// `outer[object["name"] = value] = "name"`
pub open spec fn both_entries(
    span: Span,
    outer: ExpressionView,
    object: ExpressionView,
    name: Seq<char>,
    value: ExpressionView,
) -> ExpressionView {
    ExpressionView::Assignment {
        span,
        target: TargetView::ComputedMember(
            entry_of(outer, named_entry(span, object, name, value)),
        ),
        right: Box::new(quoted(name)),
    }
}

/// How a number is written: with a minus sign before it where it is below zero, and as
/// the identifier `Infinity` where it is infinite.
pub open spec fn number_written(value: Number, id: u32) -> ExpressionView {
    let span = Span { start: 0, end: 0 };
    if value.bits == 0x7ff0_0000_0000_0000 {
        use_of("Infinity"@, id)
    } else if value.bits == 0xfff0_0000_0000_0000 {
        ExpressionView::UnaryNegation { span, argument: Box::new(use_of("Infinity"@, id)) }
    } else if 0x8000_0000_0000_0000 < value.bits < 0xfff0_0000_0000_0000 {
        ExpressionView::UnaryNegation {
            span,
            argument: Box::new(
                ExpressionView::NumericLiteral {
                    span,
                    value: Number { bits: (value.bits - 0x8000_0000_0000_0000) as u64 },
                },
            ),
        }
    } else {
        ExpressionView::NumericLiteral { span, value }
    }
}

/// `1 + object["name"]`
pub open spec fn one_plus_entry(object: ExpressionView, name: Seq<char>) -> ExpressionView {
    let span = Span { start: 0, end: 0 };
    ExpressionView::Addition {
        span,
        left: Box::new(
            ExpressionView::NumericLiteral { span, value: Number { bits: 0x3ff0_0000_0000_0000 } },
        ),
        right: Box::new(ExpressionView::ComputedMember(entry_of(object, quoted(name)))),
    }
}

/// What the innermost assignment of a statement assigns.
pub open spec fn value_of(statement: StatementView) -> ExpressionView {
    match statement {
        StatementView::Expression {
            expression: ExpressionView::Assignment {
                target: TargetView::ComputedMember(member),
                right,
                ..
            },
            ..
        } => match *member.expression {
            ExpressionView::Assignment { right: inner, .. } => *inner,
            _ => *right,
        },
        _ => arbitrary(),
    }
}

/// A number is written as JavaScript writes it, whatever the tables, and only an
/// infinite one takes an entry of the reference table: a read of whatever `Infinity`
/// refers to in the current scope.
pub proof fn numbers_are_written_out(value: Number, tables: ScopingView)
    requires
        tables.has_room(1),
    ensures
        numeral(value, tables) == number_written(value, tables.references.len() as u32),
        value.bits != 0x7ff0_0000_0000_0000 && value.bits != 0xfff0_0000_0000_0000
            ==> after_numeral(value, tables) == tables,
        value.bits == 0x7ff0_0000_0000_0000 || value.bits == 0xfff0_0000_0000_0000
            ==> after_numeral(value, tables).references == tables.references.push(
            (tables.resolve(tables.current_scope, "Infinity"@), tables.current_scope, READ),
        ),
{
}

/// A constant value is written as a number or as a string literal.
pub proof fn constants_are_written_out(value: ConstantView, tables: ScopingView)
    requires
        tables.has_room(1),
    ensures
        match value {
            ConstantView::Number(number) => {
                &&& constant(value, tables) == number_written(
                    number,
                    tables.references.len() as u32,
                )
                &&& number.bits != 0x7ff0_0000_0000_0000 && number.bits != 0xfff0_0000_0000_0000
                    ==> after_constant(value, tables) == tables
                &&& number.bits == 0x7ff0_0000_0000_0000 || number.bits == 0xfff0_0000_0000_0000
                    ==> after_constant(value, tables).references == tables.references.push(
                    (tables.resolve(tables.current_scope, "Infinity"@), tables.current_scope, READ),
                )
            },
            ConstantView::String(text) => {
                &&& constant(value, tables) == quoted(text)
                &&& after_constant(value, tables) == tables
            },
        },
{
}

/// A use of a variable has its name and the next entry of the reference table, which
/// is resolved to its symbol.
pub proof fn uses_refer_to_their_variable(variable: BoundView, span: Span, tables: ScopingView)
    requires
        tables.has_room(1),
    ensures
        variable.reference(span, tables) == (IdentifierView {
            span,
            name: variable.name,
            reference_id: Some(tables.references.len() as u32),
        }),
        variable.read(tables) == use_of(variable.name, tables.references.len() as u32),
        variable.after_read(tables).references == tables.references.push(
            (Some(variable.symbol_id), tables.current_scope, READ),
        ),
        variable.after_read(tables).unresolved == tables.unresolved,
{
}

proof fn lemma_extends_transitive(first: ScopingView, second: ScopingView, third: ScopingView)
    requires
        second.extends(first),
        third.extends(second),
    ensures
        third.extends(first),
{
    assert forall|k: int| 0 <= k < first.references.len() implies first.references[k]
        == third.references[k] by {
        lemma_prefix(first.references, second.references, k);
        lemma_prefix(second.references, third.references, k);
    }
    assert(first.references =~= third.references.subrange(0, first.references.len() as int));
}

proof fn lemma_prefix(
    shorter: Seq<(Option<u32>, u32, u8)>,
    longer: Seq<(Option<u32>, u32, u8)>,
    k: int,
)
    requires
        shorter.is_prefix_of(longer),
        0 <= k < shorter.len(),
    ensures
        shorter[k] == longer[k],
        k < longer.len(),
{
    assert(longer.subrange(0, shorter.len() as int)[k] == longer[k]);
}

/// What is known after some members only grows with those that follow.
proof fn lemma_later_progress(
    body: BodyView,
    members: Seq<MemberView>,
    tables: ScopingView,
    i: nat,
    k: nat,
)
    requires
        body.can_lower_all(members, tables),
        i <= k <= members.len(),
    ensures
        body.progress(members, tables, i).tables.has_room(
            (3 * (members.len() - i) + 1) as nat,
        ),
        body.progress(members, tables, i).tables.wf(),
        body.progress(members, tables, i).tables.extends(tables),
        body.progress(members, tables, k).tables.extends(
            body.progress(members, tables, i).tables,
        ),
        body.after_statements(members, tables).extends(body.progress(members, tables, i).tables),
{
    body.lemma_progress(members, tables, i, (3 * (members.len() - i) + 1) as nat);
    lemma_progress_extends(body, members, tables, i, k);
    lemma_progress_extends(body, members, tables, i, members.len());
    let last = body.progress(members, tables, members.len()).tables;
    body.lemma_progress(members, tables, members.len(), 1);
    let after = body.after_statements(members, tables);
    assert(after.extends(last));
    lemma_extends_transitive(body.progress(members, tables, i).tables, last, after);
}

proof fn lemma_progress_extends(
    body: BodyView,
    members: Seq<MemberView>,
    tables: ScopingView,
    i: nat,
    k: nat,
)
    requires
        body.can_lower_all(members, tables),
        i <= k <= members.len(),
    ensures
        body.progress(members, tables, k).tables.extends(
            body.progress(members, tables, i).tables,
        ),
    decreases k,
{
    if i < k {
        let before = (k - 1) as nat;
        lemma_progress_extends(body, members, tables, i, before);
        tables.lemma_less_room(3 * members.len() + 1, 3 * k);
        body.lemma_progress(members, tables, before, 3);
        body.progress(members, tables, before).lemma_next(body, members[before as int], 0);
        lemma_extends_transitive(
            body.progress(members, tables, i).tables,
            body.progress(members, tables, before).tables,
            body.progress(members, tables, k).tables,
        );
    }
}

/// A name is resolved alike where scopes are bound and nested alike.
proof fn lemma_same_lookup(
    tables: ScopingView,
    after: ScopingView,
    scope_id: u32,
    name: Seq<char>,
    steps: nat,
)
    requires
        after.scope_bindings == tables.scope_bindings,
        after.scope_parents == tables.scope_parents,
    ensures
        after.lookup(scope_id, name, steps) == tables.lookup(scope_id, name, steps),
    decreases steps,
{
    match tables.scope_parents[scope_id as int] {
        Some(parent) if steps > 0 => {
            lemma_same_lookup(tables, after, parent, name, (steps - 1) as nat);
        },
        _ => {},
    }
}

/// Each member becomes one statement, which stands where the member stood. It puts the
/// value of the member under its name into the object that the parameter refers to,
/// and, unless that value is a string literal or a template, the name under the value.
pub proof fn members_are_entered(
    body: BodyView,
    members: Seq<MemberView>,
    tables: ScopingView,
    i: int,
)
    requires
        body.can_lower_all(members, tables),
        0 <= i < members.len(),
    ensures
        ({
            let statement = body.statements(members, tables)[i];
            let value = value_of(statement);
            let span = members[i].span;
            let name = members[i].name;
            let references = body.after_statements(members, tables).references;
            let read = (Some(body.param.symbol_id), tables.current_scope, READ);
            let is_text = match value {
                ExpressionView::StringLiteral { .. } => true,
                ExpressionView::Source(SourceView::Node { kind, .. }) => kind
                    == NodeKind::StringLiteral || kind == NodeKind::TemplateLiteral,
                _ => false,
            };
            &&& statement matches StatementView::Expression { span: at, expression }
            &&& at == span
            &&& if is_text {
                exists|id: u32|
                    {
                        &&& expression == named_entry(
                            span,
                            #[trigger] use_of(body.param.name, id),
                            name,
                            value,
                        )
                        &&& id < references.len()
                        &&& references[id as int] == read
                    }
            } else {
                exists|id: u32, outer: u32|
                    {
                        &&& expression == both_entries(
                            span,
                            #[trigger] use_of(body.param.name, outer),
                            #[trigger] use_of(body.param.name, id),
                            name,
                            value,
                        )
                        &&& id < references.len()
                        &&& outer < references.len()
                        &&& references[id as int] == read
                        &&& references[outer as int] == read
                    }
            }
        }),
{
    let statement = body.statements(members, tables)[i];
    let before = body.progress(members, tables, i as nat);
    let next = body.progress(members, tables, (i + 1) as nat);
    let member = members[i];
    assert(statement == before.statement(body, member));
    lemma_later_progress(body, members, tables, i as nat, (i + 1) as nat);
    lemma_later_progress(body, members, tables, (i + 1) as nat, (i + 1) as nat);
    before.tables.lemma_less_room((3 * (members.len() - i) + 1) as nat, 3);
    before.lemma_next(body, member, 0);
    let after = body.after_statements(members, tables);
    let t1 = before.after_init(body, member);
    let t2 = before.after_assignment(body, member);
    let id = t1.references.len() as u32;
    let outer = t2.references.len() as u32;
    assert(t1.references.len() <= before.tables.references.len() + 1);
    let value = before.init(body, member);
    assert(value_of(statement) == value);
    assert(next.tables.references[id as int] == (
        Some(body.param.symbol_id),
        tables.current_scope,
        READ,
    ));
    lemma_prefix(next.tables.references, after.references, id as int);
    let inner = use_of(body.param.name, id);
    assert(body.param.read(t1) == inner);
    if !value.is_string() {
        lemma_prefix(next.tables.references, after.references, outer as int);
        assert(body.param.read(t2) == use_of(body.param.name, outer));
    }
}

/// The number that is known after a member is the one that its value denotes.
proof fn lemma_known_number_is_denoted(before: Progress, body: BodyView, member: MemberView)
    requires
        before.number is Some || before.name is Some,
    ensures
        before.number_of(body, member) == denoted(before.init(body, member)),
{
    if let Some(number) = before.number {
        numeral_denotes_its_number(number.plus_one(), before.tables);
    }
    match before.init(body, member) {
        ExpressionView::Source(_) => {},
        _ => {
            if let Some(ConstantView::Number(value)) = member_value(
                before.tables,
                body.scope_id,
                member.name,
            ) {
                numeral_denotes_its_number(value, before.tables);
            }
        },
    }
}

/// What a member is given. Where its initializer has a constant value, that value is
/// written out. Where it has another one, that one stays, with the members of the enum
/// qualified. Without an initializer, the first member is zero, and any other is one
/// more than the number that the member before it was given, or, where that was no
/// number, `1 + Foo["previous"]`.
pub proof fn members_have_their_values(
    body: BodyView,
    members: Seq<MemberView>,
    tables: ScopingView,
    i: int,
)
    requires
        body.can_lower_all(members, tables),
        0 <= i < members.len(),
    ensures
        ({
            let value = value_of(body.statements(members, tables)[i]);
            let previous = value_of(body.statements(members, tables)[i - 1]);
            let bindings = tables.scope_bindings[body.scope_id as int];
            let name = members[i].name;
            let references = body.after_statements(members, tables).references;
            let infinity = (
                tables.resolve(tables.current_scope, "Infinity"@),
                tables.current_scope,
                READ,
            );
            let param = (Some(body.param.symbol_id), tables.current_scope, READ);
            match members[i].initializer {
                Some(initializer) => if bindings.contains_key(name)
                    && tables.enum_values.contains_key(bindings[name]) {
                    match tables.enum_values[bindings[name]] {
                        ConstantView::Number(number) => exists|id: u32|
                            {
                                &&& value == #[trigger] number_written(number, id)
                                &&& number.bits == 0x7ff0_0000_0000_0000 || number.bits
                                    == 0xfff0_0000_0000_0000 ==> id < references.len()
                                    && references[id as int] == infinity
                            },
                        ConstantView::String(text) => value == quoted(text),
                    }
                } else {
                    value == ExpressionView::Source(
                        (RenameView {
                            enum_name: body.param.name,
                            enum_scope_id: body.scope_id,
                            tables,
                        }).rename(initializer, seq![body.scope_id]),
                    )
                },
                None => if i == 0 {
                    value == (ExpressionView::NumericLiteral {
                        span: Span { start: 0, end: 0 },
                        value: Number { bits: 0 },
                    })
                } else {
                    match denoted(previous) {
                        Some(number) => exists|id: u32|
                            {
                                &&& value == #[trigger] number_written(number.plus_one(), id)
                                &&& number.plus_one().bits == 0x7ff0_0000_0000_0000
                                    || number.plus_one().bits == 0xfff0_0000_0000_0000
                                    ==> id < references.len() && references[id as int]
                                    == infinity
                            },
                        None => exists|id: u32|
                            {
                                &&& value == one_plus_entry(
                                    #[trigger] use_of(body.param.name, id),
                                    members[i - 1].name,
                                )
                                &&& id < references.len()
                                &&& references[id as int] == param
                            },
                    }
                },
            }
        }),
{
    let before = body.progress(members, tables, i as nat);
    let next = body.progress(members, tables, (i + 1) as nat);
    let member = members[i];
    let statement = body.statements(members, tables)[i];
    assert(statement == before.statement(body, member));
    let value = before.init(body, member);
    assert(value_of(statement) == value);
    lemma_later_progress(body, members, tables, i as nat, (i + 1) as nat);
    lemma_later_progress(body, members, tables, (i + 1) as nat, (i + 1) as nat);
    before.tables.lemma_less_room((3 * (members.len() - i) + 1) as nat, 3);
    before.tables.lemma_less_room(3, 1);
    before.lemma_next(body, member, 0);
    let after = body.after_statements(members, tables);
    let t1 = before.after_init(body, member);
    let id = before.tables.references.len() as u32;
    lemma_same_lookup(
        tables,
        before.tables,
        tables.current_scope,
        "Infinity"@,
        tables.scope_bindings.len(),
    );
    if t1.references.len() > before.tables.references.len() {
        assert(next.tables.references[id as int] == t1.references[id as int]);
        lemma_prefix(next.tables.references, after.references, id as int);
    }
    if i > 0 {
        let earlier = body.progress(members, tables, (i - 1) as nat);
        lemma_known_number_is_denoted(earlier, body, members[i - 1]);
        assert(body.statements(members, tables)[i - 1] == earlier.statement(
            body,
            members[i - 1],
        ));
        assert(value_of(body.statements(members, tables)[i - 1]) == earlier.init(
            body,
            members[i - 1],
        ));
        assert(before.number == earlier.number_of(body, members[i - 1]));
    }
    match member.initializer {
        Some(initializer) => {
            match member_value(before.tables, body.scope_id, member.name) {
                Some(ConstantView::Number(number)) => {
                    numbers_are_written_out(number, before.tables);
                    assert(value == number_written(number, id));
                },
                Some(ConstantView::String(_)) => {},
                None => {
                    body.renaming(tables).references_keep_renaming(
                        before.tables,
                        initializer,
                        seq![body.scope_id],
                    );
                },
            }
        },
        None => {
            if i == 0 {
                named_numbers_have_their_value();
                exact_sum_is_kept(Number::minus_one(), Number::zero());
            } else if let Some(number) = before.number {
                numbers_are_written_out(number.plus_one(), before.tables);
                assert(value == number_written(number.plus_one(), id));
            } else {
                assert(value == one_plus_entry(
                    use_of(body.param.name, id),
                    members[i - 1].name,
                ));
            }
        },
    }
}

/// The running number after a member with a constant value is that value, so that a
/// member without an initializer that follows counts on from it.
pub proof fn counting_goes_on_from_constants(
    body: BodyView,
    members: Seq<MemberView>,
    tables: ScopingView,
    i: int,
    symbol_id: u32,
    value: Number,
)
    requires
        body.can_lower_all(members, tables),
        0 <= i < members.len(),
        members[i].initializer is Some,
        tables.scope_bindings[body.scope_id as int].contains_key(members[i].name),
        tables.scope_bindings[body.scope_id as int][members[i].name] == symbol_id,
        tables.enum_values.contains_key(symbol_id),
        tables.enum_values[symbol_id] == ConstantView::Number(value),
    ensures
        body.progress(members, tables, (i + 1) as nat).number == Some(value),
        denoted(value_of(body.statements(members, tables)[i])) == Some(value),
        i + 1 < members.len() && members[i + 1].initializer is None ==> denoted(
            value_of(body.statements(members, tables)[i + 1]),
        ) == Some(value.plus_one()),
{
    let statements = body.statements(members, tables);
    let before = body.progress(members, tables, i as nat);
    lemma_later_progress(body, members, tables, i as nat, i as nat);
    assert(statements[i] == before.statement(body, members[i]));
    assert(value_of(statements[i]) == before.init(body, members[i]));
    lemma_known_number_is_denoted(before, body, members[i]);
    if i + 1 < members.len() {
        let next = body.progress(members, tables, (i + 1) as nat);
        assert(statements[i + 1] == next.statement(body, members[i + 1]));
        assert(value_of(statements[i + 1]) == next.init(body, members[i + 1]));
        lemma_known_number_is_denoted(next, body, members[i + 1]);
    }
}

/// The statements of the members are followed by one more, which returns the parameter.
pub proof fn body_returns_its_parameter(
    body: BodyView,
    members: Seq<MemberView>,
    tables: ScopingView,
)
    requires
        body.can_lower_all(members, tables),
    ensures
        ({
            let statements = body.statements(members, tables);
            let references = body.after_statements(members, tables).references;
            &&& statements.len() == members.len() + 1
            &&& references.len() > 0
            &&& statements[members.len() as int] == (StatementView::Return {
                span: Span { start: 0, end: 0 },
                argument: use_of(body.param.name, (references.len() - 1) as u32),
            })
            &&& references.last() == (Some(body.param.symbol_id), tables.current_scope, READ)
        }),
{
    lemma_later_progress(body, members, tables, members.len(), members.len());
}

/// The statements add references. All that was in the tables stays as it is.
pub proof fn body_only_adds_references(
    body: BodyView,
    members: Seq<MemberView>,
    tables: ScopingView,
)
    requires
        body.can_lower_all(members, tables),
    ensures
        ({
            let after = body.after_statements(members, tables);
            &&& after == (ScopingView {
                references: after.references,
                symbol_references: after.symbol_references,
                unresolved: after.unresolved,
                ..tables
            })
            &&& tables.references.len() <= after.references.len()
            &&& after.references.len() <= tables.references.len() + 3 * members.len() + 1
            &&& forall|k: int|
                0 <= k < tables.references.len() ==> #[trigger] after.references[k]
                    == tables.references[k]
        }),
{
    lemma_later_progress(body, members, tables, 0, members.len());
    lemma_reference_count(body, members, tables, members.len());
    let after = body.after_statements(members, tables);
    assert forall|k: int| 0 <= k < tables.references.len() implies #[trigger] after.references[k]
        == tables.references[k] by {
        lemma_prefix(tables.references, after.references, k);
    }
}

proof fn lemma_reference_count(
    body: BodyView,
    members: Seq<MemberView>,
    tables: ScopingView,
    count: nat,
)
    ensures
        body.progress(members, tables, count).tables.references.len() <= tables.references.len()
            + 3 * count,
    decreases count,
{
    if count > 0 {
        lemma_reference_count(body, members, tables, (count - 1) as nat);
    }
}

/// The tables once the parameter of the function is declared in the scope of the body.
/// It has the name of the enum, which it takes there from whatever had it.
pub open spec fn with_parameter(decl: EnumView, tables: ScopingView) -> ScopingView {
    let scope = decl.scope_id as int;
    let symbol_id = tables.symbol_names.len() as u32;
    ScopingView {
        symbol_names: tables.symbol_names.push(decl.id.name),
        symbol_flags: tables.symbol_flags.push(FUNCTION_SCOPED_VARIABLE),
        symbol_scopes: tables.symbol_scopes.push(decl.scope_id),
        symbol_references: tables.symbol_references.push(seq![]),
        scope_bindings: tables.scope_bindings.update(
            scope,
            tables.scope_bindings[scope].insert(decl.id.name, symbol_id),
        ),
        ..tables
    }
}

/// The body of an enum, with the symbol that its parameter gets.
pub open spec fn parameterized(decl: EnumView, tables: ScopingView) -> BodyView {
    BodyView {
        scope_id: decl.scope_id,
        param: BoundView { name: decl.id.name, symbol_id: tables.symbol_names.len() as u32 },
    }
}

/// `((Foo) => { statements })(argument)`, with the spans of the declaration.
pub open spec fn called(
    decl: EnumView,
    symbol_id: u32,
    statements: Seq<StatementView>,
    argument: ExpressionView,
    pure: bool,
) -> ExpressionView {
    ExpressionView::Call {
        span: decl.span,
        callee: Box::new(
            ExpressionView::ArrowFunction(
                ArrowFunctionView {
                    span: decl.span,
                    param: BindingView {
                        span: Span { start: 0, end: 0 },
                        name: decl.id.name,
                        symbol_id,
                    },
                    body_span: decl.span,
                    statements,
                    scope_id: decl.scope_id,
                },
            ),
        ),
        argument: Box::new(argument),
        pure,
    }
}

/// What a declaration becomes. The arrow function with the statements of the members is
/// called with `{}`, where the enum is local and new, or with `Foo || {}`. The result is
/// assigned where the variable has been declared before. Else a variable is declared,
/// with `let` where the enum is exported or not at the top level, and with `var`
/// elsewhere, and exported where the enum was. The call is pure exactly where no
/// initializer is itself a call or an instantiation.
pub proof fn declarations_become_calls(
    decl: EnumView,
    export_span: Option<Span>,
    tables: ScopingView,
)
    requires
        decl.can_lower(tables),
    ensures
        ({
            let redeclarations = tables.redeclarations[decl.id.symbol_id];
            let is_again = tables.redeclarations.contains_key(decl.id.symbol_id)
                && redeclarations.len() > 0 && redeclarations[0] != decl.id.span;
            let is_local = export_span is Some || tables.scope_flags[tables.current_scope as int]
                & TOP != TOP;
            let start = with_parameter(decl, tables);
            let body = parameterized(decl, tables);
            let end = body.after_statements(decl.members, start);
            let next = end.references.len() as u32;
            let variable = |id: u32|
                IdentifierView {
                    span: decl.id.span,
                    name: decl.id.name,
                    reference_id: Some(id),
                };
            let object = ExpressionView::EmptyObject { span: Span { start: 0, end: 0 } };
            let argument = if is_local && !is_again {
                object
            } else {
                ExpressionView::LogicalOr {
                    span: decl.span,
                    left: Box::new(ExpressionView::Identifier(variable(next))),
                    right: Box::new(object),
                }
            };
            let pure = forall|i: int|
                0 <= i < decl.members.len() ==> match (#[trigger] decl.members[i]).initializer {
                    Some(SourceView::Node { kind, .. }) => kind != NodeKind::CallExpression && kind
                        != NodeKind::NewExpression,
                    _ => true,
                };
            let call = called(
                decl,
                body.param.symbol_id,
                body.statements(decl.members, start),
                argument,
                pure,
            );
            let declared = VariableView {
                span: decl.span,
                kind: if is_local {
                    VariableDeclarationKind::Let
                } else {
                    VariableDeclarationKind::Var
                },
                declarator_span: decl.span,
                id: decl.id,
                init: call,
            };
            &&& body.can_lower_all(decl.members, start)
            &&& decl.lowered(export_span, tables) == (if is_again {
                StatementView::Expression {
                    span: decl.span,
                    expression: ExpressionView::Assignment {
                        span: decl.span,
                        target: TargetView::Identifier(variable((next + 1) as u32)),
                        right: Box::new(call),
                    },
                }
            } else {
                match export_span {
                    Some(span) => StatementView::ExportNamedDeclaration {
                        span,
                        declaration: Some(DeclarationView::VariableDeclaration(declared)),
                    },
                    None => StatementView::VariableDeclaration(declared),
                }
            })
        }),
{
    decl.lemma_after_function(tables);
    let end = decl.after_function(tables);
    assert(with_parameter(decl, tables) == decl.with_param(tables));
    assert(end.references.len() + 2 <= u32::MAX);
}

/// What the tables hold afterwards: what they hold after the statements, and one use of
/// the variable of the enum for each time that it stands in what was built around them,
/// the last of which writes it where it is assigned.
pub proof fn uses_of_the_enum_are_entered(decl: EnumView, exported: bool, tables: ScopingView)
    requires
        decl.can_lower(tables),
    ensures
        ({
            let redeclarations = tables.redeclarations[decl.id.symbol_id];
            let is_again = tables.redeclarations.contains_key(decl.id.symbol_id)
                && redeclarations.len() > 0 && redeclarations[0] != decl.id.span;
            let is_local = exported || tables.scope_flags[tables.current_scope as int] & TOP != TOP;
            let end = parameterized(decl, tables).after_statements(
                decl.members,
                with_parameter(decl, tables),
            );
            let symbol = decl.id.symbol_id as int;
            let next = end.references.len() as u32;
            let listed = end.symbol_references[symbol];
            let read = (Some(decl.id.symbol_id), tables.current_scope, READ);
            let write = (Some(decl.id.symbol_id), tables.current_scope, WRITE);
            decl.after_lowered(exported, tables) == (if is_again {
                ScopingView {
                    references: end.references.push(read).push(write),
                    symbol_references: end.symbol_references.update(
                        symbol,
                        listed.push(next).push((next + 1) as u32),
                    ),
                    ..end
                }
            } else if is_local {
                end
            } else {
                ScopingView {
                    references: end.references.push(read),
                    symbol_references: end.symbol_references.update(symbol, listed.push(next)),
                    ..end
                }
            })
        }),
{
    decl.lemma_after_function(tables);
    let end = decl.after_function(tables);
    assert(with_parameter(decl, tables) == decl.with_param(tables));
    assert(end.current_scope == tables.current_scope);
    let symbol = decl.id.symbol_id as int;
    let once = decl.variable().after_read(end);
    let next = end.references.len() as u32;
    assert(once.symbol_references[symbol] == end.symbol_references[symbol].push(next));
    let twice = once.with_bound_reference(decl.id.symbol_id, WRITE);
    assert(twice.symbol_references =~= end.symbol_references.update(
        symbol,
        end.symbol_references[symbol].push(next).push((next + 1) as u32),
    ));
}

/// A call that takes the place of an enum is not pure where an initializer is a call or
/// an instantiation, whatever its parts.
pub proof fn calls_and_instantiations_are_not_pure(
    decl: EnumView,
    exported: bool,
    tables: ScopingView,
    i: int,
)
    requires
        0 <= i < decl.members.len(),
        decl.members[i].initializer matches Some(SourceView::Node { kind, .. }) && (kind
            == NodeKind::CallExpression || kind == NodeKind::NewExpression),
    ensures
        decl.call(exported, tables) matches ExpressionView::Call { pure, .. } && !pure,
{
}

/// The value of a member whose initializer has no constant value and is neither a string
/// literal nor a template is mapped back to the name of the member.
pub proof fn other_values_are_mapped_back(
    body: BodyView,
    members: Seq<MemberView>,
    tables: ScopingView,
    i: int,
    initializer: SourceView,
)
    requires
        body.can_lower_all(members, tables),
        0 <= i < members.len(),
        members[i].initializer == Some(initializer),
        ({
            let bindings = tables.scope_bindings[body.scope_id as int];
            !(bindings.contains_key(members[i].name) && tables.enum_values.contains_key(
                bindings[members[i].name],
            ))
        }),
        match initializer {
            SourceView::Identifier(_) => true,
            SourceView::StaticMember(_) => true,
            SourceView::Node { kind, .. } => kind != NodeKind::StringLiteral && kind
                != NodeKind::TemplateLiteral,
        },
    ensures
        exists|id: u32, outer: u32|
            body.statements(members, tables)[i] == (StatementView::Expression {
                span: members[i].span,
                expression: both_entries(
                    members[i].span,
                    #[trigger] use_of(body.param.name, outer),
                    #[trigger] use_of(body.param.name, id),
                    members[i].name,
                    value_of(body.statements(members, tables)[i]),
                ),
            }),
{
    members_are_entered(body, members, tables, i);
    members_have_their_values(body, members, tables, i);
}

} // verus!
