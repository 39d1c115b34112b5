//! Qualifies the enum members that an initializer refers to.

use crate::ast::parts_view;
use crate::ast::IdentifierName;
use crate::ast::IdentifierReference;
use crate::ast::IdentifierView;
use crate::ast::NameView;
use crate::ast::Part;
use crate::ast::PartView;
use crate::ast::SourceExpression;
use crate::ast::SourceView;
use crate::ast::Span;
use crate::ast::StaticMemberExpression;
use crate::ast::StaticMemberView;
use crate::scoping::get_binding;
use crate::scoping::is_enum_member;
use crate::scoping::name_fits;
use crate::scoping::reference_symbol;
use crate::scoping::symbol_flags;
use crate::scoping::symbol_scope_id;
use crate::scoping::tables;
use crate::scoping::ScopingView;
use crate::scoping::ENUM_MEMBER;
use oxc_data_structures::stack::NonEmptyStack;
use oxc_traverse::TraverseScoping;
use vstd::prelude::*;

verus! {

/// A stack that always holds at least one item.
#[verifier::external_type_specification]
#[verifier::external_body]
#[verifier::reject_recursive_types(T)]
pub struct ExNonEmptyStack<T>(NonEmptyStack<T>);

/// The items on a stack, the first that was put on it first.
pub uninterp spec fn stacked(stack: NonEmptyStack<u32>) -> Seq<u32>;

/// How many items a stack can hold: it takes at most `isize::MAX` bytes.
pub open spec fn stack_capacity() -> int {
    isize::MAX as int / 4
}

/// Calls `NonEmptyStack::new`, which makes a stack that holds one item.
#[verifier::external_body]
fn new_stack(scope_id: u32) -> (stack: NonEmptyStack<u32>)
    ensures
        stacked(stack) == seq![scope_id],
{
    NonEmptyStack::new(scope_id)
}

/// Calls `NonEmptyStack::push`, which puts an item on a stack that is not full.
#[verifier::external_body]
fn push(stack: &mut NonEmptyStack<u32>, scope_id: u32)
    requires
        stacked(*old(stack)).len() < stack_capacity(),
    ensures
        stacked(*final(stack)) == stacked(*old(stack)).push(scope_id),
{
    stack.push(scope_id);
}

/// Calls `NonEmptyStack::pop`, which takes the last item off a stack that holds
/// another one.
#[verifier::external_body]
fn pop(stack: &mut NonEmptyStack<u32>) -> (scope_id: u32)
    requires
        stacked(*old(stack)).len() > 1,
    ensures
        scope_id == stacked(*old(stack)).last(),
        stacked(*final(stack)) == stacked(*old(stack)).drop_last(),
{
    stack.pop()
}

/// Calls `NonEmptyStack::first`, which returns the first item of a stack. There is
/// always one.
#[verifier::external_body]
fn first(stack: &NonEmptyStack<u32>) -> (scope_id: u32)
    ensures
        scope_id == stacked(*stack)[0],
{
    *stack.first()
}

/// Calls `contains` on the slice that `NonEmptyStack` dereferences to, which tells
/// whether an item is on the stack.
#[verifier::external_body]
fn contains(stack: &NonEmptyStack<u32>, scope_id: u32) -> (found: bool)
    ensures
        found == stacked(*stack).contains(scope_id),
{
    stack.contains(&scope_id)
}

/// An enum whose members are to be qualified with its name.
pub struct RenameView {
    pub enum_name: Seq<char>,
    pub enum_scope_id: u32,
    pub tables: ScopingView,
}

impl RenameView {
    /// Whether the scope of the enum binds `name` to a member of an enum.
    pub open spec fn names_member(self, name: Seq<char>) -> bool {
        match self.tables.binding(self.enum_scope_id, name) {
            Some(symbol_id) => self.tables.symbol_flags[symbol_id as int] & ENUM_MEMBER
                == ENUM_MEMBER,
            None => false,
        }
    }

    /// Whether an identifier stands for a member of the enum: it has the name of a
    /// member, and is not resolved to a variable of one of the scopes inside the enum
    /// that it stands in.
    pub open spec fn refers_to_member(
        self,
        identifier: IdentifierView,
        scopes: Seq<u32>,
    ) -> bool {
        &&& self.names_member(identifier.name)
        &&& match self.tables.references[identifier.reference_id->0 as int].0 {
            None => true,
            Some(symbol_id) => {
                let scope_id = self.tables.symbol_scopes[symbol_id as int];
                scope_id == self.enum_scope_id || !scopes.contains(scope_id)
            },
        }
    }

    /// `enum_name.identifier`
    pub open spec fn qualified(self, identifier: IdentifierView) -> SourceView {
        SourceView::StaticMember(
            StaticMemberView {
                span: Span::empty(),
                object: Box::new(
                    SourceView::Identifier(
                        IdentifierView {
                            span: Span::empty(),
                            name: self.enum_name,
                            reference_id: None,
                        },
                    ),
                ),
                property: NameView { span: Span::empty(), name: identifier.name },
                optional: false,
            },
        )
    }

    /// An expression inside `scopes`, with the members of the enum qualified.
    pub open spec fn rename(self, expression: SourceView, scopes: Seq<u32>) -> SourceView
        decreases expression,
    {
        match expression {
            SourceView::Identifier(identifier) => if self.refers_to_member(identifier, scopes) {
                self.qualified(identifier)
            } else {
                expression
            },
            SourceView::StaticMember(member) => SourceView::StaticMember(
                StaticMemberView {
                    object: Box::new(self.rename(*member.object, scopes)),
                    ..member
                },
            ),
            SourceView::Node { kind, id, parts } => SourceView::Node {
                kind,
                id,
                parts: self.rename_parts(parts, scopes),
            },
        }
    }

    pub open spec fn rename_part(self, part: PartView, scopes: Seq<u32>) -> PartView
        decreases part,
    {
        match part {
            PartView::Expression(expression) => PartView::Expression(
                self.rename(expression, scopes),
            ),
            PartView::Scope { scope_id, parts } => PartView::Scope {
                scope_id,
                parts: self.rename_parts(parts, scopes.push(scope_id)),
            },
        }
    }

    pub open spec fn rename_parts(self, parts: Seq<PartView>, scopes: Seq<u32>) -> Seq<PartView>
        decreases parts,
    {
        Seq::new(
            parts.len(),
            |i: int|
                if 0 <= i < parts.len() {
                    self.rename_part(parts[i], scopes)
                } else {
                    arbitrary()
                },
        )
    }

    /// Whether an expression inside `scopes` can be visited: each identifier with the
    /// name of a member has an entry of the reference table, to a symbol that exists, and
    /// the scopes fit the stack.
    pub open spec fn can_visit(self, expression: SourceView, scopes: Seq<u32>) -> bool
        decreases expression,
    {
        match expression {
            SourceView::Identifier(identifier) => {
                &&& name_fits(identifier.name)
                &&& self.names_member(identifier.name) ==> match identifier.reference_id {
                    Some(reference_id) => self.tables.can_resolve(reference_id),
                    None => false,
                }
            },
            SourceView::StaticMember(member) => self.can_visit(*member.object, scopes),
            SourceView::Node { kind, id, parts } => self.can_visit_parts(parts, scopes),
        }
    }

    pub open spec fn can_visit_part(self, part: PartView, scopes: Seq<u32>) -> bool
        decreases part,
    {
        match part {
            PartView::Expression(expression) => self.can_visit(expression, scopes),
            PartView::Scope { scope_id, parts } => scopes.len() < stack_capacity()
                && self.can_visit_parts(parts, scopes.push(scope_id)),
        }
    }

    pub open spec fn can_visit_parts(self, parts: Seq<PartView>, scopes: Seq<u32>) -> bool
        decreases parts,
    {
        forall|i: int| 0 <= i < parts.len() ==> self.can_visit_part(#[trigger] parts[i], scopes)
    }

    /// An expression can still be visited when references have been added.
    pub proof fn lemma_can_visit_extends(
        self,
        after: ScopingView,
        expression: SourceView,
        scopes: Seq<u32>,
    )
        requires
            after.extends(self.tables),
            self.can_visit(expression, scopes),
        ensures
            (RenameView { tables: after, ..self }).can_visit(expression, scopes),
        decreases expression,
    {
        match expression {
            SourceView::Identifier(identifier) => {},
            SourceView::StaticMember(member) => {
                self.lemma_can_visit_extends(after, *member.object, scopes);
            },
            SourceView::Node { kind, id, parts } => {
                self.lemma_can_visit_parts_extends(after, parts, scopes);
            },
        }
    }

    proof fn lemma_can_visit_part_extends(
        self,
        after: ScopingView,
        part: PartView,
        scopes: Seq<u32>,
    )
        requires
            after.extends(self.tables),
            self.can_visit_part(part, scopes),
        ensures
            (RenameView { tables: after, ..self }).can_visit_part(part, scopes),
        decreases part,
    {
        match part {
            PartView::Expression(expression) => {
                self.lemma_can_visit_extends(after, expression, scopes);
            },
            PartView::Scope { scope_id, parts } => {
                self.lemma_can_visit_parts_extends(after, parts, scopes.push(scope_id));
            },
        }
    }

    proof fn lemma_can_visit_parts_extends(
        self,
        after: ScopingView,
        parts: Seq<PartView>,
        scopes: Seq<u32>,
    )
        requires
            after.extends(self.tables),
            self.can_visit_parts(parts, scopes),
        ensures
            (RenameView { tables: after, ..self }).can_visit_parts(parts, scopes),
        decreases parts,
    {
        let other = RenameView { tables: after, ..self };
        assert forall|i: int| 0 <= i < parts.len() implies other.can_visit_part(
            #[trigger] parts[i],
            scopes,
        ) by {
            self.lemma_can_visit_part_extends(after, parts[i], scopes);
        }
    }

    /// References that are added change nothing in what an expression becomes.
    pub proof fn references_keep_renaming(
        self,
        after: ScopingView,
        expression: SourceView,
        scopes: Seq<u32>,
    )
        requires
            after.extends(self.tables),
            self.can_visit(expression, scopes),
        ensures
            (RenameView { tables: after, ..self }).rename(expression, scopes) == self.rename(
                expression,
                scopes,
            ),
        decreases expression,
    {
        match expression {
            SourceView::Identifier(identifier) => {
                if let Some(reference_id) = identifier.reference_id {
                    let k = reference_id as int;
                    if self.tables.has_reference(reference_id) {
                        assert(after.references.subrange(
                            0,
                            self.tables.references.len() as int,
                        )[k] == after.references[k]);
                    }
                }
            },
            SourceView::StaticMember(member) => {
                self.references_keep_renaming(after, *member.object, scopes);
            },
            SourceView::Node { kind, id, parts } => {
                self.lemma_references_keep_parts(after, parts, scopes);
            },
        }
    }

    proof fn lemma_references_keep_part(
        self,
        after: ScopingView,
        part: PartView,
        scopes: Seq<u32>,
    )
        requires
            after.extends(self.tables),
            self.can_visit_part(part, scopes),
        ensures
            (RenameView { tables: after, ..self }).rename_part(part, scopes) == self.rename_part(
                part,
                scopes,
            ),
        decreases part,
    {
        match part {
            PartView::Expression(expression) => {
                self.references_keep_renaming(after, expression, scopes);
            },
            PartView::Scope { scope_id, parts } => {
                self.lemma_references_keep_parts(after, parts, scopes.push(scope_id));
            },
        }
    }

    proof fn lemma_references_keep_parts(
        self,
        after: ScopingView,
        parts: Seq<PartView>,
        scopes: Seq<u32>,
    )
        requires
            after.extends(self.tables),
            self.can_visit_parts(parts, scopes),
        ensures
            (RenameView { tables: after, ..self }).rename_parts(parts, scopes) == self.rename_parts(
                parts,
                scopes,
            ),
        decreases parts,
    {
        let other = RenameView { tables: after, ..self };
        assert forall|i: int| 0 <= i < parts.len() implies other.rename_part(parts[i], scopes)
            == self.rename_part(parts[i], scopes) by {
            self.lemma_references_keep_part(after, parts[i], scopes);
        }
        assert(other.rename_parts(parts, scopes) =~= self.rename_parts(parts, scopes));
    }
}

/// Renames the identifiers that stand for members of an enum to `enum_name.identifier`.
/// ```ts
/// enum A {
///   a = 1,
///   b = a.toString(),
///   c = f(),
///   d = c,
/// }
/// ```
/// becomes
/// ```ts
/// enum A {
///   a = 1,
///   b = A.a.toString(),
///   c = f(),
///   d = A.c,
/// }
/// ```
pub struct IdentifierReferenceRename<'a, 'ctx> {
    enum_name: &'a str,
    enum_scope_id: u32,
    scope_stack: NonEmptyStack<u32>,
    scoping: &'ctx TraverseScoping<'a>,
}

impl<'a, 'ctx> IdentifierReferenceRename<'a, 'ctx> {
    /// The enum whose members are qualified.
    pub closed spec fn view(self) -> RenameView {
        RenameView {
            enum_name: self.enum_name@,
            enum_scope_id: self.enum_scope_id,
            tables: tables(*self.scoping),
        }
    }

    /// The scope of the enum, and the scopes inside it that the visit is in.
    pub closed spec fn scopes(self) -> Seq<u32> {
        stacked(self.scope_stack)
    }

    /// The visit is inside the scope of the enum, which exists.
    pub open spec fn wf(self) -> bool {
        &&& self@.tables.wf()
        &&& self@.tables.has_scope(self@.enum_scope_id)
        &&& self.scopes().len() > 0
        &&& self.scopes()[0] == self@.enum_scope_id
    }

    pub fn new(
        enum_name: &'a str,
        enum_scope_id: u32,
        scoping: &'ctx TraverseScoping<'a>,
    ) -> (rename: Self)
        requires
            tables(*scoping).wf(),
            tables(*scoping).has_scope(enum_scope_id),
        ensures
            rename.wf(),
            rename@ == (RenameView {
                enum_name: enum_name@,
                enum_scope_id,
                tables: tables(*scoping),
            }),
            rename.scopes() == seq![enum_scope_id],
    {
        IdentifierReferenceRename {
            enum_name,
            enum_scope_id,
            scope_stack: new_stack(enum_scope_id),
            scoping,
        }
    }

    /// Whether an identifier stands for a member of the enum.
    pub fn should_reference_enum_member(&self, ident: &IdentifierReference<'_>) -> (should: bool)
        requires
            self.wf(),
            self@.can_visit(SourceView::Identifier(ident@), self.scopes()),
        ensures
            should == self@.refers_to_member(ident@, self.scopes()),
    {
        // The parameter, which has the name of the enum, is bound in the scope of the enum
        // too. It is told from the members by its flags.
        let is_member = match get_binding(self.scoping, self.enum_scope_id, ident.name) {
            Some(symbol_id) => is_enum_member(symbol_flags(self.scoping, symbol_id)),
            None => false,
        };
        if !is_member {
            return false;
        }
        let symbol_id = match ident.reference_id {
            Some(reference_id) => reference_symbol(self.scoping, reference_id),
            None => None,
        };
        match symbol_id {
            // No variable has the name, yet it is bound in the scope of the enum: it can
            // only be that of a member from an earlier declaration of the enum, as in
            // `enum Foo { A }; enum Foo { B = A }`.
            None => true,
            // A variable of a scope inside the enum, such as a member of a nested enum,
            // is what the identifier stands for. A variable around the enum is shadowed
            // by the member.
            Some(symbol_id) => {
                let scope_id = symbol_scope_id(self.scoping, symbol_id);
                first(&self.scope_stack) == scope_id || !contains(&self.scope_stack, scope_id)
            },
        }
    }

    /// Goes into a scope.
    pub fn enter_scope(&mut self, scope_id: u32)
        requires
            old(self).wf(),
            old(self).scopes().len() < stack_capacity(),
        ensures
            final(self).wf(),
            final(self)@ == old(self)@,
            final(self).scopes() == old(self).scopes().push(scope_id),
    {
        push(&mut self.scope_stack, scope_id);
    }

    /// Leaves the scope that was entered last.
    pub fn leave_scope(&mut self)
        requires
            old(self).wf(),
            old(self).scopes().len() > 1,
        ensures
            final(self).wf(),
            final(self)@ == old(self)@,
            final(self).scopes() == old(self).scopes().drop_last(),
    {
        pop(&mut self.scope_stack);
    }

    /// Qualifies the members of the enum in an expression.
    pub fn visit_expression(&mut self, expr: &mut SourceExpression<'a>)
        requires
            old(self).wf(),
            old(self)@.can_visit(old(expr)@, old(self).scopes()),
        ensures
            final(self).wf(),
            final(self)@ == old(self)@,
            final(self).scopes() == old(self).scopes(),
            final(expr)@ == old(self)@.rename(old(expr)@, old(self).scopes()),
        decreases *old(expr),
    {
        match expr {
            SourceExpression::Identifier(ident) => {
                let ident = *ident;
                if self.should_reference_enum_member(&ident) {
                    let object = SourceExpression::Identifier(
                        IdentifierReference {
                            span: Span::empty(),
                            name: self.enum_name,
                            reference_id: None,
                        },
                    );
                    assert(object@ is Identifier);
                    *expr = SourceExpression::StaticMember(
                        StaticMemberExpression {
                            span: Span::empty(),
                            object: Box::new(object),
                            property: IdentifierName { span: Span::empty(), name: ident.name },
                            optional: false,
                        },
                    );
                }
            },
            SourceExpression::StaticMember(member) => {
                self.visit_expression(&mut member.object);
            },
            SourceExpression::Node { parts, .. } => {
                self.visit_parts(parts);
            },
        }
    }

    /// Qualifies the members of the enum in the parts of a node.
    fn visit_parts(&mut self, parts: &mut Vec<Part<'a>>)
        requires
            old(self).wf(),
            old(self)@.can_visit_parts(parts_view(old(parts)@), old(self).scopes()),
        ensures
            final(self).wf(),
            final(self)@ == old(self)@,
            final(self).scopes() == old(self).scopes(),
            parts_view(final(parts)@) == old(self)@.rename_parts(
                parts_view(old(parts)@),
                old(self).scopes(),
            ),
        decreases old(parts)@,
    {
        let mut i: usize = 0;
        while i < parts.len()
            invariant
                i <= parts@.len(),
                parts@.len() == old(parts)@.len(),
                self.wf(),
                self@ == old(self)@,
                self.scopes() == old(self).scopes(),
                self@.can_visit_parts(parts_view(old(parts)@), self.scopes()),
                forall|j: int| i <= j < parts@.len() ==> parts@[j] == old(parts)@[j],
                forall|j: int|
                    0 <= j < i ==> (#[trigger] parts@[j]).view() == self@.rename_part(
                        old(parts)@[j].view(),
                        self.scopes(),
                    ),
            decreases parts@.len() - i,
        {
            assert(parts_view(old(parts)@)[i as int] == parts@[i as int].view());
            let part = &mut parts[i];
            self.visit_part(part);
            i = i + 1;
        }
    }

    /// Qualifies the members of the enum in one part of a node.
    fn visit_part(&mut self, part: &mut Part<'a>)
        requires
            old(self).wf(),
            old(self)@.can_visit_part(old(part)@, old(self).scopes()),
        ensures
            final(self).wf(),
            final(self)@ == old(self)@,
            final(self).scopes() == old(self).scopes(),
            final(part)@ == old(self)@.rename_part(old(part)@, old(self).scopes()),
        decreases *old(part),
    {
        match part {
            Part::Expression(expression) => {
                self.visit_expression(expression);
            },
            Part::Scope { scope_id, parts } => {
                let scope_id = *scope_id;
                self.enter_scope(scope_id);
                self.visit_parts(parts);
                self.leave_scope();
            },
        }
    }
}

} // verus!
