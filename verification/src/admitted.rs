//! What the transform can be given: every declaration and every access whose ids exist
//! in the tables, as long as what is added to the tables fits them.

use crate::ast::EnumView;
use crate::ast::IdentifierView;
use crate::ast::MemberView;
use crate::ast::PartView;
use crate::ast::SourceView;
use crate::ast::StaticMemberView;
use crate::model::BodyView;
use crate::outcome::parameterized;
use crate::outcome::with_parameter;
use crate::rename::stack_capacity;
use crate::rename::IdentifierReferenceRename;
use crate::rename::RenameView;
use crate::scoping::name_fits;
use crate::scoping::ScopingView;
use crate::scoping::REFERENCE_LIMIT;
use crate::scoping::SYMBOL_LIMIT;
use vstd::prelude::*;
use vstd::utf8::encode_utf8;

verus! {

/// Names of up to 4 GiB are admitted, and as many scopes inside each other as a stack of
/// ids can hold.
pub proof fn ordinary_sizes_are_admitted(name: Seq<char>)
    requires
        encode_utf8(name).len() <= 0xffff_ffff,
    ensures
        name_fits(name),
        stack_capacity() == isize::MAX / 4,
{
}

impl ScopingView {
    /// A way to the root is one over existing scopes that ends in time.
    pub proof fn ways_to_the_root(self, scope_id: u32, steps: nat)
        requires
            scope_id < self.scope_bindings.len(),
        ensures
            self.scope_parents[scope_id as int] is None ==> self.reaches_root(scope_id, steps),
            self.scope_parents[scope_id as int] matches Some(parent) ==> self.reaches_root(
                parent,
                steps,
            ) ==> self.reaches_root(scope_id, steps + 1),
    {
    }

    /// Tables are admitted whose lists are complete, whose current scope leads to a
    /// root, and whose names are bound to existing symbols.
    pub proof fn consistent_tables_are_admitted(self)
        requires
            self.scope_flags.len() == self.scope_bindings.len(),
            self.scope_parents.len() == self.scope_bindings.len(),
            self.symbol_flags.len() == self.symbol_names.len(),
            self.symbol_scopes.len() == self.symbol_names.len(),
            self.symbol_references.len() == self.symbol_names.len(),
            self.reaches_root(self.current_scope, self.scope_bindings.len()),
            forall|scope_id: int, name: Seq<char>|
                #![trigger self.scope_bindings[scope_id].contains_key(name)]
                0 <= scope_id < self.scope_bindings.len()
                    && self.scope_bindings[scope_id].contains_key(name)
                    ==> self.scope_bindings[scope_id][name] < self.symbol_names.len(),
        ensures
            self.wf(),
    {
    }

    /// References are admitted as long as the ids and the lists of them do not run out.
    pub proof fn references_are_admitted(self, count: nat)
        requires
            count <= REFERENCE_LIMIT,
            self.references.len() + count <= 0xffff_ffff,
            forall|symbol_id: int|
                0 <= symbol_id < self.symbol_references.len()
                    ==> #[trigger] self.symbol_references[symbol_id].len() + count
                    <= REFERENCE_LIMIT,
            forall|name: Seq<char>| #[trigger]
                self.unresolved.contains_key(name) ==> self.unresolved[name].len() + count
                    <= REFERENCE_LIMIT,
        ensures
            self.has_room(count),
    {
    }
}

impl RenameView {
    /// An identifier is admitted where its entry, and the symbol that it is resolved to,
    /// exist. One that has not the name of a member needs none.
    pub proof fn identifiers_are_admitted(self, identifier: IdentifierView, scopes: Seq<u32>)
        requires
            name_fits(identifier.name),
            !self.tables.scope_bindings[self.enum_scope_id as int].contains_key(identifier.name) || {
                let id = identifier.reference_id->0;
                &&& identifier.reference_id is Some
                &&& id < self.tables.references.len()
                &&& self.tables.references[id as int].0 matches Some(symbol_id) ==> symbol_id
                    < self.tables.symbol_names.len()
            },
        ensures
            self.can_visit(SourceView::Identifier(identifier), scopes),
    {
    }

    /// An access is admitted with its object, and any other node with its parts.
    pub proof fn nodes_are_admitted(self, expression: SourceView, scopes: Seq<u32>)
        requires
            match expression {
                SourceView::Identifier(_) => false,
                SourceView::StaticMember(member) => self.can_visit(*member.object, scopes),
                SourceView::Node { parts, .. } => forall|k: int|
                    0 <= k < parts.len() ==> self.can_visit_part(#[trigger] parts[k], scopes),
            },
        ensures
            self.can_visit(expression, scopes),
    {
        if let SourceView::Node { parts, .. } = expression {
            assert(self.can_visit_parts(parts, scopes));
        }
    }

    /// A part of a node is admitted with its expression, or with all that is in its
    /// scope where the stack has place for it.
    pub proof fn parts_are_admitted(self, part: PartView, scopes: Seq<u32>)
        requires
            match part {
                PartView::Expression(expression) => self.can_visit(expression, scopes),
                PartView::Scope { scope_id, parts } => {
                    &&& scopes.len() < isize::MAX / 4
                    &&& forall|k: int|
                        0 <= k < parts.len() ==> self.can_visit_part(
                            #[trigger] parts[k],
                            scopes.push(scope_id),
                        )
                },
            },
        ensures
            self.can_visit_part(part, scopes),
    {
        if let PartView::Scope { scope_id, parts } = part {
            assert(self.can_visit_parts(parts, scopes.push(scope_id)));
        }
    }
}

/// A visit is in order inside the scope of the enum, whatever scopes it is in.
pub proof fn visits_are_admitted(rename: IdentifierReferenceRename)
    requires
        rename@.tables.wf(),
        rename@.enum_scope_id < rename@.tables.scope_bindings.len(),
        rename.scopes().len() > 0,
        rename.scopes()[0] == rename@.enum_scope_id,
    ensures
        rename.wf(),
{
}

/// A member is admitted whose initializer, where its value is not known, can be visited.
pub proof fn members_are_admitted(body: BodyView, member: MemberView, tables: ScopingView)
    requires
        name_fits(member.name),
        member.initializer matches Some(initializer) ==> {
            let bindings = tables.scope_bindings[body.scope_id as int];
            ||| bindings.contains_key(member.name) && tables.enum_values.contains_key(
                bindings[member.name],
            )
            ||| (RenameView {
                enum_name: body.param.name,
                enum_scope_id: body.scope_id,
                tables,
            }).can_visit(initializer, seq![body.scope_id])
        },
    ensures
        body.can_lower(member, tables),
{
}

/// A body is admitted with all of its members, however many references fit the tables.
pub proof fn bodies_are_admitted(body: BodyView, members: Seq<MemberView>, tables: ScopingView)
    requires
        tables.wf(),
        body.scope_id < tables.scope_bindings.len(),
        body.param.symbol_id < tables.symbol_names.len(),
        tables.has_room(3 * members.len() + 1),
        forall|i: int| 0 <= i < members.len() ==> body.can_lower(#[trigger] members[i], tables),
    ensures
        body.can_lower_all(members, tables),
{
}

/// A declaration is admitted with all of its members, however many references fit the
/// tables, where there is place for one more symbol.
pub proof fn declarations_are_admitted(decl: EnumView, tables: ScopingView)
    requires
        tables.wf(),
        decl.scope_id < tables.scope_bindings.len(),
        decl.id.symbol_id < tables.symbol_names.len() < SYMBOL_LIMIT,
        tables.has_room(3 * decl.members.len() + 3),
        name_fits(decl.id.name),
        forall|i: int|
            0 <= i < decl.members.len() ==> parameterized(decl, tables).can_lower(
                #[trigger] decl.members[i],
                with_parameter(decl, tables),
            ),
    ensures
        decl.can_lower(tables),
{
    assert(with_parameter(decl, tables) == decl.with_param(tables));
    assert(parameterized(decl, tables) == decl.body(tables));
}

/// An access is admitted where its object has no entry, or one that is not resolved, or
/// where what it refers to exists.
pub proof fn accesses_are_admitted(access: StaticMemberView, tables: ScopingView)
    requires
        name_fits(access.property.name),
        match *access.object {
            SourceView::Identifier(identifier) => match identifier.reference_id {
                Some(id) => {
                    &&& id < tables.references.len()
                    &&& tables.references[id as int].0 matches Some(symbol_id) ==> {
                        &&& symbol_id < tables.symbol_names.len()
                        &&& symbol_id < tables.symbol_flags.len()
                        &&& tables.enum_bodies.contains_key(symbol_id) ==> forall|k: int|
                            0 <= k < tables.enum_bodies[symbol_id].len() ==> {
                                let scope = #[trigger] tables.enum_bodies[symbol_id][k] as int;
                                let bindings = tables.scope_bindings[scope];
                                &&& scope < tables.scope_bindings.len()
                                &&& bindings.contains_key(access.property.name)
                                    ==> bindings[access.property.name] < tables.symbol_names.len()
                            }
                    }
                },
                None => true,
            },
            _ => true,
        },
    ensures
        access.can_inline(tables),
{
}

} // verus!
