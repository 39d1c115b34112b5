//! The scope tree and symbol table of a program.
//!
//! The tables are those of [`TraverseScoping`]. They are opaque to the verifier, so
//! their contents are named here, table by table, and gathered in a
//! [`ScopingView`]. Each function below makes one call on the tables and states, over
//! those names, what the call reads and what it changes.

use crate::ast::Span;
use crate::number::Number;
use oxc_syntax::reference::ReferenceFlags;
use oxc_syntax::reference::ReferenceId;
use oxc_syntax::scope::ScopeFlags;
use oxc_syntax::scope::ScopeId;
use oxc_syntax::symbol::SymbolFlags;
use oxc_syntax::symbol::SymbolId;
use oxc_traverse::TraverseScoping;
use vstd::prelude::*;
use vstd::utf8::encode_utf8;

verus! {

/// Symbol flag of a `var` variable or a parameter.
pub const FUNCTION_SCOPED_VARIABLE: u32 = 0x1;

/// Symbol flag of an `enum` that is not `const`.
pub const REGULAR_ENUM: u32 = 0x400;

/// Symbol flag of a `const enum`.
pub const CONST_ENUM: u32 = 0x800;

/// Symbol flag of a member of an enum.
pub const ENUM_MEMBER: u32 = 0x1000;

/// Scope flag of the top-level scope of a program.
pub const TOP: u16 = 0x2;

/// Reference flag of a variable that is read.
pub const READ: u8 = 0x1;

/// Reference flag of a variable that is written.
pub const WRITE: u8 = 0x2;

/// How many symbols the symbol table holds at most: doubling the lists that it is made
/// of may from here on exceed the `isize::MAX` bytes of a 32-bit address space.
pub const SYMBOL_LIMIT: u32 = 0x0200_0000;

/// How many references to one symbol, or to one unresolved name, the tables hold at
/// most. A list of them doubles where it is full, and an arena refuses a list, with
/// what it needs for itself, of more than `isize::MAX` bytes.
pub const REFERENCE_LIMIT: u32 = 0x0fff_f000;

/// The scope tree and symbol table of a program under traversal.
#[verifier::external_type_specification]
#[verifier::external_body]
pub struct ExTraverseScoping<'a>(TraverseScoping<'a>);

/// The scope that the traversal is in.
pub uninterp spec fn current_scope(scoping: TraverseScoping) -> u32;

/// The flags of each scope.
pub uninterp spec fn scope_flag_table(scoping: TraverseScoping) -> Seq<u16>;

/// The parent of each scope.
pub uninterp spec fn scope_parent_table(scoping: TraverseScoping) -> Seq<Option<u32>>;

/// The symbol that each name is bound to, for each scope.
pub uninterp spec fn scope_binding_table(scoping: TraverseScoping) -> Seq<Map<Seq<char>, u32>>;

/// The name of each symbol.
pub uninterp spec fn symbol_name_table(scoping: TraverseScoping) -> Seq<Seq<char>>;

/// The flags of each symbol.
pub uninterp spec fn symbol_flag_table(scoping: TraverseScoping) -> Seq<u32>;

/// The scope that each symbol is declared in.
pub uninterp spec fn symbol_scope_table(scoping: TraverseScoping) -> Seq<u32>;

/// The references that are resolved to each symbol.
pub uninterp spec fn symbol_reference_table(scoping: TraverseScoping) -> Seq<Seq<u32>>;

/// The spans of all declarations of each symbol that is declared more than once.
pub uninterp spec fn redeclaration_table(scoping: TraverseScoping) -> Map<u32, Seq<Span>>;

/// The symbol, the scope and the flags of each reference.
pub uninterp spec fn reference_table(scoping: TraverseScoping) -> Seq<(Option<u32>, u32, u8)>;

/// The references that are resolved to no symbol, by name.
pub uninterp spec fn unresolved_table(scoping: TraverseScoping) -> Map<Seq<char>, Seq<u32>>;

/// The constant values of enum members, by the symbol of the member.
pub uninterp spec fn enum_value_table(scoping: TraverseScoping) -> Map<u32, ConstantView>;

/// The scopes of the bodies of each enum, by the symbol of the enum.
pub uninterp spec fn enum_body_table(scoping: TraverseScoping) -> Map<u32, Seq<u32>>;

/// The constant value of an enum member.
#[derive(Debug)]
pub enum ConstantValue {
    Number(Number),
    String(String),
}

/// The contents of a [`ConstantValue`].
pub enum ConstantView {
    Number(Number),
    String(Seq<char>),
}

impl ConstantValue {
    pub open spec fn view(self) -> ConstantView {
        match self {
            ConstantValue::Number(value) => ConstantView::Number(value),
            ConstantValue::String(value) => ConstantView::String(value@),
        }
    }
}

/// The contents of the tables.
#[verifier::ext_equal]
pub struct ScopingView {
    pub current_scope: u32,
    pub scope_flags: Seq<u16>,
    pub scope_parents: Seq<Option<u32>>,
    pub scope_bindings: Seq<Map<Seq<char>, u32>>,
    pub symbol_names: Seq<Seq<char>>,
    pub symbol_flags: Seq<u32>,
    pub symbol_scopes: Seq<u32>,
    pub symbol_references: Seq<Seq<u32>>,
    pub redeclarations: Map<u32, Seq<Span>>,
    pub references: Seq<(Option<u32>, u32, u8)>,
    pub unresolved: Map<Seq<char>, Seq<u32>>,
    pub enum_values: Map<u32, ConstantView>,
    pub enum_bodies: Map<u32, Seq<u32>>,
}

/// What the tables hold.
pub open spec fn tables(scoping: TraverseScoping) -> ScopingView {
    ScopingView {
        current_scope: current_scope(scoping),
        scope_flags: scope_flag_table(scoping),
        scope_parents: scope_parent_table(scoping),
        scope_bindings: scope_binding_table(scoping),
        symbol_names: symbol_name_table(scoping),
        symbol_flags: symbol_flag_table(scoping),
        symbol_scopes: symbol_scope_table(scoping),
        symbol_references: symbol_reference_table(scoping),
        redeclarations: redeclaration_table(scoping),
        references: reference_table(scoping),
        unresolved: unresolved_table(scoping),
        enum_values: enum_value_table(scoping),
        enum_bodies: enum_body_table(scoping),
    }
}

/// Whether a name is short enough to be an identifier: its length is stored in
/// 32 bits.
pub open spec fn name_fits(name: Seq<char>) -> bool {
    encode_utf8(name).len() <= u32::MAX
}

impl ScopingView {
    pub open spec fn has_scope(self, scope_id: u32) -> bool {
        scope_id < self.scope_bindings.len()
    }

    pub open spec fn has_symbol(self, symbol_id: u32) -> bool {
        symbol_id < self.symbol_names.len()
    }

    pub open spec fn has_reference(self, reference_id: u32) -> bool {
        reference_id < self.references.len()
    }

    /// Whether an entry of the reference table exists, and the symbol that it is
    /// resolved to.
    pub open spec fn can_resolve(self, reference_id: u32) -> bool {
        &&& self.has_reference(reference_id)
        &&& match self.references[reference_id as int].0 {
            Some(symbol_id) => self.has_symbol(symbol_id),
            None => true,
        }
    }

    /// Whether a scope exists, and the symbol that it binds a name to.
    pub open spec fn can_look_up(self, scope_id: u32, name: Seq<char>) -> bool {
        &&& self.has_scope(scope_id)
        &&& match self.binding(scope_id, name) {
            Some(symbol_id) => self.has_symbol(symbol_id),
            None => true,
        }
    }

    /// Whether going from parent to parent leads from `scope_id` to a scope without
    /// a parent, in at most `steps` steps.
    pub open spec fn reaches_root(self, scope_id: u32, steps: nat) -> bool
        decreases steps,
    {
        &&& self.has_scope(scope_id)
        &&& match self.scope_parents[scope_id as int] {
            None => true,
            Some(parent) => steps > 0 && self.reaches_root(parent, (steps - 1) as nat),
        }
    }

    /// Every scope and every symbol has all of its entries, the scopes around the current
    /// one end in a root, and every symbol that a name is bound to exists.
    pub open spec fn wf(self) -> bool {
        &&& self.scope_flags.len() == self.scope_bindings.len()
        &&& self.scope_parents.len() == self.scope_bindings.len()
        &&& self.symbol_flags.len() == self.symbol_names.len()
        &&& self.symbol_scopes.len() == self.symbol_names.len()
        &&& self.symbol_references.len() == self.symbol_names.len()
        &&& self.reaches_root(self.current_scope, self.scope_bindings.len())
        &&& forall|scope_id: u32, name: Seq<char>|
            #![trigger self.scope_bindings[scope_id as int].contains_key(name)]
            self.has_scope(scope_id) && self.scope_bindings[scope_id as int].contains_key(name)
                ==> self.has_symbol(self.scope_bindings[scope_id as int][name])
    }

    /// Whether `count` more references fit, whatever they refer to.
    pub open spec fn has_room(self, count: nat) -> bool {
        &&& count <= REFERENCE_LIMIT
        &&& self.references.len() + count <= u32::MAX
        &&& forall|symbol_id: int|
            0 <= symbol_id < self.symbol_references.len() ==> (
            #[trigger] self.symbol_references[symbol_id]).len() + count <= REFERENCE_LIMIT
        &&& forall|name: Seq<char>| #[trigger]
            self.unresolved.contains_key(name) ==> self.unresolved[name].len() + count
                <= REFERENCE_LIMIT
    }

    /// Whether these tables are `before` with references added: scopes, symbols and
    /// enums are the same, and no reference that was there has changed.
    pub open spec fn extends(self, before: ScopingView) -> bool {
        &&& self.current_scope == before.current_scope
        &&& self.scope_flags == before.scope_flags
        &&& self.scope_parents == before.scope_parents
        &&& self.scope_bindings == before.scope_bindings
        &&& self.symbol_names == before.symbol_names
        &&& self.symbol_flags == before.symbol_flags
        &&& self.symbol_scopes == before.symbol_scopes
        &&& self.redeclarations == before.redeclarations
        &&& self.enum_values == before.enum_values
        &&& self.enum_bodies == before.enum_bodies
        &&& before.references.is_prefix_of(self.references)
    }

    /// The symbol that `name` is bound to in a scope itself.
    pub open spec fn binding(self, scope_id: u32, name: Seq<char>) -> Option<u32> {
        if self.scope_bindings[scope_id as int].contains_key(name) {
            Some(self.scope_bindings[scope_id as int][name])
        } else {
            None
        }
    }

    /// The symbol that `name` is bound to in a scope or in one of the `steps` scopes
    /// around it, the innermost first.
    pub open spec fn lookup(self, scope_id: u32, name: Seq<char>, steps: nat) -> Option<u32>
        decreases steps,
    {
        match self.binding(scope_id, name) {
            Some(symbol_id) => Some(symbol_id),
            None => match self.scope_parents[scope_id as int] {
                Some(parent) if steps > 0 => self.lookup(parent, name, (steps - 1) as nat),
                _ => None,
            },
        }
    }

    /// The symbol that `name` refers to in a scope.
    pub open spec fn resolve(self, scope_id: u32, name: Seq<char>) -> Option<u32> {
        self.lookup(scope_id, name, self.scope_bindings.len())
    }

    /// The tables with one more symbol, bound to its name.
    pub open spec fn with_binding(self, name: Seq<char>, scope_id: u32, flags: u32) -> ScopingView {
        let symbol_id = self.symbol_names.len() as u32;
        ScopingView {
            symbol_names: self.symbol_names.push(name),
            symbol_flags: self.symbol_flags.push(flags),
            symbol_scopes: self.symbol_scopes.push(scope_id),
            symbol_references: self.symbol_references.push(Seq::empty()),
            scope_bindings: self.scope_bindings.update(
                scope_id as int,
                self.scope_bindings[scope_id as int].insert(name, symbol_id),
            ),
            ..self
        }
    }

    /// The entry that the next new reference takes.
    pub open spec fn next_reference(self) -> u32 {
        self.references.len() as u32
    }

    /// The tables with one more reference in the current scope, to a symbol.
    pub open spec fn with_bound_reference(self, symbol_id: u32, flags: u8) -> ScopingView {
        let ids = self.symbol_references[symbol_id as int].push(self.next_reference());
        ScopingView {
            references: self.references.push((Some(symbol_id), self.current_scope, flags)),
            symbol_references: self.symbol_references.update(symbol_id as int, ids),
            ..self
        }
    }

    /// The tables with one more reference in the current scope, to no symbol.
    pub open spec fn with_unbound_reference(self, name: Seq<char>, flags: u8) -> ScopingView {
        let ids = if self.unresolved.contains_key(name) {
            self.unresolved[name]
        } else {
            Seq::empty()
        };
        ScopingView {
            references: self.references.push((None, self.current_scope, flags)),
            unresolved: self.unresolved.insert(name, ids.push(self.next_reference())),
            ..self
        }
    }

    /// The tables with one more reference in the current scope.
    pub open spec fn with_reference(
        self,
        name: Seq<char>,
        symbol_id: Option<u32>,
        flags: u8,
    ) -> ScopingView {
        match symbol_id {
            Some(symbol_id) => self.with_bound_reference(symbol_id, flags),
            None => self.with_unbound_reference(name, flags),
        }
    }
}

impl ScopingView {
    /// The way to the root depends on the parents alone.
    proof fn lemma_same_way_to_root(self, other: ScopingView, scope_id: u32, steps: nat)
        requires
            self.scope_parents == other.scope_parents,
            self.scope_bindings.len() == other.scope_bindings.len(),
        ensures
            self.reaches_root(scope_id, steps) == other.reaches_root(scope_id, steps),
        decreases steps,
    {
        match self.scope_parents[scope_id as int] {
            Some(parent) if steps > 0 => {
                self.lemma_same_way_to_root(other, parent, (steps - 1) as nat);
            },
            _ => {},
        }
    }

    /// A new binding keeps the tables well-formed, and takes no room for references.
    pub proof fn lemma_with_binding(self, name: Seq<char>, scope_id: u32, flags: u32, room: nat)
        requires
            self.wf(),
            self.has_scope(scope_id),
            self.symbol_names.len() < SYMBOL_LIMIT,
            self.has_room(room),
        ensures
            self.with_binding(name, scope_id, flags).wf(),
            self.with_binding(name, scope_id, flags).has_room(room),
    {
        let after = self.with_binding(name, scope_id, flags);
        self.lemma_same_way_to_root(after, self.current_scope, self.scope_bindings.len());
        assert forall|scope: u32, key: Seq<char>|
            #![trigger after.scope_bindings[scope as int].contains_key(key)]
            after.has_scope(scope)
                && after.scope_bindings[scope as int].contains_key(key) implies after.has_symbol(
            after.scope_bindings[scope as int][key],
        ) by {
            if scope == scope_id && key == name {
            } else {
                assert(self.scope_bindings[scope as int].contains_key(key));
            }
        }
    }

    /// A new reference keeps the tables well-formed, and takes room for one.
    pub proof fn lemma_with_reference(
        self,
        name: Seq<char>,
        symbol_id: Option<u32>,
        flags: u8,
        room: nat,
    )
        requires
            self.wf(),
            symbol_id matches Some(id) ==> self.has_symbol(id),
            self.has_room(room + 1),
        ensures
            self.with_reference(name, symbol_id, flags).wf(),
            self.with_reference(name, symbol_id, flags).has_room(room),
    {
        let after = self.with_reference(name, symbol_id, flags);
        self.lemma_same_way_to_root(after, self.current_scope, self.scope_bindings.len());
        assert forall|id: int| 0 <= id < after.symbol_references.len() implies (
        #[trigger] after.symbol_references[id]).len() + room <= REFERENCE_LIMIT by {
            assert(self.symbol_references[id].len() + (room + 1) <= REFERENCE_LIMIT);
        }
    }

    /// Where more references fit, fewer do.
    pub proof fn lemma_less_room(self, count: nat, fewer: nat)
        requires
            self.has_room(count),
            fewer <= count,
        ensures
            self.has_room(fewer),
    {
    }

    /// A name is only ever resolved to an existing symbol.
    pub proof fn lemma_lookup(self, scope_id: u32, name: Seq<char>, steps: nat)
        requires
            self.wf(),
            self.reaches_root(scope_id, steps),
        ensures
            self.lookup(scope_id, name, steps) matches Some(symbol_id) ==> self.has_symbol(
                symbol_id,
            ),
        decreases steps,
    {
        match self.scope_parents[scope_id as int] {
            Some(parent) if steps > 0 => {
                self.lemma_lookup(parent, name, (steps - 1) as nat);
            },
            _ => {},
        }
    }
}

/// Calls `TraverseScoping::current_scope_id`, which returns the scope that the
/// traversal is in.
#[verifier::external_body]
pub(crate) fn current_scope_id(scoping: &TraverseScoping) -> (scope_id: u32)
    ensures
        scope_id == current_scope(*scoping),
{
    scoping.current_scope_id().index() as u32
}

/// Calls `Scoping::scope_flags`, which returns the flags of an existing scope.
#[verifier::external_body]
pub(crate) fn scope_flags(scoping: &TraverseScoping, scope_id: u32) -> (flags: u16)
    requires
        scope_id < scope_flag_table(*scoping).len(),
    ensures
        flags == scope_flag_table(*scoping)[scope_id as int],
{
    scoping.scoping().scope_flags(ScopeId::from_usize(scope_id as usize)).bits()
}

/// Calls `Scoping::get_binding`, which looks a name up among the bindings of an
/// existing scope.
#[verifier::external_body]
pub(crate) fn get_binding(scoping: &TraverseScoping, scope_id: u32, name: &str) -> (symbol_id:
    Option<u32>)
    requires
        tables(*scoping).has_scope(scope_id),
        name_fits(name@),
    ensures
        symbol_id == (if scope_binding_table(*scoping)[scope_id as int].contains_key(name@) {
            Some(scope_binding_table(*scoping)[scope_id as int][name@])
        } else {
            None
        }),
{
    let symbol_id = scoping.scoping().get_binding(
        ScopeId::from_usize(scope_id as usize),
        name.into(),
    );
    symbol_id.map(|symbol_id| symbol_id.index() as u32)
}

/// Calls `Scoping::find_binding`, which looks a name up in a scope, then in its
/// parent, and so on until the name is bound or a scope has no parent.
#[verifier::external_body]
pub(crate) fn find_binding(scoping: &TraverseScoping, scope_id: u32, name: &str) -> (symbol_id:
    Option<u32>)
    requires
        tables(*scoping).reaches_root(scope_id, tables(*scoping).scope_bindings.len()),
        scope_parent_table(*scoping).len() == scope_binding_table(*scoping).len(),
        name_fits(name@),
    ensures
        symbol_id == tables(*scoping).resolve(scope_id, name@),
{
    let symbol_id = scoping.scoping().find_binding(
        ScopeId::from_usize(scope_id as usize),
        name.into(),
    );
    symbol_id.map(|symbol_id| symbol_id.index() as u32)
}

/// Calls `Scoping::symbol_flags`, which returns the flags of an existing symbol.
#[verifier::external_body]
pub(crate) fn symbol_flags(scoping: &TraverseScoping, symbol_id: u32) -> (flags: u32)
    requires
        symbol_id < symbol_flag_table(*scoping).len(),
    ensures
        flags == symbol_flag_table(*scoping)[symbol_id as int],
{
    scoping.scoping().symbol_flags(SymbolId::from_usize(symbol_id as usize)).bits()
}

/// Calls `Scoping::symbol_scope_id`, which returns the scope that an existing symbol
/// is declared in.
#[verifier::external_body]
pub(crate) fn symbol_scope_id(scoping: &TraverseScoping, symbol_id: u32) -> (scope_id: u32)
    requires
        symbol_id < symbol_scope_table(*scoping).len(),
    ensures
        scope_id == symbol_scope_table(*scoping)[symbol_id as int],
{
    scoping.scoping().symbol_scope_id(SymbolId::from_usize(symbol_id as usize)).index() as u32
}

/// Calls `Scoping::symbol_redeclarations`, which returns all declarations of a symbol
/// that is declared more than once, and none for any other symbol. Only their spans
/// are handed on.
#[verifier::external_body]
pub(crate) fn symbol_redeclarations(scoping: &TraverseScoping, symbol_id: u32) -> (spans: Vec<
    Span,
>)
    requires
        tables(*scoping).has_symbol(symbol_id),
    ensures
        spans@ == (if redeclaration_table(*scoping).contains_key(symbol_id) {
            redeclaration_table(*scoping)[symbol_id]
        } else {
            Seq::empty()
        }),
{
    let symbol_id = SymbolId::from_usize(symbol_id as usize);
    let redeclarations = scoping.scoping().symbol_redeclarations(symbol_id);
    redeclarations.iter().map(|it| Span { start: it.span.start, end: it.span.end }).collect()
}

/// Calls `Scoping::get_reference`, which returns an existing reference, and hands on
/// the symbol that it is resolved to.
#[verifier::external_body]
pub(crate) fn reference_symbol(scoping: &TraverseScoping, reference_id: u32) -> (symbol_id: Option<
    u32,
>)
    requires
        tables(*scoping).has_reference(reference_id),
    ensures
        symbol_id == reference_table(*scoping)[reference_id as int].0,
{
    let reference_id = ReferenceId::from_usize(reference_id as usize);
    let symbol_id = scoping.scoping().get_reference(reference_id).symbol_id();
    symbol_id.map(|symbol_id| symbol_id.index() as u32)
}

/// Calls `Scoping::get_enum_member_value`, which returns the constant value of an enum
/// member where it has been computed.
#[verifier::external_body]
pub(crate) fn get_enum_member_value(scoping: &TraverseScoping, symbol_id: u32) -> (value: Option<
    ConstantValue,
>)
    requires
        tables(*scoping).has_symbol(symbol_id),
    ensures
        match value {
            Some(value) => enum_value_table(*scoping).contains_key(symbol_id)
                && enum_value_table(*scoping)[symbol_id] == value@,
            None => !enum_value_table(*scoping).contains_key(symbol_id),
        },
{
    let symbol_id = SymbolId::from_usize(symbol_id as usize);
    match scoping.scoping().get_enum_member_value(symbol_id)? {
        oxc_syntax::constant_value::ConstantValue::Number(value) => {
            Some(ConstantValue::Number(Number { bits: value.to_bits() }))
        },
        oxc_syntax::constant_value::ConstantValue::String(value) => {
            Some(ConstantValue::String(value.to_string()))
        },
    }
}

/// Calls `Scoping::get_enum_body_scopes`, which returns the scopes of the bodies of an
/// enum, one for each of its declarations.
#[verifier::external_body]
pub(crate) fn get_enum_body_scopes(scoping: &TraverseScoping, symbol_id: u32) -> (scopes: Option<
    Vec<u32>,
>)
    requires
        tables(*scoping).has_symbol(symbol_id),
    ensures
        match scopes {
            Some(scopes) => enum_body_table(*scoping).contains_key(symbol_id)
                && enum_body_table(*scoping)[symbol_id] == scopes@,
            None => !enum_body_table(*scoping).contains_key(symbol_id),
        },
{
    let symbol_id = SymbolId::from_usize(symbol_id as usize);
    let scopes = scoping.scoping().get_enum_body_scopes(symbol_id)?;
    Some(scopes.iter().map(|scope_id| scope_id.index() as u32).collect())
}

/// Calls `TraverseScoping::generate_binding`, which adds a symbol to the symbol table
/// and binds its name to it in an existing scope, in place of what the name was bound
/// to there.
#[verifier::external_body]
pub(crate) fn generate_binding<'a>(
    scoping: &mut TraverseScoping<'a>,
    name: &'a str,
    scope_id: u32,
    flags: u32,
) -> (symbol_id: u32)
    requires
        tables(*old(scoping)).has_scope(scope_id),
        tables(*old(scoping)).symbol_names.len() < SYMBOL_LIMIT,
        name_fits(name@),
    ensures
        symbol_id == symbol_name_table(*old(scoping)).len(),
        symbol_name_table(*final(scoping)) == symbol_name_table(*old(scoping)).push(name@),
        scope_parent_table(*final(scoping)) == scope_parent_table(*old(scoping)),
        tables(*final(scoping)) == tables(*old(scoping)).with_binding(name@, scope_id, flags),
{
    let scope_id = ScopeId::from_usize(scope_id as usize);
    let flags = SymbolFlags::from_bits_retain(flags);
    scoping.generate_binding(name.into(), scope_id, flags).symbol_id.index() as u32
}

/// Calls `TraverseScoping::create_bound_reference`, which adds a reference in the
/// current scope to an existing symbol.
#[verifier::external_body]
pub(crate) fn create_bound_reference(
    scoping: &mut TraverseScoping,
    symbol_id: u32,
    flags: u8,
) -> (reference_id: u32)
    requires
        symbol_id < tables(*old(scoping)).symbol_references.len(),
        tables(*old(scoping)).has_room(1),
    ensures
        reference_id == tables(*old(scoping)).next_reference(),
        symbol_reference_table(*final(scoping))[symbol_id as int] == symbol_reference_table(
            *old(scoping),
        )[symbol_id as int].push(reference_id),
        tables(*final(scoping)) == tables(*old(scoping)).with_bound_reference(symbol_id, flags),
{
    let symbol_id = SymbolId::from_usize(symbol_id as usize);
    let flags = ReferenceFlags::from_bits_retain(flags);
    scoping.create_bound_reference(symbol_id, flags).index() as u32
}

/// Calls `TraverseScoping::create_reference`, which adds a reference in the current
/// scope: to an existing symbol, or under a name that is not resolved.
#[verifier::external_body]
pub(crate) fn create_reference(
    scoping: &mut TraverseScoping,
    name: &str,
    symbol_id: Option<u32>,
    flags: u8,
) -> (reference_id: u32)
    requires
        symbol_id matches Some(id) ==> id < tables(*old(scoping)).symbol_references.len(),
        tables(*old(scoping)).has_room(1),
        name_fits(name@),
    ensures
        reference_id == tables(*old(scoping)).next_reference(),
        symbol_id is Some ==> unresolved_table(*final(scoping)) == unresolved_table(*old(scoping)),
        tables(*final(scoping)) == tables(*old(scoping)).with_reference(name@, symbol_id, flags),
{
    let symbol_id = symbol_id.map(|symbol_id| SymbolId::from_usize(symbol_id as usize));
    let flags = ReferenceFlags::from_bits_retain(flags);
    scoping.create_reference(name.into(), symbol_id, flags).index() as u32
}

/// Calls `SymbolFlags::contains`, which tells whether all of some flags are set.
#[verifier::external_body]
pub(crate) fn symbol_flags_contain(flags: u32, other: u32) -> (contained: bool)
    ensures
        contained == (flags & other == other),
{
    SymbolFlags::from_bits_retain(flags).contains(SymbolFlags::from_bits_retain(other))
}

/// Calls `SymbolFlags::is_const_enum`, which tests one flag.
#[verifier::external_body]
pub(crate) fn is_const_enum(flags: u32) -> (is: bool)
    ensures
        is == (flags & CONST_ENUM != 0),
{
    SymbolFlags::from_bits_retain(flags).is_const_enum()
}

/// Calls `SymbolFlags::is_enum_member`, which tests one flag.
#[verifier::external_body]
pub(crate) fn is_enum_member(flags: u32) -> (is: bool)
    ensures
        is == (flags & ENUM_MEMBER == ENUM_MEMBER),
{
    SymbolFlags::from_bits_retain(flags).is_enum_member()
}

/// Calls `ScopeFlags::is_top`, which tests one flag.
#[verifier::external_body]
pub(crate) fn is_top(flags: u16) -> (is: bool)
    ensures
        is == (flags & TOP == TOP),
{
    ScopeFlags::from_bits_retain(flags).is_top()
}

/// The tables hold what each of their parts holds.
pub proof fn tables_are_complete(scoping: TraverseScoping)
    ensures
        tables(scoping).current_scope == current_scope(scoping),
        tables(scoping).scope_flags == scope_flag_table(scoping),
        tables(scoping).scope_parents == scope_parent_table(scoping),
        tables(scoping).scope_bindings == scope_binding_table(scoping),
        tables(scoping).symbol_names == symbol_name_table(scoping),
        tables(scoping).symbol_flags == symbol_flag_table(scoping),
        tables(scoping).symbol_scopes == symbol_scope_table(scoping),
        tables(scoping).symbol_references == symbol_reference_table(scoping),
        tables(scoping).redeclarations == redeclaration_table(scoping),
        tables(scoping).references == reference_table(scoping),
        tables(scoping).unresolved == unresolved_table(scoping),
        tables(scoping).enum_values == enum_value_table(scoping),
        tables(scoping).enum_bodies == enum_body_table(scoping),
{
}

impl ScopingView {
    /// A name refers to what it is bound to in a scope, and where it is not bound there,
    /// to what it refers to in the parent of the scope, or to nothing where there is none.
    pub proof fn inner_bindings_come_first(self, scope_id: u32, name: Seq<char>)
        requires
            self.reaches_root(scope_id, self.scope_bindings.len()),
        ensures
            self.resolve(scope_id, name) == (if self.scope_bindings[scope_id as int].contains_key(
                name,
            ) {
                Some(self.scope_bindings[scope_id as int][name])
            } else {
                match self.scope_parents[scope_id as int] {
                    Some(parent) => self.resolve(parent, name),
                    None => None,
                }
            }),
    {
        if let Some(parent) = self.scope_parents[scope_id as int] {
            let steps = (self.scope_bindings.len() - 1) as nat;
            self.lemma_enough_steps(parent, name, steps);
        }
    }

    /// Steps beyond the root change nothing.
    proof fn lemma_enough_steps(self, scope_id: u32, name: Seq<char>, steps: nat)
        requires
            self.reaches_root(scope_id, steps),
        ensures
            self.lookup(scope_id, name, steps) == self.lookup(scope_id, name, steps + 1),
        decreases steps,
    {
        match self.scope_parents[scope_id as int] {
            Some(parent) if steps > 0 => {
                self.lemma_enough_steps(parent, name, (steps - 1) as nat);
            },
            _ => {},
        }
    }

    /// A new reference is the last entry of the reference table. It is listed with its
    /// symbol, or with its name where it has none, and changes nothing else.
    pub proof fn references_are_listed(self, name: Seq<char>, symbol_id: Option<u32>, flags: u8)
        ensures
            ({
                let id = self.references.len() as u32;
                let entry = (symbol_id, self.current_scope, flags);
                self.with_reference(name, symbol_id, flags) == (match symbol_id {
                    Some(symbol) => ScopingView {
                        references: self.references.push(entry),
                        symbol_references: self.symbol_references.update(
                            symbol as int,
                            self.symbol_references[symbol as int].push(id),
                        ),
                        ..self
                    },
                    None => ScopingView {
                        references: self.references.push(entry),
                        unresolved: self.unresolved.insert(
                            name,
                            if self.unresolved.contains_key(name) {
                                self.unresolved[name].push(id)
                            } else {
                                seq![id]
                            },
                        ),
                        ..self
                    },
                })
            }),
            symbol_id matches Some(symbol) ==> self.with_bound_reference(symbol, flags)
                == self.with_reference(name, symbol_id, flags),
    {
        assert(Seq::<u32>::empty().push(self.next_reference()) =~= seq![self.next_reference()]);
    }

    /// A new symbol is the last entry of the symbol table, has no references, and is
    /// what its name is bound to in its scope. It changes nothing else.
    pub proof fn symbols_are_bound(self, name: Seq<char>, scope_id: u32, flags: u32)
        ensures
            ({
                let scope = scope_id as int;
                self.with_binding(name, scope_id, flags) == (ScopingView {
                    symbol_names: self.symbol_names.push(name),
                    symbol_flags: self.symbol_flags.push(flags),
                    symbol_scopes: self.symbol_scopes.push(scope_id),
                    symbol_references: self.symbol_references.push(seq![]),
                    scope_bindings: self.scope_bindings.update(
                        scope,
                        self.scope_bindings[scope].insert(name, self.symbol_names.len() as u32),
                    ),
                    ..self
                })
            }),
    {
    }
}

/// A constant value keeps what it holds.
pub proof fn constants_keep_their_contents(number: Number, text: String)
    ensures
        ConstantValue::Number(number)@ == ConstantView::Number(number),
        ConstantValue::String(text)@ == ConstantView::String(text@),
{
}

} // verus!
