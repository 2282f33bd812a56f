//! Scopes: the names visible at a point of a module and what they stand for.
use vstd::prelude::*;

use std::rc::Rc;

use super::constexpr::{ConstType, ConstValue};
use super::local::LocalType;
use crate::ast::Node;
use crate::tokeniser::IdentId;
use crate::util::ordered_map::{concrete_eq, lemma_keys_distinct};
use crate::util::text::chars_of;
use crate::util::interner::lemma_interner_distinct;
use crate::util::{Interner, ModuleId, OrderedMap, Pos};

verus! {

/// An argument of a circuit.
#[derive(Debug, Clone, Copy, Eq, PartialEq)]
pub struct CircArg {
    pub name: IdentId,
    pub ty: ConstType,
    pub default: Option<ConstValue>,
    pub pos: Pos,
}

/// Where the body of a circuit comes from: items of a module, or a circuit
/// of a library, by its number among the library circuits.
#[derive(Debug)]
pub enum CircKind {
    Module(Vec<Node>),
    Library { external_circ_id: usize },
}

/// A circuit declared in a scope.
#[derive(Debug)]
pub struct CircSymbol {
    pub module_id: ModuleId,
    pub name: IdentId,
    pub args: OrderedMap<IdentId, CircArg>,
    pub kind: CircKind,
    pub pos: Pos,
}

/// A constant declared in a scope.
#[derive(Debug, Clone, Copy, Eq, PartialEq)]
pub struct ConstSymbol {
    pub name: IdentId,
    pub ty: ConstType,
    pub value: ConstValue,
    pub pos: Pos,
}

/// An enum declared in a scope, with the positions of its variants.
#[derive(Debug)]
pub struct EnumSymbol {
    pub module_id: ModuleId,
    pub name: IdentId,
    pub variants: OrderedMap<IdentId, Pos>,
    pub pos: Pos,
}

impl EnumSymbol {
    pub fn get_type(&self) -> (t: ConstType)
        ensures
            t == (ConstType::Enum { module_id: self.module_id, enum_name: self.name }),
    {
        ConstType::Enum { module_id: self.module_id, enum_name: self.name }
    }
}

/// A local of a circuit: a pin or a dependency.
#[derive(Debug, Clone, Copy, Eq, PartialEq)]
pub struct LocalSymbol {
    pub name: IdentId,
    pub ty: LocalType,
    pub pos: Pos,
}

/// A module imported into a scope.
#[derive(Debug, Clone, Copy, Eq, PartialEq)]
pub struct ModuleSymbol {
    pub name: IdentId,
    pub module_id: ModuleId,
    pub pos: Pos,
}

/// The kind of a symbol, as named in messages.
#[derive(Debug, Clone, Copy, PartialEq, Eq, Structural)]
pub enum ScopeSymbolType {
    Circ,
    Const,
    EnumType,
    PrimitiveType,
    Local,
    Module,
}

impl ScopeSymbolType {
    pub open spec fn spec_error_msg_str(self) -> Seq<char> {
        match self {
            ScopeSymbolType::Circ => "circuit"@,
            ScopeSymbolType::Const => "constant"@,
            ScopeSymbolType::EnumType => "enum"@,
            ScopeSymbolType::PrimitiveType => "primitive type"@,
            ScopeSymbolType::Local => "local"@,
            ScopeSymbolType::Module => "module"@,
        }
    }

    pub fn error_msg_str(&self) -> (r: &'static str)
        ensures
            r@ == self.spec_error_msg_str(),
    {
        match self {
            ScopeSymbolType::Circ => "circuit",
            ScopeSymbolType::Const => "constant",
            ScopeSymbolType::EnumType => "enum",
            ScopeSymbolType::PrimitiveType => "primitive type",
            ScopeSymbolType::Local => "local",
            ScopeSymbolType::Module => "module",
        }
    }
}

/// What a name in a scope stands for.
#[derive(Debug)]
pub enum ScopeSymbol {
    Circ(Rc<CircSymbol>),
    Const(ConstSymbol),
    EnumType(Rc<EnumSymbol>),
    EnumValue { module_id: ModuleId, enum_name: IdentId, variant: IdentId },
    PrimitiveType(ConstType),
    Local(LocalSymbol),
    Module(ModuleSymbol),
}

impl ScopeSymbol {
    pub open spec fn spec_name(&self) -> IdentId {
        match self {
            ScopeSymbol::Circ(c) => c.name,
            ScopeSymbol::Const(c) => c.name,
            ScopeSymbol::EnumType(e) => e.name,
            ScopeSymbol::Local(l) => l.name,
            ScopeSymbol::Module(m) => m.name,
            _ => 0,
        }
    }

    /// The name the symbol was declared with; enum values and primitive types have none.
    pub fn name(&self) -> (r: IdentId)
        requires
            !(*self is EnumValue),
            !(*self is PrimitiveType),
        ensures
            r == self.spec_name(),
    {
        match self {
            ScopeSymbol::Circ(c) => c.name,
            ScopeSymbol::Const(c) => c.name,
            ScopeSymbol::EnumType(e) => e.name,
            ScopeSymbol::Local(l) => l.name,
            ScopeSymbol::Module(m) => m.name,
            _ => 0,
        }
    }

    pub open spec fn spec_get_type(&self) -> ScopeSymbolType {
        match self {
            ScopeSymbol::Circ(_) => ScopeSymbolType::Circ,
            ScopeSymbol::Const(_) => ScopeSymbolType::Const,
            ScopeSymbol::EnumType(_) => ScopeSymbolType::EnumType,
            ScopeSymbol::PrimitiveType(_) => ScopeSymbolType::PrimitiveType,
            ScopeSymbol::Local(_) => ScopeSymbolType::Local,
            _ => ScopeSymbolType::Module,
        }
    }

    /// The kind of the symbol; enum values have none.
    pub fn get_type(&self) -> (r: ScopeSymbolType)
        requires
            !(*self is EnumValue),
        ensures
            r == self.spec_get_type(),
    {
        match self {
            ScopeSymbol::Circ(_) => ScopeSymbolType::Circ,
            ScopeSymbol::Const(_) => ScopeSymbolType::Const,
            ScopeSymbol::EnumType(_) => ScopeSymbolType::EnumType,
            ScopeSymbol::PrimitiveType(_) => ScopeSymbolType::PrimitiveType,
            ScopeSymbol::Local(_) => ScopeSymbolType::Local,
            _ => ScopeSymbolType::Module,
        }
    }

    /// A second handle on the same symbol.
    pub fn duplicate(&self) -> (r: Self)
        ensures
            r == *self,
    {
        match self {
            ScopeSymbol::Circ(c) => ScopeSymbol::Circ(Rc::clone(c)),
            ScopeSymbol::Const(c) => ScopeSymbol::Const(*c),
            ScopeSymbol::EnumType(e) => ScopeSymbol::EnumType(Rc::clone(e)),
            ScopeSymbol::EnumValue { module_id, enum_name, variant } => ScopeSymbol::EnumValue {
                module_id: *module_id,
                enum_name: *enum_name,
                variant: *variant,
            },
            ScopeSymbol::PrimitiveType(t) => ScopeSymbol::PrimitiveType(*t),
            ScopeSymbol::Local(l) => ScopeSymbol::Local(*l),
            ScopeSymbol::Module(m) => ScopeSymbol::Module(*m),
        }
    }

    pub open spec fn spec_pos(&self) -> Pos {
        match self {
            ScopeSymbol::Circ(c) => c.pos,
            ScopeSymbol::Const(c) => c.pos,
            ScopeSymbol::EnumType(e) => e.pos,
            ScopeSymbol::PrimitiveType(_) => Pos::Builtin,
            ScopeSymbol::Local(l) => l.pos,
            ScopeSymbol::Module(m) => m.pos,
            _ => Pos::Absent,
        }
    }

    /// Where the symbol was declared; primitive types are builtin, enum values have no place.
    pub fn pos(&self) -> (r: Pos)
        requires
            !(*self is EnumValue),
        ensures
            r == self.spec_pos(),
    {
        match self {
            ScopeSymbol::Circ(c) => c.pos,
            ScopeSymbol::Const(c) => c.pos,
            ScopeSymbol::EnumType(e) => e.pos,
            ScopeSymbol::PrimitiveType(_) => Pos::Builtin,
            ScopeSymbol::Local(l) => l.pos,
            ScopeSymbol::Module(m) => m.pos,
            _ => Pos::Absent,
        }
    }
}

/// The value stored under `k` in a list of distinct keys and their values.
pub open spec fn assoc(keys: Seq<IdentId>, values: Seq<ScopeSymbol>, k: IdentId) -> Option<ScopeSymbol> {
    if keys.contains(k) {
        Some(values[keys.index_of(k)])
    } else {
        None
    }
}

/// The names declared in a scope, and the scope it sits in.
#[derive(Debug)]
pub struct Scope {
    parent: Option<Rc<Scope>>,
    symbols: OrderedMap<IdentId, ScopeSymbol>,
}

impl Scope {
    /// The scope and those it sits in are well formed.
    pub closed spec fn wf(&self) -> bool
        decreases self,
    {
        &&& self.symbols.wf()
        &&& match self.parent {
            Some(p) => p.wf(),
            None => true,
        }
    }

    /// What `name` stands for in this scope itself.
    pub closed spec fn own(&self, name: IdentId) -> Option<ScopeSymbol> {
        assoc(self.symbols.key_seq(), self.symbols.value_seq(), name)
    }

    /// What `name` stands for here: its declaration in this scope, else in
    /// the scopes it sits in, innermost first.
    pub closed spec fn lookup(&self, name: IdentId) -> Option<ScopeSymbol>
        decreases self,
    {
        match self.own(name) {
            Some(s) => Some(s),
            None => match self.parent {
                Some(p) => p.lookup(name),
                None => None,
            },
        }
    }

    /// The scope this one sits in.
    pub closed spec fn spec_parent(&self) -> Option<Scope> {
        match self.parent {
            Some(p) => Some(*p),
            None => None,
        }
    }

    /// A name stands for its declaration in this scope if it has one here;
    /// otherwise for what it stands for in the scope this one sits in, and
    /// for nothing in the outermost scope.
    pub proof fn lemma_lookup(&self, name: IdentId)
        ensures
            self.lookup(name) == match self.own(name) {
                Some(s) => Some(s),
                None => match self.spec_parent() {
                    Some(p) => p.lookup(name),
                    None => None,
                },
            },
    {
    }

    /// An empty scope inside `parent`.
    pub fn child(parent: &Rc<Scope>) -> (s: Self)
        requires
            parent.wf(),
        ensures
            s.wf(),
            forall|n: IdentId| #[trigger] s.own(n) is None,
            forall|n: IdentId| #[trigger] s.lookup(n) == parent.lookup(n),
    {
        let s = Scope { parent: Some(Rc::clone(parent)), symbols: OrderedMap::new() };
        s
    }

    /// A scope with no parent and nothing declared.
    pub fn empty() -> (s: Self)
        ensures
            s.wf(),
            s.spec_parent() is None,
            forall|n: IdentId| #[trigger] s.lookup(n) is None,
    {
        Scope { parent: None, symbols: OrderedMap::new() }
    }

    /// Whether `name` is declared here or in the scopes this one sits in.
    pub fn symbol_exists(&self, name: IdentId) -> (r: bool)
        requires
            self.wf(),
            concrete_eq::<IdentId>(),
        ensures
            r == self.lookup(name) is Some,
        decreases self,
    {
        if self.symbols.contains_key(&name) {
            true
        } else {
            match &self.parent {
                Some(p) => p.symbol_exists(name),
                None => false,
            }
        }
    }

    /// Declares `name` in this scope, replacing what it stood for here.
    pub fn add_symbol(&mut self, name: IdentId, symbol: ScopeSymbol)
        requires
            old(self).wf(),
            concrete_eq::<IdentId>(),
        ensures
            final(self).wf(),
            final(self).own(name) == Some(symbol),
            final(self).lookup(name) == Some(symbol),
            forall|n: IdentId| n != name ==> #[trigger] final(self).own(n) == old(self).own(n),
            forall|n: IdentId| n != name ==> #[trigger] final(self).lookup(n) == old(self).lookup(n),
            final(self).spec_parent() == old(self).spec_parent(),
    {
        let ghost old_keys = self.symbols.key_seq();
        let ghost old_values = self.symbols.value_seq();
        let _ = self.symbols.insert(name, symbol);
        proof {
            lemma_keys_distinct(self.symbols);
            lemma_keys_distinct(old(self).symbols);
            let keys = self.symbols.key_seq();
            let values = self.symbols.value_seq();
            assert(keys.contains(name)) by {
                if old_keys.contains(name) {
                    let j = old_keys.index_of(name);
                    assert(keys[j] == name);
                } else {
                    assert(keys[old_keys.len() as int] == name);
                }
            }
            let i = keys.index_of(name);
            if old_keys.contains(name) {
                let j = choose|j: int|
                    0 <= j < old_keys.len() && old_keys[j] == name && values == old_values.update(j, symbol)
                        && keys == old_keys;
                if i != j {
                    assert(keys[i] != keys[j]);
                }
            } else {
                if i != old_keys.len() {
                    assert(old_keys[i] == name);
                }
            }
            assert(self.own(name) == Some(symbol));
            assert forall|n: IdentId| n != name implies #[trigger] self.own(n) == old(self).own(n) by {
                if old_keys.contains(n) {
                    let k = old_keys.index_of(n);
                    assert(keys[k] == n);
                    let kk = keys.index_of(n);
                    if kk != k {
                        assert(keys[kk] != keys[k]);
                    }
                }
                if keys.contains(n) {
                    let kk = keys.index_of(n);
                    if kk < old_keys.len() {
                        assert(old_keys[kk] == n);
                    }
                }
            }
        }
    }

    pub fn add_circ(&mut self, circ: CircSymbol)
        requires
            old(self).wf(),
            concrete_eq::<IdentId>(),
        ensures
            final(self).wf(),
            final(self).spec_parent() == old(self).spec_parent(),
            final(self).lookup(circ.name) == Some(ScopeSymbol::Circ(Rc::new(circ))),
            forall|n: IdentId| n != circ.name ==> #[trigger] final(self).lookup(n) == old(self).lookup(n),
    {
        let name = circ.name;
        self.add_symbol(name, ScopeSymbol::Circ(Rc::new(circ)));
    }

    pub fn add_const(&mut self, c: ConstSymbol)
        requires
            old(self).wf(),
            concrete_eq::<IdentId>(),
        ensures
            final(self).wf(),
            final(self).spec_parent() == old(self).spec_parent(),
            final(self).lookup(c.name) == Some(ScopeSymbol::Const(c)),
            forall|n: IdentId| n != c.name ==> #[trigger] final(self).lookup(n) == old(self).lookup(n),
    {
        let name = c.name;
        self.add_symbol(name, ScopeSymbol::Const(c));
    }

    pub fn add_module(&mut self, module: ModuleSymbol)
        requires
            old(self).wf(),
            concrete_eq::<IdentId>(),
        ensures
            final(self).wf(),
            final(self).spec_parent() == old(self).spec_parent(),
            final(self).lookup(module.name) == Some(ScopeSymbol::Module(module)),
            forall|n: IdentId| n != module.name ==> #[trigger] final(self).lookup(n) == old(self).lookup(n),
    {
        let name = module.name;
        self.add_symbol(name, ScopeSymbol::Module(module));
    }

    pub fn add_enum(&mut self, e: EnumSymbol)
        requires
            old(self).wf(),
            concrete_eq::<IdentId>(),
        ensures
            final(self).wf(),
            final(self).spec_parent() == old(self).spec_parent(),
            final(self).lookup(e.name) == Some(ScopeSymbol::EnumType(Rc::new(e))),
            forall|n: IdentId| n != e.name ==> #[trigger] final(self).lookup(n) == old(self).lookup(n),
    {
        let name = e.name;
        self.add_symbol(name, ScopeSymbol::EnumType(Rc::new(e)));
    }

    pub fn add_local(&mut self, local: LocalSymbol)
        requires
            old(self).wf(),
            concrete_eq::<IdentId>(),
        ensures
            final(self).wf(),
            final(self).spec_parent() == old(self).spec_parent(),
            final(self).lookup(local.name) == Some(ScopeSymbol::Local(local)),
            forall|n: IdentId| n != local.name ==> #[trigger] final(self).lookup(n) == old(self).lookup(n),
    {
        let name = local.name;
        self.add_symbol(name, ScopeSymbol::Local(local));
    }

    /// What `name` stands for here, if anything.
    pub fn get_symbol(&self, name: IdentId) -> (r: Option<&ScopeSymbol>)
        requires
            self.wf(),
            concrete_eq::<IdentId>(),
        ensures
            r is None <==> self.lookup(name) is None,
            r matches Some(s) ==> self.lookup(name) == Some(*s),
        decreases self,
    {
        match self.symbols.get_entry(&name) {
            Some((i, s)) => {
                proof {
                    lemma_keys_distinct(self.symbols);
                    let k = self.symbols.key_seq().index_of(name);
                    if k != i {
                        assert(self.symbols.key_seq()[k] != self.symbols.key_seq()[i as int]);
                    }
                }
                Some(s)
            },
            None => match &self.parent {
                Some(p) => p.get_symbol(name),
                None => None,
            },
        }
    }

    /// The outermost scope: the constants `true` and `false` and the
    /// primitive types `int` and `bool`, their names interned in `interner`.
    pub fn builtin(interner: &mut Interner) -> (s: Rc<Scope>)
        requires
            old(interner).wf(),
            concrete_eq::<IdentId>(),
        ensures
            final(interner).wf(),
            s.wf(),
            s.spec_parent() is None,
            final(interner).view().contains("true"@),
            final(interner).view().contains("false"@),
            final(interner).view().contains("int"@),
            final(interner).view().contains("bool"@),
            forall|i: int|
                0 <= i < final(interner).view().len() && final(interner).view()[i] == "true"@ ==> s.lookup(i as IdentId)
                    == Some(
                    ScopeSymbol::Const(
                        ConstSymbol {
                            name: i as IdentId,
                            ty: ConstType::Bool,
                            value: ConstValue::Bool(true),
                            pos: Pos::Builtin,
                        },
                    ),
                ),
            forall|i: int|
                0 <= i < final(interner).view().len() && final(interner).view()[i] == "false"@ ==> s.lookup(i as IdentId)
                    == Some(
                    ScopeSymbol::Const(
                        ConstSymbol {
                            name: i as IdentId,
                            ty: ConstType::Bool,
                            value: ConstValue::Bool(false),
                            pos: Pos::Builtin,
                        },
                    ),
                ),
            forall|i: int|
                0 <= i < final(interner).view().len() && final(interner).view()[i] == "int"@ ==> s.lookup(i as IdentId)
                    == Some(ScopeSymbol::PrimitiveType(ConstType::Int)),
            forall|i: int|
                0 <= i < final(interner).view().len() && final(interner).view()[i] == "bool"@ ==> s.lookup(i as IdentId)
                    == Some(ScopeSymbol::PrimitiveType(ConstType::Bool)),
            forall|n: IdentId|
                #[trigger] s.lookup(n) is Some ==> n < final(interner).view().len() && (final(interner).view()[n as int]
                    == "true"@ || final(interner).view()[n as int] == "false"@ || final(interner).view()[n as int]
                    == "int"@ || final(interner).view()[n as int] == "bool"@),
    {
        let t = chars_of("true");
        let f = chars_of("false");
        let i = chars_of("int");
        let b = chars_of("bool");
        let id_true = interner.intern_ref(t.as_slice());
        let id_false = interner.intern_ref(f.as_slice());
        let id_int = interner.intern_ref(i.as_slice());
        let id_bool = interner.intern_ref(b.as_slice());
        proof {
            assert(interner.view()[id_true as int] == "true"@);
            assert(interner.view()[id_false as int] == "false"@);
            assert(interner.view()[id_int as int] == "int"@);
            assert(interner.view()[id_bool as int] == "bool"@);
            reveal_strlit("true");
            reveal_strlit("false");
            reveal_strlit("int");
            reveal_strlit("bool");
            lemma_interner_distinct(&*final(interner));
            assert(id_true != id_false && id_true != id_int && id_true != id_bool && id_false != id_int
                && id_false != id_bool && id_int != id_bool) by {
                assert(("true"@).len() == 4 && ("bool"@).len() == 4);
                assert(("true"@)[0] != ("bool"@)[0]);
                assert(("false"@).len() == 5 && ("int"@).len() == 3);
            }
        }
        let mut scope = Scope::empty();
        scope.add_const(
            ConstSymbol { name: id_true, ty: ConstType::Bool, value: ConstValue::Bool(true), pos: Pos::Builtin },
        );
        scope.add_const(
            ConstSymbol { name: id_false, ty: ConstType::Bool, value: ConstValue::Bool(false), pos: Pos::Builtin },
        );
        scope.add_symbol(id_int, ScopeSymbol::PrimitiveType(ConstType::Int));
        scope.add_symbol(id_bool, ScopeSymbol::PrimitiveType(ConstType::Bool));
        proof {
            assert forall|n: IdentId| #[trigger] scope.lookup(n) is Some implies n == id_true || n == id_false || n
                == id_int || n == id_bool by {}
        }
        Rc::new(scope)
    }
}

} // verus!
