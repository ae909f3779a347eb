use vstd::prelude::*;

use vstd::hash_map::StringHashMap;

use crate::error::{CompileError, ErrV};

verus! {

/// Ghost model of an instruction operand.
#[verifier::ext_equal]
pub enum VarV {
    Named(Seq<char>),
    Constant(usize),
}

/// An instruction operand: either a literal constant or a named parameter
/// still awaiting substitution.
#[derive(Debug, Clone, PartialEq, Eq, Hash)]
pub enum Variable {
    Named(String),
    Constant(usize),
}

impl View for Variable {
    type V = VarV;

    open spec fn view(&self) -> VarV {
        match self {
            Variable::Named(s) => VarV::Named(s@),
            Variable::Constant(u) => VarV::Constant(*u),
        }
    }
}

/// The ghost contents of a substitution table.
pub open spec fn subst_map_view(m: Map<Seq<char>, Variable>) -> Map<Seq<char>, VarV> {
    m.map_values(|v: Variable| v@)
}

/// Resolving one operand through a substitution mapping: constants stand,
/// names are looked up, and a name absent from the mapping fails.
pub open spec fn subst_var(v: VarV, m: Map<Seq<char>, VarV>) -> Result<VarV, ErrV> {
    match v {
        VarV::Constant(u) => Ok(VarV::Constant(u)),
        VarV::Named(n) => if m.dom().contains(n) {
            Ok(m[n])
        } else {
            Err(ErrV::UnboundVariable(n))
        },
    }
}

/// Forcing an operand to its constant value: a name that survives to
/// flattening was never bound by any substitution.
pub open spec fn force_const(v: VarV) -> Result<usize, ErrV> {
    match v {
        VarV::Constant(u) => Ok(u),
        VarV::Named(n) => Err(ErrV::UnboundVariable(n)),
    }
}

/// Ghost model of a `Result` holding an operand.
pub open spec fn var_result_view(r: Result<Variable, CompileError>) -> Result<VarV, ErrV> {
    match r {
        Ok(v) => Ok(v@),
        Err(e) => Err(e@),
    }
}

impl Variable {
    /// The numeric value of a constant operand.
    pub fn unwrap_value(&self) -> (r: usize)
        requires
            self@ is Constant,
        ensures
            self@ == VarV::Constant(r),
    {
        match self {
            Variable::Constant(value) => *value,
            Variable::Named(_) => vstd::pervasive::unreached(),
        }
    }

    /// A deep copy that keeps the operand's value.
    pub fn copy(&self) -> (r: Self)
        ensures
            r@ == self@,
    {
        match self {
            Variable::Named(name) => Variable::Named(name.clone()),
            Variable::Constant(u) => Variable::Constant(*u),
        }
    }

    /// Resolves this operand through the substitution mapping: a constant is
    /// returned unchanged, a name is replaced by its entry, and a name with
    /// no entry is an unbound-variable error.
    pub fn try_substitute(&self, mapping: &StringHashMap<Variable>) -> (r: Result<
        Variable,
        CompileError,
    >)
        ensures
            var_result_view(r) == subst_var(self@, subst_map_view(mapping@)),
    {
        match self {
            Variable::Constant(u) => Ok(Variable::Constant(*u)),
            Variable::Named(name) => match mapping.get(name.as_str()) {
                Some(v) => Ok(v.copy()),
                None => Err(CompileError::UnboundVariable(name.clone())),
            },
        }
    }
}

} // verus!
