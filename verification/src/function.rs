use vstd::prelude::*;

use vstd::hash_map::StringHashMap;

use crate::error::{CompileError, ErrV};
use crate::instruction::{
    decl_free_inst, decl_free_seq, inst_size, inst_view, insts_size, insts_view,
    lemma_decl_free_index, lemma_inst_size_pos, lemma_insts_size_index,
    lemma_insts_view_drop_first, lemma_insts_view_index, lemma_insts_view_len, vars_view, InstV,
    Instruction,
};
use crate::names::NameSet;
use crate::variable::{force_const, subst_map_view, subst_var, VarV, Variable};

verus! {

/// Ghost model of a post-inlining instruction: all operands are constants and
/// all function calls are gone.
#[verifier::ext_equal]
pub enum FlatV {
    Noop,
    Print,
    Add(usize),
    Sub(usize),
    SetConst(usize),
    Goto(usize),
    Left(usize),
    Right(usize),
    Loop(Seq<FlatV>),
}

/// The intermediate form after inlining: operands resolved to constants,
/// function declarations and calls eliminated.
#[derive(Debug, PartialEq)]
pub enum FlattenedInstruction {
    Noop,
    Print,
    Add(usize),
    Sub(usize),
    SetConst(usize),
    Goto(usize),
    Left(usize),
    Right(usize),
    Loop(Vec<FlattenedInstruction>),
}

pub open spec fn flat_view(i: FlattenedInstruction) -> FlatV
    decreases i,
{
    match i {
        FlattenedInstruction::Noop => FlatV::Noop,
        FlattenedInstruction::Print => FlatV::Print,
        FlattenedInstruction::Add(n) => FlatV::Add(n),
        FlattenedInstruction::Sub(n) => FlatV::Sub(n),
        FlattenedInstruction::SetConst(n) => FlatV::SetConst(n),
        FlattenedInstruction::Goto(n) => FlatV::Goto(n),
        FlattenedInstruction::Left(n) => FlatV::Left(n),
        FlattenedInstruction::Right(n) => FlatV::Right(n),
        FlattenedInstruction::Loop(inner) => FlatV::Loop(flats_view(inner@)),
    }
}

pub open spec fn flats_view(s: Seq<FlattenedInstruction>) -> Seq<FlatV>
    decreases s,
{
    if s.len() == 0 {
        Seq::empty()
    } else {
        flats_view(s.drop_last()).push(flat_view(s.last()))
    }
}

impl View for FlattenedInstruction {
    type V = FlatV;

    open spec fn view(&self) -> FlatV {
        flat_view(*self)
    }
}

pub broadcast proof fn lemma_flats_view_len(s: Seq<FlattenedInstruction>)
    ensures
        (#[trigger] flats_view(s)).len() == s.len(),
    decreases s,
{
    if s.len() > 0 {
        lemma_flats_view_len(s.drop_last());
    }
}

pub broadcast proof fn lemma_flats_view_index(s: Seq<FlattenedInstruction>, i: int)
    requires
        0 <= i < s.len(),
    ensures
        #[trigger] flats_view(s)[i] == flat_view(s[i]),
    decreases s,
{
    lemma_flats_view_len(s);
    if i < s.len() - 1 {
        lemma_flats_view_index(s.drop_last(), i);
    }
}

/// Structural size of an instruction tree; the termination measure for the
/// passes that recurse into loop bodies.
pub open spec fn flat_size(i: FlatV) -> nat
    decreases i,
{
    match i {
        FlatV::Loop(b) => 1 + flats_size(b),
        _ => 1,
    }
}

pub open spec fn flats_size(s: Seq<FlatV>) -> nat
    decreases s,
{
    if s.len() == 0 {
        0
    } else {
        flats_size(s.drop_last()) + flat_size(s.last())
    }
}

pub broadcast proof fn lemma_flats_view_push(s: Seq<FlattenedInstruction>, x: FlattenedInstruction)
    ensures
        #[trigger] flats_view(s.push(x)) == flats_view(s).push(flat_view(x)),
{
    assert(s.push(x).drop_last() =~= s);
    assert(s.push(x).last() == x);
}

pub proof fn lemma_flat_size_pos(i: FlatV)
    ensures
        flat_size(i) >= 1,
{
}

pub proof fn lemma_flats_size_first(s: Seq<FlatV>)
    requires
        s.len() > 0,
    ensures
        flats_size(s) == flat_size(s.first()) + flats_size(s.drop_first()),
    decreases s,
{
    if s.len() == 1 {
        assert(s.drop_first() =~= Seq::<FlatV>::empty());
        assert(s.drop_last() =~= Seq::<FlatV>::empty());
    } else {
        lemma_flats_size_first(s.drop_last());
        assert(s.drop_last().first() == s.first());
        assert(s.drop_last().drop_first() =~= s.drop_first().drop_last());
        assert(s.drop_first().last() == s.last());
    }
}

pub proof fn lemma_flats_view_drop_first(s: Seq<FlattenedInstruction>)
    requires
        s.len() > 0,
    ensures
        flats_view(s.drop_first()) == flats_view(s).drop_first(),
        flats_view(s).first() == flat_view(s.first()),
        flats_view(s).len() == s.len(),
{
    lemma_flats_view_len(s);
    lemma_flats_view_len(s.drop_first());
    assert(flats_view(s.drop_first()) =~= flats_view(s).drop_first()) by {
        assert forall|i: int| 0 <= i < s.len() - 1 implies flats_view(s.drop_first())[i]
            == flats_view(s).drop_first()[i] by {
            lemma_flats_view_index(s.drop_first(), i);
            lemma_flats_view_index(s, i + 1);
            assert(s.drop_first()[i] == s[i + 1]);
        }
    };
    lemma_flats_view_index(s, 0);
}

pub proof fn lemma_flats_view_singleton(x: FlattenedInstruction)
    ensures
        flats_view(seq![x]) == seq![flat_view(x)],
{
    lemma_flats_view_push(Seq::empty(), x);
    assert(seq![x] =~= Seq::<FlattenedInstruction>::empty().push(x));
    assert(flats_view(Seq::<FlattenedInstruction>::empty()) == Seq::<FlatV>::empty());
    assert(seq![flat_view(x)] =~= Seq::<FlatV>::empty().push(flat_view(x)));
}

pub proof fn lemma_flats_view_concat(a: Seq<FlattenedInstruction>, b: Seq<FlattenedInstruction>)
    ensures
        flats_view(a + b) == flats_view(a) + flats_view(b),
{
    lemma_flats_view_len(a + b);
    lemma_flats_view_len(a);
    lemma_flats_view_len(b);
    assert(flats_view(a + b) =~= flats_view(a) + flats_view(b)) by {
        assert forall|i: int| 0 <= i < a.len() + b.len() implies flats_view(a + b)[i] == (
        flats_view(a) + flats_view(b))[i] by {
            lemma_flats_view_index(a + b, i);
            if i < a.len() {
                lemma_flats_view_index(a, i);
                assert((a + b)[i] == a[i]);
            } else {
                lemma_flats_view_index(b, i - a.len());
                assert((a + b)[i] == b[i - a.len()]);
            }
        }
    };
}

pub proof fn lemma_flats_view_cons(s: Seq<FlattenedInstruction>, x: FlattenedInstruction)
    ensures
        flats_view(s.insert(0, x)) == seq![flat_view(x)] + flats_view(s),
{
    let t = s.insert(0, x);
    lemma_flats_view_len(t);
    lemma_flats_view_len(s);
    assert(flats_view(t) =~= seq![flat_view(x)] + flats_view(s)) by {
        assert forall|i: int| 0 <= i < t.len() implies flats_view(t)[i] == (seq![flat_view(x)]
            + flats_view(s))[i] by {
            lemma_flats_view_index(t, i);
            if i > 0 {
                lemma_flats_view_index(s, i - 1);
                assert(t[i] == s[i - 1]);
            } else {
                assert(t[0] == x);
            }
        }
    };
}

/// An ordered sequence of parameter identifiers; order defines positional
/// binding to call arguments.
#[derive(Debug)]
pub struct FnSignature {
    pub arg_state: Vec<String>,
}

impl View for FnSignature {
    type V = Seq<Seq<char>>;

    open spec fn view(&self) -> Seq<Seq<char>> {
        self.arg_state@.map_values(|s: String| s@)
    }
}

impl From<Vec<String>> for FnSignature {
    fn from(src: Vec<String>) -> (r: Self) {
        FnSignature { arg_state: src }
    }
}

impl vstd::std_specs::convert::FromSpecImpl<Vec<String>> for FnSignature {
    open spec fn obeys_from_spec() -> bool {
        true
    }

    open spec fn from_spec(src: Vec<String>) -> Self {
        FnSignature { arg_state: src }
    }
}

/// The first `n` positional bindings of parameter names to argument values,
/// inserted in order, so a repeated name keeps its later binding.
pub open spec fn zip_upto(params: Seq<Seq<char>>, args: Seq<VarV>, n: int) -> Map<Seq<char>, VarV>
    decreases n,
{
    if n <= 0 {
        Map::empty()
    } else {
        zip_upto(params, args, n - 1).insert(params[n - 1], args[n - 1])
    }
}

/// The substitution built from a call: parameter names bound positionally to
/// the call's arguments, zipped to the shorter of the two lists.
pub open spec fn zip_map(params: Seq<Seq<char>>, args: Seq<VarV>) -> Map<Seq<char>, VarV> {
    zip_upto(params, args, if params.len() <= args.len() { params.len() as int } else { args.len() as int })
}

impl FnSignature {
    /// Binds this signature's parameter names positionally to the given
    /// argument values; excess names or values beyond the shorter list are
    /// dropped.
    pub fn produce_args_mapping(&self, args: Vec<Variable>) -> (r: StringHashMap<Variable>)
        ensures
            subst_map_view(r@) == zip_map(self@, vars_view(args@)),
            r@.dom().finite(),
    {
        let ghost params = self@;
        let ghost argvs = vars_view(args@);
        let mut m = StringHashMap::<Variable>::new();
        let mut i: usize = 0;
        proof {
            assert(subst_map_view(m@) =~= zip_upto(params, argvs, 0));
        }
        while i < self.arg_state.len() && i < args.len()
            invariant
                i <= self.arg_state.len(),
                i <= args.len(),
                params == self@,
                argvs == vars_view(args@),
                m@.dom().finite(),
                subst_map_view(m@) == zip_upto(params, argvs, i as int),
            decreases self.arg_state.len() - i,
        {
            let ghost mpre = m@;
            m.insert(self.arg_state[i].clone(), args[i].copy());
            proof {
                assert(params[i as int] == self.arg_state@[i as int]@);
                assert(argvs[i as int] == args@[i as int]@);
                assert(subst_map_view(m@) =~= zip_upto(params, argvs, i + 1));
            }
            i = i + 1;
        }
        proof {
            if params.len() <= argvs.len() {
                assert(i == params.len());
            } else {
                assert(i == argvs.len());
            }
        }
        m
    }
}

/// A function declaration.
pub open spec fn is_fn_decl(i: InstV) -> bool {
    i is Fn
}

/// The ghost contents of a function table: each name to its parameter list
/// and body.
pub type TableV = Map<Seq<char>, (Seq<Seq<char>>, Seq<InstV>)>;

/// The table collected from an instruction list: every declaration keyed by
/// its name, a repeated name keeping the later declaration.
pub open spec fn build_table(s: Seq<InstV>) -> TableV
    decreases s,
{
    if s.len() == 0 {
        Map::empty()
    } else {
        let m = build_table(s.drop_last());
        match s.last() {
            InstV::Fn(name, params, body) => m.insert(name, (params, body)),
            _ => m,
        }
    }
}

/// The instruction list with every declaration removed, order preserved.
pub open spec fn non_fn_insts(s: Seq<InstV>) -> Seq<InstV>
    decreases s,
{
    if s.len() == 0 {
        Seq::empty()
    } else {
        let rest = non_fn_insts(s.drop_last());
        if is_fn_decl(s.last()) {
            rest
        } else {
            rest.push(s.last())
        }
    }
}

/// The last top-level call whose name is not in the declared namespace, if
/// any: the name the table builder reports.
pub open spec fn last_undeclared(s: Seq<InstV>, ns: Set<Seq<char>>) -> Option<Seq<char>>
    decreases s,
{
    if s.len() == 0 {
        None
    } else {
        match s.last() {
            InstV::FnCall(name, _) => if !ns.contains(name) {
                Some(name)
            } else {
                last_undeclared(s.drop_last(), ns)
            },
            _ => last_undeclared(s.drop_last(), ns),
        }
    }
}

/// Resolving a list of operands left to right; the first unbound name is the
/// failure reported.
pub open spec fn subst_vars(s: Seq<VarV>, m: Map<Seq<char>, VarV>) -> Result<Seq<VarV>, ErrV>
    decreases s,
{
    if s.len() == 0 {
        Ok(Seq::empty())
    } else {
        match subst_vars(s.drop_last(), m) {
            Err(e) => Err(e),
            Ok(o) => match subst_var(s.last(), m) {
                Ok(x) => Ok(o.push(x)),
                Err(e) => Err(e),
            },
        }
    }
}

/// One instruction with every operand resolved through the substitution
/// mapping. A declaration binds its own parameters and is left untouched;
/// the passes that substitute never meet one.
pub open spec fn subst_inst(i: InstV, m: Map<Seq<char>, VarV>) -> Result<InstV, ErrV>
    decreases i,
{
    match i {
        InstV::Noop => Ok(InstV::Noop),
        InstV::Print => Ok(InstV::Print),
        InstV::Reset => Ok(InstV::Reset),
        InstV::Add(v) => match subst_var(v, m) {
            Ok(w) => Ok(InstV::Add(w)),
            Err(e) => Err(e),
        },
        InstV::Sub(v) => match subst_var(v, m) {
            Ok(w) => Ok(InstV::Sub(w)),
            Err(e) => Err(e),
        },
        InstV::SetConst(v) => match subst_var(v, m) {
            Ok(w) => Ok(InstV::SetConst(w)),
            Err(e) => Err(e),
        },
        InstV::Goto(v) => match subst_var(v, m) {
            Ok(w) => Ok(InstV::Goto(w)),
            Err(e) => Err(e),
        },
        InstV::Left(v) => match subst_var(v, m) {
            Ok(w) => Ok(InstV::Left(w)),
            Err(e) => Err(e),
        },
        InstV::Right(v) => match subst_var(v, m) {
            Ok(w) => Ok(InstV::Right(w)),
            Err(e) => Err(e),
        },
        InstV::Loop(inner) => match subst_insts(inner, m) {
            Ok(o) => Ok(InstV::Loop(o)),
            Err(e) => Err(e),
        },
        InstV::FnCall(name, args) => match subst_vars(args, m) {
            Ok(o) => Ok(InstV::FnCall(name, o)),
            Err(e) => Err(e),
        },
        InstV::Fn(_, _, _) => Ok(i),
    }
}

/// A list of instructions substituted left to right, fail-fast.
pub open spec fn subst_insts(s: Seq<InstV>, m: Map<Seq<char>, VarV>) -> Result<Seq<InstV>, ErrV>
    decreases s,
{
    if s.len() == 0 {
        Ok(Seq::empty())
    } else {
        match subst_insts(s.drop_last(), m) {
            Err(e) => Err(e),
            Ok(o) => match subst_inst(s.last(), m) {
                Ok(x) => Ok(o.push(x)),
                Err(e) => Err(e),
            },
        }
    }
}

pub proof fn lemma_subst_vars_prefix_err(s: Seq<VarV>, m: Map<Seq<char>, VarV>, j: int, e: ErrV)
    requires
        0 <= j <= s.len(),
        subst_vars(s.take(j), m) == Err::<Seq<VarV>, ErrV>(e),
    ensures
        subst_vars(s, m) == Err::<Seq<VarV>, ErrV>(e),
    decreases s.len() - j,
{
    if j == s.len() {
        assert(s.take(j) =~= s);
    } else {
        assert(s.take(j + 1).drop_last() =~= s.take(j));
        lemma_subst_vars_prefix_err(s, m, j + 1, e);
    }
}

pub proof fn lemma_subst_insts_prefix_err(s: Seq<InstV>, m: Map<Seq<char>, VarV>, j: int, e: ErrV)
    requires
        0 <= j <= s.len(),
        subst_insts(s.take(j), m) == Err::<Seq<InstV>, ErrV>(e),
    ensures
        subst_insts(s, m) == Err::<Seq<InstV>, ErrV>(e),
    decreases s.len() - j,
{
    if j == s.len() {
        assert(s.take(j) =~= s);
    } else {
        assert(s.take(j + 1).drop_last() =~= s.take(j));
        lemma_subst_insts_prefix_err(s, m, j + 1, e);
    }
}

/// Resolves every operand in one instruction through the substitution
/// mapping, recursing into loop bodies and call arguments.
fn subst_one(ist: &Instruction, substitution: &StringHashMap<Variable>) -> (r: Result<
    Instruction,
    CompileError,
>)
    requires
        decl_free_inst(inst_view(*ist)),
    ensures
        match r {
            Ok(x) => subst_inst(inst_view(*ist), subst_map_view(substitution@)) == Ok::<
                InstV,
                ErrV,
            >(inst_view(x)),
            Err(e) => subst_inst(inst_view(*ist), subst_map_view(substitution@)) == Err::<
                InstV,
                ErrV,
            >(e@),
        },
    decreases inst_size(inst_view(*ist)),
{
    let ghost m = subst_map_view(substitution@);
    match ist {
        Instruction::Noop => Ok(Instruction::Noop),
        Instruction::Print => Ok(Instruction::Print),
        Instruction::Reset => Ok(Instruction::Reset),
        Instruction::Add(var) => match var.try_substitute(substitution) {
            Ok(w) => Ok(Instruction::Add(w)),
            Err(e) => Err(e),
        },
        Instruction::Sub(var) => match var.try_substitute(substitution) {
            Ok(w) => Ok(Instruction::Sub(w)),
            Err(e) => Err(e),
        },
        Instruction::SetConst(var) => match var.try_substitute(substitution) {
            Ok(w) => Ok(Instruction::SetConst(w)),
            Err(e) => Err(e),
        },
        Instruction::Goto(var) => match var.try_substitute(substitution) {
            Ok(w) => Ok(Instruction::Goto(w)),
            Err(e) => Err(e),
        },
        Instruction::Left(var) => match var.try_substitute(substitution) {
            Ok(w) => Ok(Instruction::Left(w)),
            Err(e) => Err(e),
        },
        Instruction::Right(var) => match var.try_substitute(substitution) {
            Ok(w) => Ok(Instruction::Right(w)),
            Err(e) => Err(e),
        },
        Instruction::Loop(inner) => match substitute(inner, substitution) {
            Ok(v2) => Ok(Instruction::Loop(v2)),
            Err(e) => Err(e),
        },
        Instruction::FnCall(name, args) => {
            let ghost argvs = vars_view(args@);
            let mut newargs: Vec<Variable> = Vec::new();
            let mut j: usize = 0;
            proof {
                assert(argvs.take(0) =~= Seq::<VarV>::empty());
                assert(vars_view(newargs@) =~= Seq::<VarV>::empty());
            }
            while j < args.len()
                invariant
                    j <= args.len(),
                    argvs == vars_view(args@),
                    argvs.len() == args@.len(),
                    inst_view(*ist) == InstV::FnCall(name@, argvs),
                    m == subst_map_view(substitution@),
                    subst_vars(argvs.take(j as int), m) == Ok::<Seq<VarV>, ErrV>(
                        vars_view(newargs@),
                    ),
                decreases args.len() - j,
            {
                proof {
                    assert(argvs.take(j + 1).drop_last() =~= argvs.take(j as int));
                    assert(argvs.take(j + 1).last() == argvs[j as int]);
                    assert(argvs[j as int] == args@[j as int]@);
                }
                match args[j].try_substitute(substitution) {
                    Ok(w) => {
                        let ghost pre = vars_view(newargs@);
                        let ghost wv = w@;
                        newargs.push(w);
                        proof {
                            assert(vars_view(newargs@) =~= pre.push(wv));
                        }
                    },
                    Err(e) => {
                        proof {
                            lemma_subst_vars_prefix_err(argvs, m, j + 1, e@);
                        }
                        return Err(e);
                    },
                }
                j = j + 1;
            }
            proof {
                assert(argvs.take(args@.len() as int) =~= argvs);
            }
            Ok(Instruction::FnCall(name.clone(), newargs))
        },
        Instruction::Fn(_, _, _) => vstd::pervasive::unreached(),
    }
}

/// Substitutes every operand in the instruction list through the mapping:
/// constants stand, names are replaced by their entries, and the first name
/// with no entry fails the whole pass.
pub fn substitute(ist_list: &Vec<Instruction>, substitution: &StringHashMap<Variable>) -> (r:
    Result<Vec<Instruction>, CompileError>)
    requires
        decl_free_seq(insts_view(ist_list@)),
    ensures
        match r {
            Ok(v2) => subst_insts(insts_view(ist_list@), subst_map_view(substitution@)) == Ok::<
                Seq<InstV>,
                ErrV,
            >(insts_view(v2@)),
            Err(e) => subst_insts(insts_view(ist_list@), subst_map_view(substitution@)) == Err::<
                Seq<InstV>,
                ErrV,
            >(e@),
        },
    decreases insts_size(insts_view(ist_list@)) + 1,
{
    let ghost v = insts_view(ist_list@);
    let ghost m = subst_map_view(substitution@);
    let mut out: Vec<Instruction> = Vec::new();
    let mut i: usize = 0;
    proof {
        lemma_insts_view_len(ist_list@);
        assert(v.take(0) =~= Seq::<InstV>::empty());
        assert(insts_view(out@) =~= Seq::<InstV>::empty());
    }
    while i < ist_list.len()
        invariant
            i <= ist_list.len(),
            v == insts_view(ist_list@),
            v.len() == ist_list@.len(),
            decl_free_seq(v),
            m == subst_map_view(substitution@),
            subst_insts(v.take(i as int), m) == Ok::<Seq<InstV>, ErrV>(insts_view(out@)),
        decreases ist_list.len() - i,
    {
        proof {
            lemma_insts_view_index(ist_list@, i as int);
            lemma_decl_free_index(v, i as int);
            lemma_insts_size_index(v, i as int);
            assert(v.take(i + 1).drop_last() =~= v.take(i as int));
            assert(v.take(i + 1).last() == v[i as int]);
        }
        match subst_one(&ist_list[i], substitution) {
            Ok(x) => {
                let ghost pre = out@;
                out.push(x);
                proof {
                    crate::instruction::lemma_insts_view_push(pre, out@.last());
                }
            },
            Err(e) => {
                proof {
                    lemma_subst_insts_prefix_err(v, m, i + 1, e@);
                }
                return Err(e);
            },
        }
        i = i + 1;
    }
    proof {
        assert(v.take(ist_list@.len() as int) =~= v);
    }
    Ok(out)
}

/// The function table: each declared name to its signature and body. Built
/// once by `produce_mapping` and read-only afterwards.
pub struct FnTable {
    m: StringHashMap<(FnSignature, Vec<Instruction>)>,
}

impl View for FnTable {
    type V = TableV;

    closed spec fn view(&self) -> TableV {
        self.m@.map_values(|p: (FnSignature, Vec<Instruction>)| (p.0@, insts_view(p.1@)))
    }
}

impl FnTable {
    /// The empty table.
    pub fn new() -> (r: Self)
        ensures
            r@ == Map::<Seq<char>, (Seq<Seq<char>>, Seq<InstV>)>::empty(),
    {
        let r = FnTable { m: StringHashMap::new() };
        proof {
            assert(r@ =~= Map::<Seq<char>, (Seq<Seq<char>>, Seq<InstV>)>::empty());
        }
        r
    }

    /// Enters a declaration, replacing any earlier one of the same name.
    pub fn insert(&mut self, name: String, sig: FnSignature, body: Vec<Instruction>)
        ensures
            final(self)@ == old(self)@.insert(name@, (sig@, insts_view(body@))),
    {
        let ghost sigv = sig@;
        let ghost bodyv = insts_view(body@);
        self.m.insert(name, (sig, body));
        proof {
            assert(final(self)@ =~= old(self)@.insert(name@, (sigv, bodyv)));
        }
    }

    /// Looks a name up: its signature and body where declared, nothing
    /// otherwise.
    pub fn get<'a>(&'a self, name: &String) -> (r: Option<&'a (FnSignature, Vec<Instruction>)>)
        ensures
            match r {
                Some(p) => self@.dom().contains(name@) && p.0@ == self@[name@].0 && insts_view(
                    p.1@,
                ) == self@[name@].1,
                None => !self@.dom().contains(name@),
            },
    {
        self.m.get(name.as_str())
    }
}

/// The table collected from any instruction list has a finite domain.
pub proof fn lemma_build_table_finite(s: Seq<InstV>)
    ensures
        build_table(s).dom().finite(),
    decreases s,
{
    if s.len() == 0 {
        assert(build_table(s).dom() =~= Set::<Seq<char>>::empty());
    } else {
        lemma_build_table_finite(s.drop_last());
    }
}

/// The function-table builder: partitions the parsed instruction list into
/// its declarations (keyed by name in the table) and the remaining
/// instructions (order preserved), and rejects a remaining top-level call to
/// a name outside the declared namespace, reporting the last such name.
pub fn produce_mapping(ist_list: Vec<Instruction>, namespace: NameSet) -> (r: Result<
    (Vec<Instruction>, FnTable),
    CompileError,
>)
    ensures
        ({
            let v = insts_view(ist_list@);
            let nf = non_fn_insts(v);
            match r {
                Ok(p) => last_undeclared(nf, namespace@) is None && insts_view(p.0@) == nf && p.1@
                    == build_table(v),
                Err(e) => last_undeclared(nf, namespace@) matches Some(n) && e@
                    == ErrV::UndeclaredFunction(n),
            }
        }),
{
    let ghost v = insts_view(ist_list@);
    proof {
        lemma_insts_view_len(ist_list@);
    }
    let mut table = FnTable::new();
    let mut rem: Vec<Instruction> = Vec::new();
    let mut src = ist_list;
    let ghost total = v.len() as int;
    let ghost done: int = 0;
    proof {
        assert(v.take(0) =~= Seq::<InstV>::empty());
        assert(insts_view(rem@) =~= non_fn_insts(v.take(0)));
    }
    while src.len() > 0
        invariant
            0 <= done <= total,
            v.len() == total,
            insts_view(src@) == v.subrange(done, total),
            table@ == build_table(v.take(done)),
            insts_view(rem@) == non_fn_insts(v.take(done)),
        decreases src.len(),
    {
        let ghost suffix = insts_view(src@);
        let ghost prefix = v.take(done);
        proof {
            lemma_insts_view_drop_first(src@);
        }
        let ist = src.remove(0);
        proof {
            assert(suffix.first() == inst_view(ist));
            assert(insts_view(src@) == suffix.drop_first());
            assert(suffix.drop_first() =~= v.subrange(done + 1, total));
            assert(v.take(done + 1).drop_last() =~= prefix);
            assert(v.take(done + 1).last() == v[done]);
            assert(v[done] == suffix.first());
        }
        match ist {
            Instruction::Fn(name, sig, body) => {
                let ghost nv = name@;
                let ghost sv = sig@;
                let ghost bv = insts_view(body@);
                proof {
                    assert(suffix.first() == InstV::Fn(nv, sv, bv));
                }
                table.insert(name, sig, body);
                proof {
                    assert(table@ == build_table(v.take(done + 1)));
                    assert(insts_view(rem@) == non_fn_insts(v.take(done + 1)));
                }
            },
            other => {
                let ghost ov = inst_view(other);
                let ghost rempre = rem@;
                rem.push(other);
                proof {
                    crate::instruction::lemma_insts_view_push(rempre, rem@.last());
                    assert(!is_fn_decl(ov));
                    assert(table@ == build_table(v.take(done + 1)));
                    assert(insts_view(rem@) == non_fn_insts(v.take(done + 1)));
                }
            },
        }
        proof {
            done = done + 1;
        }
    }
    proof {
        lemma_insts_view_len(src@);
        assert(done == total);
        assert(v.take(total) =~= v);
    }
    let ghost nf = non_fn_insts(v);
    let mut offending: Option<String> = None;
    let mut i: usize = 0;
    proof {
        lemma_insts_view_len(rem@);
        assert(nf.take(0) =~= Seq::<InstV>::empty());
    }
    while i < rem.len()
        invariant
            i <= rem.len(),
            insts_view(rem@) == nf,
            nf.len() == rem@.len(),
            match offending {
                None => last_undeclared(nf.take(i as int), namespace@) is None,
                Some(n) => last_undeclared(nf.take(i as int), namespace@) == Some(n@),
            },
        decreases rem.len() - i,
    {
        proof {
            lemma_insts_view_index(rem@, i as int);
            assert(nf.take(i + 1).drop_last() =~= nf.take(i as int));
            assert(nf.take(i + 1).last() == nf[i as int]);
        }
        match &rem[i] {
            Instruction::FnCall(name, _) => {
                if !namespace.contains(name) {
                    offending = Some(name.clone());
                }
            },
            _ => {},
        }
        i = i + 1;
    }
    proof {
        assert(nf.take(rem@.len() as int) =~= nf);
    }
    match offending {
        Some(n) => Err(CompileError::UndeclaredFunction(n)),
        None => Ok((rem, table)),
    }
}

/// Lowering one instruction directly, outside the inliner: operands are
/// forced to constants, the clear-cell form desugars to a decrementing loop,
/// and a declaration or call — which only the inliner can eliminate — fails
/// under its name.
pub open spec fn flatten_inst(i: InstV) -> Result<FlatV, ErrV>
    decreases i,
{
    match i {
        InstV::Noop => Ok(FlatV::Noop),
        InstV::Print => Ok(FlatV::Print),
        InstV::Reset => Ok(FlatV::Loop(seq![FlatV::Sub(1)])),
        InstV::Add(v) => match force_const(v) {
            Ok(u) => Ok(FlatV::Add(u)),
            Err(e) => Err(e),
        },
        InstV::Sub(v) => match force_const(v) {
            Ok(u) => Ok(FlatV::Sub(u)),
            Err(e) => Err(e),
        },
        InstV::SetConst(v) => match force_const(v) {
            Ok(u) => Ok(FlatV::SetConst(u)),
            Err(e) => Err(e),
        },
        InstV::Goto(v) => match force_const(v) {
            Ok(u) => Ok(FlatV::Goto(u)),
            Err(e) => Err(e),
        },
        InstV::Left(v) => match force_const(v) {
            Ok(u) => Ok(FlatV::Left(u)),
            Err(e) => Err(e),
        },
        InstV::Right(v) => match force_const(v) {
            Ok(u) => Ok(FlatV::Right(u)),
            Err(e) => Err(e),
        },
        InstV::Loop(inner) => match flatten_insts(inner) {
            Ok(o) => Ok(FlatV::Loop(o)),
            Err(e) => Err(e),
        },
        InstV::FnCall(n, _) => Err(ErrV::UndeclaredFunction(n)),
        InstV::Fn(n, _, _) => Err(ErrV::UndeclaredFunction(n)),
    }
}

pub open spec fn flatten_insts(s: Seq<InstV>) -> Result<Seq<FlatV>, ErrV>
    decreases s,
{
    if s.len() == 0 {
        Ok(Seq::empty())
    } else {
        match flatten_insts(s.drop_last()) {
            Err(e) => Err(e),
            Ok(o) => match flatten_inst(s.last()) {
                Ok(f) => Ok(o.push(f)),
                Err(e) => Err(e),
            },
        }
    }
}

pub proof fn lemma_flatten_insts_prefix_err(s: Seq<InstV>, j: int, e: ErrV)
    requires
        0 <= j <= s.len(),
        flatten_insts(s.take(j)) == Err::<Seq<FlatV>, ErrV>(e),
    ensures
        flatten_insts(s) == Err::<Seq<FlatV>, ErrV>(e),
    decreases s.len() - j,
{
    if j == s.len() {
        assert(s.take(j) =~= s);
    } else {
        assert(s.take(j + 1).drop_last() =~= s.take(j));
        lemma_flatten_insts_prefix_err(s, j + 1, e);
    }
}

impl FlattenedInstruction {
    /// Lowers one instruction that needs no inlining: every operand must
    /// already be a constant, and declarations and calls — which only the
    /// inliner removes — are rejected.
    pub fn try_from_instruction(value: Instruction) -> (r: Result<
        FlattenedInstruction,
        CompileError,
    >)
        ensures
            match r {
                Ok(f) => flatten_inst(inst_view(value)) == Ok::<FlatV, ErrV>(flat_view(f)),
                Err(e) => flatten_inst(inst_view(value)) == Err::<FlatV, ErrV>(e@),
            },
        decreases inst_size(inst_view(value)),
    {
        match value {
            Instruction::Noop => Ok(FlattenedInstruction::Noop),
            Instruction::Print => Ok(FlattenedInstruction::Print),
            Instruction::Reset => {
                let body = vec![FlattenedInstruction::Sub(1)];
                proof {
                    lemma_flats_view_singleton(FlattenedInstruction::Sub(1));
                    assert(body@ =~= seq![FlattenedInstruction::Sub(1)]);
                }
                Ok(FlattenedInstruction::Loop(body))
            },
            Instruction::Add(v) => match v {
                Variable::Constant(u) => Ok(FlattenedInstruction::Add(u)),
                Variable::Named(n) => Err(CompileError::UnboundVariable(n)),
            },
            Instruction::Sub(v) => match v {
                Variable::Constant(u) => Ok(FlattenedInstruction::Sub(u)),
                Variable::Named(n) => Err(CompileError::UnboundVariable(n)),
            },
            Instruction::SetConst(v) => match v {
                Variable::Constant(u) => Ok(FlattenedInstruction::SetConst(u)),
                Variable::Named(n) => Err(CompileError::UnboundVariable(n)),
            },
            Instruction::Goto(v) => match v {
                Variable::Constant(u) => Ok(FlattenedInstruction::Goto(u)),
                Variable::Named(n) => Err(CompileError::UnboundVariable(n)),
            },
            Instruction::Left(v) => match v {
                Variable::Constant(u) => Ok(FlattenedInstruction::Left(u)),
                Variable::Named(n) => Err(CompileError::UnboundVariable(n)),
            },
            Instruction::Right(v) => match v {
                Variable::Constant(u) => Ok(FlattenedInstruction::Right(u)),
                Variable::Named(n) => Err(CompileError::UnboundVariable(n)),
            },
            Instruction::Loop(inner) => {
                let ghost innerv = insts_view(inner@);
                let ghost total = innerv.len() as int;
                let mut rem = inner;
                let mut out: Vec<FlattenedInstruction> = Vec::new();
                let ghost done: int = 0;
                proof {
                    lemma_insts_view_len(rem@);
                    assert(innerv.take(0) =~= Seq::<InstV>::empty());
                    assert(flats_view(out@) =~= Seq::<FlatV>::empty());
                }
                while rem.len() > 0
                    invariant
                        0 <= done <= total,
                        innerv.len() == total,
                        insts_view(rem@) == innerv.subrange(done, total),
                        inst_view(value) == InstV::Loop(innerv),
                        inst_size(inst_view(value)) == 2 + insts_size(innerv),
                        flatten_insts(innerv.take(done)) == Ok::<Seq<FlatV>, ErrV>(
                            flats_view(out@),
                        ),
                    decreases rem.len(),
                {
                    let ghost suffix = insts_view(rem@);
                    proof {
                        lemma_insts_view_drop_first(rem@);
                        lemma_insts_size_index(innerv, done);
                    }
                    let x = rem.remove(0);
                    proof {
                        assert(suffix.first() == inst_view(x));
                        assert(insts_view(rem@) == suffix.drop_first());
                        assert(suffix.drop_first() =~= innerv.subrange(done + 1, total));
                        assert(innerv.take(done + 1).drop_last() =~= innerv.take(done));
                        assert(innerv.take(done + 1).last() == innerv[done]);
                        assert(innerv[done] == suffix.first());
                    }
                    match Self::try_from_instruction(x) {
                        Ok(f) => {
                            let ghost pre = out@;
                            out.push(f);
                            proof {
                                lemma_flats_view_push(pre, out@.last());
                            }
                        },
                        Err(e) => {
                            proof {
                                lemma_flatten_insts_prefix_err(innerv, done + 1, e@);
                            }
                            return Err(e);
                        },
                    }
                    proof {
                        done = done + 1;
                    }
                }
                proof {
                    lemma_insts_view_len(rem@);
                    assert(done == total);
                    assert(innerv.take(total) =~= innerv);
                }
                Ok(FlattenedInstruction::Loop(out))
            },
            Instruction::FnCall(n, _) => Err(CompileError::UndeclaredFunction(n)),
            Instruction::Fn(n, _, _) => Err(CompileError::UndeclaredFunction(n)),
        }
    }
}

/// How many declared names are not yet on the active call chain: each
/// inlining step consumes one, which bounds the expansion and is the
/// inliner's termination measure.
pub open spec fn free_count(table: TableV, ctx: Set<Seq<char>>) -> nat {
    table.dom().difference(ctx).len()
}

/// A table whose bodies hold no nested declaration; what the parser hands
/// the pipeline.
pub open spec fn table_wf(table: TableV) -> bool {
    forall|n: Seq<char>| #[trigger] table.dom().contains(n) ==> decl_free_seq(table[n].1)
}

pub proof fn lemma_free_count_insert(table: TableV, ctx: Set<Seq<char>>, n: Seq<char>)
    requires
        table.dom().finite(),
        ctx.finite(),
        table.dom().contains(n),
        !ctx.contains(n),
    ensures
        free_count(table, ctx.insert(n)) < free_count(table, ctx),
{
    let d1 = table.dom().difference(ctx);
    let d2 = table.dom().difference(ctx.insert(n));
    assert(d2 =~= d1.remove(n));
    assert(d1.contains(n));
    vstd::set::axiom_set_difference_finite(table.dom(), ctx);
    vstd::set::axiom_set_remove_len(d1, n);
}

/// What inlining one instruction yields: primitives lower one-to-one with
/// their operands forced to constants, the clear-cell form desugars to a
/// decrementing loop, a loop's body is inlined recursively, and a call is
/// replaced by its function's body with the arguments substituted in —
/// unless the name is undeclared or already on the active chain.
pub open spec fn inline_one(i: InstV, table: TableV, ctx: Set<Seq<char>>) -> Result<
    Seq<FlatV>,
    ErrV,
>
    decreases free_count(table, ctx), inst_size(i),
        when table.dom().finite() && ctx.finite()
        via inline_one_decreases
{
    match i {
        InstV::Noop => Ok(seq![FlatV::Noop]),
        InstV::Print => Ok(seq![FlatV::Print]),
        InstV::Reset => Ok(seq![FlatV::Loop(seq![FlatV::Sub(1)])]),
        InstV::Add(v) => match force_const(v) {
            Ok(u) => Ok(seq![FlatV::Add(u)]),
            Err(e) => Err(e),
        },
        InstV::Sub(v) => match force_const(v) {
            Ok(u) => Ok(seq![FlatV::Sub(u)]),
            Err(e) => Err(e),
        },
        InstV::SetConst(v) => match force_const(v) {
            Ok(u) => Ok(seq![FlatV::SetConst(u)]),
            Err(e) => Err(e),
        },
        InstV::Goto(v) => match force_const(v) {
            Ok(u) => Ok(seq![FlatV::Goto(u)]),
            Err(e) => Err(e),
        },
        InstV::Left(v) => match force_const(v) {
            Ok(u) => Ok(seq![FlatV::Left(u)]),
            Err(e) => Err(e),
        },
        InstV::Right(v) => match force_const(v) {
            Ok(u) => Ok(seq![FlatV::Right(u)]),
            Err(e) => Err(e),
        },
        InstV::Loop(inner) => match inline_list(inner, table, ctx) {
            Ok(b) => Ok(seq![FlatV::Loop(b)]),
            Err(e) => Err(e),
        },
        InstV::FnCall(name, args) => {
            if !table.dom().contains(name) {
                Err(ErrV::UndeclaredFunction(name))
            } else if ctx.contains(name) {
                Err(ErrV::RecursiveCall(name))
            } else {
                match subst_insts(table[name].1, zip_map(table[name].0, args)) {
                    Err(e) => Err(e),
                    Ok(sbody) => inline_list(sbody, table, ctx.insert(name)),
                }
            }
        },
        InstV::Fn(_, _, _) => Ok(Seq::empty()),
    }
}

/// A list of instructions inlined left to right, fail-fast; the lowered
/// pieces are concatenated in order.
pub open spec fn inline_list(s: Seq<InstV>, table: TableV, ctx: Set<Seq<char>>) -> Result<
    Seq<FlatV>,
    ErrV,
>
    decreases free_count(table, ctx), insts_size(s) + 1,
        when table.dom().finite() && ctx.finite()
        via inline_list_decreases
{
    if s.len() == 0 {
        Ok(Seq::empty())
    } else {
        match inline_list(s.drop_last(), table, ctx) {
            Err(e) => Err(e),
            Ok(o) => match inline_one(s.last(), table, ctx) {
                Ok(f) => Ok(o + f),
                Err(e) => Err(e),
            },
        }
    }
}

#[via_fn]
proof fn inline_one_decreases(i: InstV, table: TableV, ctx: Set<Seq<char>>) {
    match i {
        InstV::FnCall(name, _) => {
            if table.dom().contains(name) && !ctx.contains(name) {
                lemma_free_count_insert(table, ctx, name);
            }
        },
        _ => (),
    }
}

#[via_fn]
proof fn inline_list_decreases(s: Seq<InstV>, table: TableV, ctx: Set<Seq<char>>) {
    if s.len() > 0 {
        lemma_inst_size_pos(s.last());
    }
}

pub proof fn lemma_inline_list_prefix_err(
    s: Seq<InstV>,
    table: TableV,
    ctx: Set<Seq<char>>,
    j: int,
    e: ErrV,
)
    requires
        table.dom().finite(),
        ctx.finite(),
        0 <= j <= s.len(),
        inline_list(s.take(j), table, ctx) == Err::<Seq<FlatV>, ErrV>(e),
    ensures
        inline_list(s, table, ctx) == Err::<Seq<FlatV>, ErrV>(e),
    decreases s.len() - j,
{
    if j == s.len() {
        assert(s.take(j) =~= s);
    } else {
        assert(s.take(j + 1).drop_last() =~= s.take(j));
        lemma_inline_list_prefix_err(s, table, ctx, j + 1, e);
    }
}

/// Substitution never introduces a declaration.
pub proof fn lemma_subst_inst_decl_free(i: InstV, m: Map<Seq<char>, VarV>)
    requires
        decl_free_inst(i),
    ensures
        subst_inst(i, m) matches Ok(x) ==> decl_free_inst(x),
    decreases i,
{
    match i {
        InstV::Loop(inner) => lemma_subst_insts_decl_free(inner, m),
        _ => (),
    }
}

pub proof fn lemma_subst_insts_decl_free(s: Seq<InstV>, m: Map<Seq<char>, VarV>)
    requires
        decl_free_seq(s),
    ensures
        subst_insts(s, m) matches Ok(o) ==> decl_free_seq(o),
    decreases s,
{
    if s.len() > 0 {
        lemma_subst_insts_decl_free(s.drop_last(), m);
        lemma_subst_inst_decl_free(s.last(), m);
        match subst_insts(s.drop_last(), m) {
            Ok(o) => match subst_inst(s.last(), m) {
                Ok(x) => {
                    assert(o.push(x).drop_last() =~= o);
                },
                Err(_) => (),
            },
            Err(_) => (),
        }
    }
}

/// A call to the function named `f` occurs in the instruction, at the top
/// level or nested inside loops.
pub open spec fn calls_name_inst(i: InstV, f: Seq<char>) -> bool
    decreases i,
{
    match i {
        InstV::FnCall(n, _) => n == f,
        InstV::Loop(b) => calls_name_seq(b, f),
        _ => false,
    }
}

pub open spec fn calls_name_seq(s: Seq<InstV>, f: Seq<char>) -> bool
    decreases s,
{
    if s.len() == 0 {
        false
    } else {
        calls_name_seq(s.drop_last(), f) || calls_name_inst(s.last(), f)
    }
}

/// Substitution never changes which functions are called.
pub proof fn lemma_subst_keeps_calls_inst(i: InstV, m: Map<Seq<char>, VarV>, f: Seq<char>)
    requires
        calls_name_inst(i, f),
    ensures
        subst_inst(i, m) matches Ok(x) ==> calls_name_inst(x, f),
    decreases i,
{
    match i {
        InstV::Loop(inner) => lemma_subst_keeps_calls_seq(inner, m, f),
        _ => (),
    }
}

pub proof fn lemma_subst_keeps_calls_seq(s: Seq<InstV>, m: Map<Seq<char>, VarV>, f: Seq<char>)
    requires
        calls_name_seq(s, f),
    ensures
        subst_insts(s, m) matches Ok(o) ==> calls_name_seq(o, f),
    decreases s,
{
    if s.len() > 0 {
        if calls_name_seq(s.drop_last(), f) {
            lemma_subst_keeps_calls_seq(s.drop_last(), m, f);
        } else {
            lemma_subst_keeps_calls_inst(s.last(), m, f);
        }
        match subst_insts(s.drop_last(), m) {
            Ok(o) => match subst_inst(s.last(), m) {
                Ok(x) => {
                    assert(o.push(x).drop_last() =~= o);
                    assert(o.push(x).last() == x);
                },
                Err(_) => (),
            },
            Err(_) => (),
        }
    }
}

/// Calling a function already on the active chain is rejected as recursive
/// the moment the call is reached.
pub proof fn lemma_reentrant_call_rejected(
    f: Seq<char>,
    args: Seq<VarV>,
    table: TableV,
    ctx: Set<Seq<char>>,
)
    requires
        table.dom().finite(),
        ctx.finite(),
        table.dom().contains(f),
        ctx.contains(f),
    ensures
        inline_one(InstV::FnCall(f, args), table, ctx) == Err::<Seq<FlatV>, ErrV>(
            ErrV::RecursiveCall(f),
        ),
{
}

/// An instruction that calls a name on the active chain — however deep in
/// loops — can never be inlined successfully.
pub proof fn lemma_active_call_fails_inst(
    i: InstV,
    table: TableV,
    ctx: Set<Seq<char>>,
    f: Seq<char>,
)
    requires
        table.dom().finite(),
        ctx.finite(),
        ctx.contains(f),
        calls_name_inst(i, f),
    ensures
        inline_one(i, table, ctx) is Err,
    decreases free_count(table, ctx), inst_size(i),
{
    match i {
        InstV::Loop(b) => lemma_active_call_fails_seq(b, table, ctx, f),
        _ => (),
    }
}

pub proof fn lemma_active_call_fails_seq(
    s: Seq<InstV>,
    table: TableV,
    ctx: Set<Seq<char>>,
    f: Seq<char>,
)
    requires
        table.dom().finite(),
        ctx.finite(),
        ctx.contains(f),
        calls_name_seq(s, f),
    ensures
        inline_list(s, table, ctx) is Err,
    decreases free_count(table, ctx), insts_size(s) + 1,
{
    lemma_inst_size_pos(s.last());
    if calls_name_seq(s.drop_last(), f) {
        lemma_active_call_fails_seq(s.drop_last(), table, ctx, f);
    } else {
        if !(inline_list(s.drop_last(), table, ctx) is Err) {
            lemma_active_call_fails_inst(s.last(), table, ctx, f);
        }
    }
}

/// Recursion rejection: a function whose body calls itself — directly, at
/// any loop depth — can never be inlined; the call fails, whatever the
/// arguments and whatever else is on the active chain.
pub proof fn lemma_direct_recursion_rejected(
    f: Seq<char>,
    args: Seq<VarV>,
    table: TableV,
    ctx: Set<Seq<char>>,
)
    requires
        table.dom().finite(),
        ctx.finite(),
        table.dom().contains(f),
        calls_name_seq(table[f].1, f),
    ensures
        inline_one(InstV::FnCall(f, args), table, ctx) is Err,
{
    if !ctx.contains(f) {
        let m = zip_map(table[f].0, args);
        match subst_insts(table[f].1, m) {
            Err(_) => (),
            Ok(sbody) => {
                lemma_subst_keeps_calls_seq(table[f].1, m, f);
                lemma_active_call_fails_seq(sbody, table, ctx.insert(f), f);
            },
        }
    }
}

/// Inlines one instruction: a call is replaced by its function's body with
/// the arguments substituted positionally, recursively, while a name already
/// on the active chain is rejected as recursive.
fn replace_one(ist: &Instruction, mapping: &FnTable, context: &NameSet) -> (r: Result<
    Vec<FlattenedInstruction>,
    CompileError,
>)
    requires
        decl_free_inst(inst_view(*ist)),
        table_wf(mapping@),
        mapping@.dom().finite(),
    ensures
        match r {
            Ok(v2) => inline_one(inst_view(*ist), mapping@, context@) == Ok::<Seq<FlatV>, ErrV>(
                flats_view(v2@),
            ),
            Err(e) => inline_one(inst_view(*ist), mapping@, context@) == Err::<Seq<FlatV>, ErrV>(
                e@,
            ),
        },
    decreases free_count(mapping@, context@), inst_size(inst_view(*ist)),
{
    proof {
        crate::names::lemma_name_set_finite(context);
    }
    match ist {
        Instruction::Noop => {
            let r = vec![FlattenedInstruction::Noop];
            proof {
                lemma_flats_view_singleton(FlattenedInstruction::Noop);
                assert(r@ =~= seq![FlattenedInstruction::Noop]);
            }
            Ok(r)
        },
        Instruction::Print => {
            let r = vec![FlattenedInstruction::Print];
            proof {
                lemma_flats_view_singleton(FlattenedInstruction::Print);
                assert(r@ =~= seq![FlattenedInstruction::Print]);
            }
            Ok(r)
        },
        Instruction::Reset => {
            let body = vec![FlattenedInstruction::Sub(1)];
            proof {
                lemma_flats_view_singleton(FlattenedInstruction::Sub(1));
                assert(body@ =~= seq![FlattenedInstruction::Sub(1)]);
            }
            let lp = FlattenedInstruction::Loop(body);
            proof {
                assert(flat_view(lp) == FlatV::Loop(seq![FlatV::Sub(1)]));
            }
            let r = vec![lp];
            proof {
                lemma_flats_view_singleton(r@[0]);
                assert(r@ =~= seq![r@[0]]);
            }
            Ok(r)
        },
        Instruction::Add(var) => match var {
            Variable::Constant(u) => {
                let r = vec![FlattenedInstruction::Add(*u)];
                proof {
                    lemma_flats_view_singleton(FlattenedInstruction::Add(*u));
                    assert(r@ =~= seq![FlattenedInstruction::Add(*u)]);
                }
                Ok(r)
            },
            Variable::Named(n) => Err(CompileError::UnboundVariable(n.clone())),
        },
        Instruction::Sub(var) => match var {
            Variable::Constant(u) => {
                let r = vec![FlattenedInstruction::Sub(*u)];
                proof {
                    lemma_flats_view_singleton(FlattenedInstruction::Sub(*u));
                    assert(r@ =~= seq![FlattenedInstruction::Sub(*u)]);
                }
                Ok(r)
            },
            Variable::Named(n) => Err(CompileError::UnboundVariable(n.clone())),
        },
        Instruction::SetConst(var) => match var {
            Variable::Constant(u) => {
                let r = vec![FlattenedInstruction::SetConst(*u)];
                proof {
                    lemma_flats_view_singleton(FlattenedInstruction::SetConst(*u));
                    assert(r@ =~= seq![FlattenedInstruction::SetConst(*u)]);
                }
                Ok(r)
            },
            Variable::Named(n) => Err(CompileError::UnboundVariable(n.clone())),
        },
        Instruction::Goto(var) => match var {
            Variable::Constant(u) => {
                let r = vec![FlattenedInstruction::Goto(*u)];
                proof {
                    lemma_flats_view_singleton(FlattenedInstruction::Goto(*u));
                    assert(r@ =~= seq![FlattenedInstruction::Goto(*u)]);
                }
                Ok(r)
            },
            Variable::Named(n) => Err(CompileError::UnboundVariable(n.clone())),
        },
        Instruction::Left(var) => match var {
            Variable::Constant(u) => {
                let r = vec![FlattenedInstruction::Left(*u)];
                proof {
                    lemma_flats_view_singleton(FlattenedInstruction::Left(*u));
                    assert(r@ =~= seq![FlattenedInstruction::Left(*u)]);
                }
                Ok(r)
            },
            Variable::Named(n) => Err(CompileError::UnboundVariable(n.clone())),
        },
        Instruction::Right(var) => match var {
            Variable::Constant(u) => {
                let r = vec![FlattenedInstruction::Right(*u)];
                proof {
                    lemma_flats_view_singleton(FlattenedInstruction::Right(*u));
                    assert(r@ =~= seq![FlattenedInstruction::Right(*u)]);
                }
                Ok(r)
            },
            Variable::Named(n) => Err(CompileError::UnboundVariable(n.clone())),
        },
        Instruction::Loop(inner) => match replace_function(inner, mapping, context) {
            Ok(body) => {
                let lp = FlattenedInstruction::Loop(body);
                let r = vec![lp];
                proof {
                    lemma_flats_view_singleton(r@[0]);
                    assert(r@ =~= seq![r@[0]]);
                }
                Ok(r)
            },
            Err(e) => Err(e),
        },
        Instruction::FnCall(fn_name, args) => match mapping.get(fn_name) {
            None => Err(CompileError::UndeclaredFunction(fn_name.clone())),
            Some(entry) => {
                if context.contains(fn_name) {
                    Err(CompileError::RecursiveCall(fn_name.clone()))
                } else {
                    let ghost argvs = vars_view(args@);
                    let mut copied: Vec<Variable> = Vec::new();
                    let mut j: usize = 0;
                    while j < args.len()
                        invariant
                            j <= args.len(),
                            copied@.len() == j,
                            forall|k: int| 0 <= k < j ==> copied@[k]@ == args@[k]@,
                        decreases args.len() - j,
                    {
                        let w = args[j].copy();
                        copied.push(w);
                        j = j + 1;
                    }
                    proof {
                        assert(vars_view(copied@) =~= vars_view(args@));
                    }
                    let substitution = entry.0.produce_args_mapping(copied);
                    match substitute(&entry.1, &substitution) {
                        Err(e) => Err(e),
                        Ok(res) => {
                            let context2 = context.insert_clone(fn_name);
                            proof {
                                lemma_free_count_insert(mapping@, context@, fn_name@);
                                lemma_subst_insts_decl_free(
                                    insts_view(entry.1@),
                                    subst_map_view(substitution@),
                                );
                            }
                            replace_function(&res, mapping, &context2)
                        },
                    }
                }
            },
        },
        Instruction::Fn(_, _, _) => vstd::pervasive::unreached(),
    }
}

/// The function resolver (inliner): lowers the instruction list to the flat
/// form, replacing every call by its parameter-substituted body, recursing
/// into loop bodies, and rejecting undeclared names, re-entrant (directly or
/// indirectly recursive) calls, and operands left unbound.
pub fn replace_function(ist_list: &Vec<Instruction>, mapping: &FnTable, context: &NameSet) -> (r:
    Result<Vec<FlattenedInstruction>, CompileError>)
    requires
        decl_free_seq(insts_view(ist_list@)),
        table_wf(mapping@),
        mapping@.dom().finite(),
    ensures
        match r {
            Ok(v2) => inline_list(insts_view(ist_list@), mapping@, context@) == Ok::<
                Seq<FlatV>,
                ErrV,
            >(flats_view(v2@)),
            Err(e) => inline_list(insts_view(ist_list@), mapping@, context@) == Err::<
                Seq<FlatV>,
                ErrV,
            >(e@),
        },
    decreases free_count(mapping@, context@), insts_size(insts_view(ist_list@)) + 1,
{
    let ghost v = insts_view(ist_list@);
    proof {
        crate::names::lemma_name_set_finite(context);
    }
    let mut out: Vec<FlattenedInstruction> = Vec::new();
    let mut i: usize = 0;
    proof {
        lemma_insts_view_len(ist_list@);
        assert(v.take(0) =~= Seq::<InstV>::empty());
        assert(flats_view(out@) =~= Seq::<FlatV>::empty());
    }
    while i < ist_list.len()
        invariant
            i <= ist_list.len(),
            v == insts_view(ist_list@),
            v.len() == ist_list@.len(),
            decl_free_seq(v),
            table_wf(mapping@),
            mapping@.dom().finite(),
            inline_list(v.take(i as int), mapping@, context@) == Ok::<Seq<FlatV>, ErrV>(
                flats_view(out@),
            ),
        decreases ist_list.len() - i,
    {
        proof {
            crate::names::lemma_name_set_finite(context);
            lemma_insts_view_index(ist_list@, i as int);
            lemma_decl_free_index(v, i as int);
            lemma_insts_size_index(v, i as int);
            assert(v.take(i + 1).drop_last() =~= v.take(i as int));
            assert(v.take(i + 1).last() == v[i as int]);
        }
        match replace_one(&ist_list[i], mapping, context) {
            Ok(mut part) => {
                let ghost pre = out@;
                let ghost partv = part@;
                out.append(&mut part);
                proof {
                    assert(out@ == pre + partv);
                    lemma_flats_view_concat(pre, partv);
                }
            },
            Err(e) => {
                proof {
                    lemma_inline_list_prefix_err(v, mapping@, context@, i + 1, e@);
                }
                return Err(e);
            },
        }
        i = i + 1;
    }
    proof {
        assert(v.take(ist_list@.len() as int) =~= v);
    }
    Ok(out)
}

} // verus!
