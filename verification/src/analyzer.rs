use vstd::prelude::*;

use crate::ast::ASTNode;
use crate::ast::AstModel;
use crate::ast::LocalTable;
use crate::ast::lemma_nodes_view_index;
use crate::ast::lemma_nodes_view_push;
use crate::ast::nodes_view;
use crate::ast::opt_str_view;
use crate::lexer::is_digit_char;

verus! {

broadcast use vstd::std_specs::vec::group_vec_axioms;

/// A semantic error, with the name or text it is about.
#[derive(Debug, Clone, PartialEq)]
pub enum SemanticError {
    /// A call names a symbol that is not in the table.
    UndefinedFunction { name: String },
    /// A call resolves to a symbol that is not a method.
    NotCallable { name: String },
    /// A call resolves to a method whose return value is still empty.
    NoReturnValue { name: String },
    /// An assignment's right-hand identifier is not in the table.
    UndefinedVariable { name: String },
    /// An identifier expression is not in the table.
    UndefinedIdentifier { name: String },
    /// A numeric literal that does not fit a 32-bit signed integer.
    InvalidNumber { value: String },
}

/// The mathematical model of a semantic error.
pub ghost enum SemErrModel {
    UndefinedFunction { name: Seq<char> },
    NotCallable { name: Seq<char> },
    NoReturnValue { name: Seq<char> },
    UndefinedVariable { name: Seq<char> },
    UndefinedIdentifier { name: Seq<char> },
    InvalidNumber { value: Seq<char> },
}

impl View for SemanticError {
    type V = SemErrModel;

    open spec fn view(&self) -> SemErrModel {
        match self {
            SemanticError::UndefinedFunction { name } => SemErrModel::UndefinedFunction {
                name: name@,
            },
            SemanticError::NotCallable { name } => SemErrModel::NotCallable { name: name@ },
            SemanticError::NoReturnValue { name } => SemErrModel::NoReturnValue { name: name@ },
            SemanticError::UndefinedVariable { name } => SemErrModel::UndefinedVariable {
                name: name@,
            },
            SemanticError::UndefinedIdentifier { name } => SemErrModel::UndefinedIdentifier {
                name: name@,
            },
            SemanticError::InvalidNumber { value } => SemErrModel::InvalidNumber { value: value@ },
        }
    }
}

// ---------------------------------------------------------------------------
// Decimal text as a 32-bit signed integer
// ---------------------------------------------------------------------------

/// The integer a digit sequence denotes, read left to right.
pub open spec fn digits_val(s: Seq<char>) -> int
    decreases s.len(),
{
    if s.len() == 0 {
        0
    } else {
        digits_val(s.drop_last()) * 10 + ((s.last() as u32) - 48)
    }
}

/// Every character is a decimal digit.
pub open spec fn all_digits(s: Seq<char>) -> bool {
    forall|i: int| 0 <= i < s.len() ==> is_digit_char(s[i])
}

/// The 32-bit signed integer a piece of text denotes: an optional single `+`
/// or `-`, then one or more decimal digits, denoting a value in range;
/// anything else is `None`.
pub open spec fn spec_parse_i32(s: Seq<char>) -> Option<i32> {
    let digits = if s.len() > 0 && (s[0] == '+' || s[0] == '-') {
        s.subrange(1, s.len() as int)
    } else {
        s
    };
    if digits.len() == 0 || !all_digits(digits) {
        None
    } else {
        let v = if s.len() > 0 && s[0] == '-' {
            -digits_val(digits)
        } else {
            digits_val(digits)
        };
        if i32::MIN <= v <= i32::MAX {
            Some(v as i32)
        } else {
            None
        }
    }
}

pub proof fn lemma_digits_val_nonneg(s: Seq<char>)
    requires
        all_digits(s),
    ensures
        digits_val(s) >= 0,
    decreases s.len(),
{
    if s.len() > 0 {
        assert forall|i: int| 0 <= i < s.drop_last().len() implies is_digit_char(
            s.drop_last()[i],
        ) by {
            assert(s.drop_last()[i] == s[i]);
        }
        lemma_digits_val_nonneg(s.drop_last());
        assert(is_digit_char(s.last()));
    }
}

/// Reading more digits never shrinks the value.
pub proof fn lemma_digits_val_prefix(s: Seq<char>, i: int)
    requires
        all_digits(s),
        0 <= i <= s.len(),
    ensures
        digits_val(s.subrange(0, i)) <= digits_val(s),
    decreases s.len() - i,
{
    assert forall|j: int| 0 <= j < s.subrange(0, i).len() implies is_digit_char(
        s.subrange(0, i)[j],
    ) by {
        assert(s.subrange(0, i)[j] == s[j]);
    }
    if i < s.len() {
        let t = s.subrange(0, i + 1);
        assert(t.drop_last() =~= s.subrange(0, i));
        assert(t.last() == s[i]);
        assert(is_digit_char(s[i]));
        lemma_digits_val_nonneg(s.subrange(0, i));
        lemma_digits_val_prefix(s, i + 1);
    } else {
        assert(s.subrange(0, i) =~= s);
    }
}

/// Read a 32-bit signed integer from text, exactly as `spec_parse_i32` says.
pub fn parse_i32(s: &str) -> (r: Option<i32>)
    ensures
        r == spec_parse_i32(s@),
{
    let n = s.unicode_len();
    if n == 0 {
        return None;
    }
    let c0 = s.get_char(0);
    let neg = c0 == '-';
    let start: usize = if c0 == '-' || c0 == '+' {
        1
    } else {
        0
    };
    let ghost digits = if start == 1 {
        s@.subrange(1, s@.len() as int)
    } else {
        s@
    };
    if start >= n {
        return None;
    }
    let mut acc: u64 = 0;
    let mut i = start;
    while i < n
        invariant
            n == s@.len(),
            start <= i <= n,
            start <= 1,
            n > start,
            (start == 1) == (s@[0] == '+' || s@[0] == '-'),
            neg == (s@[0] == '-'),
            digits == (if start == 1 {
                s@.subrange(1, s@.len() as int)
            } else {
                s@
            }),
            all_digits(digits.subrange(0, i - start)),
            acc == digits_val(digits.subrange(0, i - start)),
            acc <= 0x8000_0000,
        decreases n - i,
    {
        let c = s.get_char(i);
        let u = c as u32;
        if !(48 <= u && u <= 57) {
            proof {
                assert(digits[i - start] == s@[i as int]);
                assert(!all_digits(digits));
            }
            return None;
        }
        let d = (u - 48) as u64;
        acc = acc * 10 + d;
        proof {
            let pre = digits.subrange(0, i - start);
            let ext = digits.subrange(0, i + 1 - start);
            assert(ext.drop_last() =~= pre);
            assert(ext.last() == digits[i - start]);
            assert(digits[i - start] == s@[i as int]);
        }
        if acc > 0x8000_0000 {
            proof {
                if all_digits(digits) {
                    lemma_digits_val_prefix(digits, i + 1 - start);
                }
            }
            return None;
        }
        i = i + 1;
    }
    proof {
        assert(digits.subrange(0, n - start) =~= digits);
    }
    if neg {
        if acc == 0x8000_0000 {
            Some(i32::MIN)
        } else {
            Some(-(acc as i32))
        }
    } else {
        if acc == 0x8000_0000 {
            None
        } else {
            Some(acc as i32)
        }
    }
}

// ---------------------------------------------------------------------------
// The symbol table
// ---------------------------------------------------------------------------

/// The analyzer's name-resolution table: a name maps to the latest node that
/// defines it (a `Method`, or an `Identifier` placeholder for `let` and
/// assignment targets). Kept as the list of insertions; its meaning is the
/// map where the latest insertion of a name wins.
pub struct SymbolTable {
    entries: Vec<(String, ASTNode)>,
}

/// The map meaning of an insertion list: later entries overwrite earlier ones.
pub open spec fn symbols_map(s: Seq<(String, ASTNode)>) -> Map<Seq<char>, AstModel>
    decreases s.len(),
{
    if s.len() == 0 {
        Map::empty()
    } else {
        symbols_map(s.drop_last()).insert(s.last().0@, s.last().1@)
    }
}

impl View for SymbolTable {
    type V = Map<Seq<char>, AstModel>;

    closed spec fn view(&self) -> Map<Seq<char>, AstModel> {
        symbols_map(self.entries@)
    }
}

/// If no entry at or after `i` has key `k`, the entries before `i` decide `k`.
proof fn lemma_symbols_map_skip_suffix(s: Seq<(String, ASTNode)>, i: int, k: Seq<char>)
    requires
        0 <= i <= s.len(),
        forall|j: int| i <= j < s.len() ==> s[j].0@ != k,
    ensures
        symbols_map(s).contains_key(k) == symbols_map(s.take(i)).contains_key(k),
        symbols_map(s).contains_key(k) ==> symbols_map(s)[k] == symbols_map(s.take(i))[k],
    decreases s.len() - i,
{
    if i < s.len() {
        lemma_symbols_map_skip_suffix(s.drop_last(), i, k);
        assert(s.drop_last().take(i) =~= s.take(i));
    } else {
        assert(s.take(i) =~= s);
    }
}

impl SymbolTable {
    /// The empty table.
    pub fn new() -> (r: SymbolTable)
        ensures
            r@ == Map::<Seq<char>, AstModel>::empty(),
    {
        SymbolTable { entries: Vec::new() }
    }

    /// Bind `name` to `node`, replacing any earlier binding of that name.
    pub fn insert(&mut self, name: String, node: ASTNode)
        ensures
            final(self)@ == old(self)@.insert(name@, node@),
    {
        proof {
            assert(self.entries@.push((name, node)).drop_last() =~= self.entries@);
        }
        self.entries.push((name, node));
    }

    /// Look `name` up: the node of its latest binding, if any.
    pub fn get(&self, name: &str) -> (r: Option<&ASTNode>)
        ensures
            match r {
                Some(n) => self@.contains_key(name@) && self@[name@] == n@,
                None => !self@.contains_key(name@),
            },
    {
        let mut i: usize = self.entries.len();
        while i > 0
            invariant
                i <= self.entries.len(),
                forall|j: int| i <= j < self.entries@.len() ==> self.entries@[j].0@ != name@,
            decreases i,
        {
            i = i - 1;
            if crate::token::str_eq(self.entries[i].0.as_str(), name) {
                proof {
                    lemma_symbols_map_skip_suffix(self.entries@, i + 1, name@);
                    let pre = self.entries@.take(i + 1);
                    assert(pre.drop_last() =~= self.entries@.take(i as int));
                    assert(pre.last() == self.entries@[i as int]);
                }
                return Some(&self.entries[i].1);
            }
        }
        proof {
            lemma_symbols_map_skip_suffix(self.entries@, 0, name@);
            assert(self.entries@.take(0) =~= Seq::<(String, ASTNode)>::empty());
        }
        None
    }
}

// ---------------------------------------------------------------------------
// The analysis pass as a mathematical function
// ---------------------------------------------------------------------------
//
// Each function takes the symbol table and returns the enriched node(s) and
// the table after the pass, or the first error together with the table at
// that moment. The executable analyzer is proved to return exactly these
// values.

/// What one body statement does to a method's local table and return value:
/// a `let` of a numeric literal records the parsed integer under the bound
/// name (and an unparsable literal is the one analysis error raised here); the
/// first `back` sets the return value, and later ones are ignored.
pub open spec fn spec_body_bookkeeping(
    locals: Map<Seq<char>, i32>,
    ret: Option<Seq<char>>,
    stmt: AstModel,
) -> Result<(Map<Seq<char>, i32>, Option<Seq<char>>), SemErrModel> {
    match stmt {
        AstModel::Let { name, value } => match *value {
            AstModel::Number { value: num } => match spec_parse_i32(num) {
                None => Err(SemErrModel::InvalidNumber { value: num }),
                Some(v) => Ok((locals.insert(name, v), ret)),
            },
            _ => Ok((locals, ret)),
        },
        AstModel::Back { value } => Ok(
            (
                locals,
                if ret is None {
                    Some(value)
                } else {
                    ret
                },
            ),
        ),
        _ => Ok((locals, ret)),
    }
}

/// Analyze the nodes of `nodes` from index `i` on, one after the other,
/// threading the symbol table through.
pub open spec fn spec_analyze_seq_from(
    st: Map<Seq<char>, AstModel>,
    nodes: Seq<AstModel>,
    i: int,
) -> Result<(Seq<AstModel>, Map<Seq<char>, AstModel>), (SemErrModel, Map<Seq<char>, AstModel>)>
    decreases nodes, nodes.len() - i, 1int,
{
    if i < 0 || i >= nodes.len() {
        Ok((Seq::empty(), st))
    } else {
        match spec_analyze_node(st, nodes[i]) {
            Err(e) => Err(e),
            Ok((n2, st2)) => match spec_analyze_seq_from(st2, nodes, i + 1) {
                Err(e) => Err(e),
                Ok((rest, st3)) => Ok((seq![n2] + rest, st3)),
            },
        }
    }
}

/// Analyze a method body from index `i` on: each statement is analyzed as a
/// node (so nested declarations and bindings reach the global table), and
/// then does its bookkeeping on the method's local table and return value.
pub open spec fn spec_analyze_body_from(
    st: Map<Seq<char>, AstModel>,
    body: Seq<AstModel>,
    i: int,
    locals: Map<Seq<char>, i32>,
    ret: Option<Seq<char>>,
) -> Result<
    (Seq<AstModel>, Map<Seq<char>, AstModel>, Map<Seq<char>, i32>, Option<Seq<char>>),
    (SemErrModel, Map<Seq<char>, AstModel>),
>
    decreases body, body.len() - i, 1int,
{
    if i < 0 || i >= body.len() {
        Ok((Seq::empty(), st, locals, ret))
    } else {
        match spec_analyze_node(st, body[i]) {
            Err(e) => Err(e),
            Ok((s2, st2)) => match spec_body_bookkeeping(locals, ret, s2) {
                Err(e) => Err((e, st2)),
                Ok((locals2, ret2)) => match spec_analyze_body_from(
                    st2,
                    body,
                    i + 1,
                    locals2,
                    ret2,
                ) {
                    Err(e) => Err(e),
                    Ok((rest, st3, locals3, ret3)) => Ok((seq![s2] + rest, st3, locals3, ret3)),
                },
            },
        }
    }
}

/// Analyze one node under the symbol table `st`: the enriched node and the
/// table afterwards, or the first error and the table at that moment.
///
/// A `Method` analyzes its body (filling its local table and return value,
/// first `back` wins) and then registers itself, enriched, under its name. A
/// `Fun` analyzes its body and registers nothing. A call must resolve to a
/// method with a return value. `let` and assignment targets are bound to
/// identifier placeholders; an identifier expression must already be bound.
pub open spec fn spec_analyze_node(st: Map<Seq<char>, AstModel>, node: AstModel) -> Result<
    (AstModel, Map<Seq<char>, AstModel>),
    (SemErrModel, Map<Seq<char>, AstModel>),
>
    decreases node, 0int, 0int,
{
    match node {
        AstModel::Method { name, body, locals, return_value } => match spec_analyze_body_from(
            st,
            body,
            0,
            locals,
            return_value,
        ) {
            Err(e) => Err(e),
            Ok((body2, st2, locals2, ret2)) => {
                let m = AstModel::Method { name, body: body2, locals: locals2, return_value: ret2 };
                Ok((m, st2.insert(name, m)))
            },
        },
        AstModel::Fun { name, body } => match spec_analyze_seq_from(st, body, 0) {
            Err(e) => Err(e),
            Ok((body2, st2)) => Ok((AstModel::Fun { name, body: body2 }, st2)),
        },
        AstModel::FunctionCall { name, args } => if !st.contains_key(name) {
            Err((SemErrModel::UndefinedFunction { name }, st))
        } else {
            match st[name] {
                AstModel::Method { return_value, .. } => if return_value is None {
                    Err((SemErrModel::NoReturnValue { name }, st))
                } else {
                    match spec_analyze_seq_from(st, args, 0) {
                        Err(e) => Err(e),
                        Ok((args2, st2)) => Ok((AstModel::FunctionCall { name, args: args2 }, st2)),
                    }
                },
                _ => Err((SemErrModel::NotCallable { name }, st)),
            }
        },
        AstModel::Assign { name, value } => match spec_analyze_node(st, *value) {
            Err(e) => Err(e),
            Ok((v2, st2)) => {
                let undefined_rhs = match *value {
                    AstModel::Identifier { name: rhs } => if !st2.contains_key(rhs) {
                        Some(rhs)
                    } else {
                        None
                    },
                    _ => None,
                };
                match undefined_rhs {
                    Some(rhs) => Err((SemErrModel::UndefinedVariable { name: rhs }, st2)),
                    None => Ok(
                        (
                            AstModel::Assign { name, value: Box::new(v2) },
                            st2.insert(name, AstModel::Identifier { name }),
                        ),
                    ),
                }
            },
        },
        AstModel::Let { name, value } => match spec_analyze_node(st, *value) {
            Err(e) => Err(e),
            Ok((v2, st2)) => Ok(
                (
                    AstModel::Let { name, value: Box::new(v2) },
                    st2.insert(name, AstModel::Identifier { name }),
                ),
            ),
        },
        AstModel::Print { value } => match spec_analyze_node(st, *value) {
            Err(e) => Err(e),
            Ok((v2, st2)) => Ok((AstModel::Print { value: Box::new(v2) }, st2)),
        },
        AstModel::Back { value } => Ok((AstModel::Back { value }, st)),
        AstModel::Identifier { name } => if st.contains_key(name) {
            Ok((AstModel::Identifier { name }, st))
        } else {
            Err((SemErrModel::UndefinedIdentifier { name }, st))
        },
        AstModel::Number { value } => Ok((AstModel::Number { value }, st)),
        AstModel::String { value } => Ok((AstModel::String { value }, st)),
    }
}

/// Prepend already-analyzed nodes to the outcome of analyzing the rest.
pub open spec fn seq_step_append(
    acc: Seq<AstModel>,
    r: Result<(Seq<AstModel>, Map<Seq<char>, AstModel>), (SemErrModel, Map<Seq<char>, AstModel>)>,
) -> Result<(Seq<AstModel>, Map<Seq<char>, AstModel>), (SemErrModel, Map<Seq<char>, AstModel>)> {
    match r {
        Ok((rest, st)) => Ok((acc + rest, st)),
        Err(e) => Err(e),
    }
}

/// Prepend already-analyzed body statements to the outcome of the rest of a
/// body walk.
pub open spec fn body_step_append(
    acc: Seq<AstModel>,
    r: Result<
        (Seq<AstModel>, Map<Seq<char>, AstModel>, Map<Seq<char>, i32>, Option<Seq<char>>),
        (SemErrModel, Map<Seq<char>, AstModel>),
    >,
) -> Result<
    (Seq<AstModel>, Map<Seq<char>, AstModel>, Map<Seq<char>, i32>, Option<Seq<char>>),
    (SemErrModel, Map<Seq<char>, AstModel>),
> {
    match r {
        Ok((rest, st, locals, ret)) => Ok((acc + rest, st, locals, ret)),
        Err(e) => Err(e),
    }
}

// ---------------------------------------------------------------------------
// Laws of the analysis pass
// ---------------------------------------------------------------------------

/// The payload of the first `back` among this body's direct children from
/// index `i` on, if any.
pub open spec fn first_back_from(body: Seq<AstModel>, i: int) -> Option<Seq<char>>
    decreases body.len() - i,
{
    if i < 0 || i >= body.len() {
        None
    } else {
        match body[i] {
            AstModel::Back { value } => Some(value),
            _ => first_back_from(body, i + 1),
        }
    }
}

/// First return wins: a successful body walk records, as the method's return
/// value, the payload of the first `back` among the direct children (none if
/// there is none), and a walk that starts with a return value already set
/// keeps it, whatever `back` statements follow.
pub proof fn lemma_first_back_wins(
    st: Map<Seq<char>, AstModel>,
    body: Seq<AstModel>,
    i: int,
    locals: Map<Seq<char>, i32>,
    ret: Option<Seq<char>>,
)
    requires
        0 <= i <= body.len(),
    ensures
        spec_analyze_body_from(st, body, i, locals, ret) matches Ok(out) ==> out.3 == (
        if ret is Some {
            ret
        } else {
            first_back_from(body, i)
        }),
    decreases body.len() - i,
{
    if i < body.len() {
        match spec_analyze_node(st, body[i]) {
            Ok((s2, st2)) => {
                assert(body[i] is Back ==> s2 == body[i]);
                assert(!(body[i] is Back) ==> !(s2 is Back));
                match spec_body_bookkeeping(locals, ret, s2) {
                    Ok(step) => {
                        lemma_first_back_wins(st2, body, i + 1, step.0, step.1);
                    },
                    Err(_) => {},
                }
            },
            Err(_) => {},
        }
    }
}

/// Undefined call rejection: a call is refused exactly as the resolution
/// rules say. A name that is not in the table is an undefined function (a
/// procedure never registers itself, so calling one fails this way too); a
/// name bound to anything but a method is not callable; a method whose return
/// value is still empty cannot be called. The table is left as it was.
pub proof fn lemma_call_rejection(
    st: Map<Seq<char>, AstModel>,
    name: Seq<char>,
    args: Seq<AstModel>,
)
    ensures
        !st.contains_key(name) ==> spec_analyze_node(st, AstModel::FunctionCall { name, args })
            == Err::<(AstModel, Map<Seq<char>, AstModel>), (SemErrModel, Map<Seq<char>, AstModel>)>(
            (SemErrModel::UndefinedFunction { name }, st),
        ),
        st.contains_key(name) && !(st[name] is Method) ==> spec_analyze_node(
            st,
            AstModel::FunctionCall { name, args },
        ) == Err::<(AstModel, Map<Seq<char>, AstModel>), (SemErrModel, Map<Seq<char>, AstModel>)>(
            (SemErrModel::NotCallable { name }, st),
        ),
        st.contains_key(name) && (st[name] matches AstModel::Method {
            return_value: None,
            ..
        }) ==> spec_analyze_node(st, AstModel::FunctionCall { name, args }) == Err::<
            (AstModel, Map<Seq<char>, AstModel>),
            (SemErrModel, Map<Seq<char>, AstModel>),
        >((SemErrModel::NoReturnValue { name }, st)),
{
}

// ---------------------------------------------------------------------------
// The executable analyzer
// ---------------------------------------------------------------------------

/// One compilation's semantic pass: owns the symbol table for the duration of
/// one `analyze` call and enriches the statement list it is given.
pub struct SemanticAnalyzer {
    symbol_table: SymbolTable,
}

impl View for SemanticAnalyzer {
    type V = Map<Seq<char>, AstModel>;

    closed spec fn view(&self) -> Map<Seq<char>, AstModel> {
        self.symbol_table@
    }
}

impl SemanticAnalyzer {
    /// An analyzer with an empty symbol table.
    pub fn new() -> (r: SemanticAnalyzer)
        ensures
            r@ == Map::<Seq<char>, AstModel>::empty(),
    {
        SemanticAnalyzer { symbol_table: SymbolTable::new() }
    }

    /// Analyze nodes one after the other, returning their enriched copies.
    fn analyze_seq(&mut self, nodes: &Vec<ASTNode>) -> (r: Result<Vec<ASTNode>, SemanticError>)
        ensures
            r matches Ok(out) ==> spec_analyze_seq_from(old(self)@, nodes_view(nodes@), 0) == Ok::<
                (Seq<AstModel>, Map<Seq<char>, AstModel>),
                (SemErrModel, Map<Seq<char>, AstModel>),
            >((nodes_view(out@), final(self)@)),
            r matches Err(e) ==> spec_analyze_seq_from(old(self)@, nodes_view(nodes@), 0) == Err::<
                (Seq<AstModel>, Map<Seq<char>, AstModel>),
                (SemErrModel, Map<Seq<char>, AstModel>),
            >((e@, final(self)@)),
        decreases nodes, 0int,
    {
        let ghost st0 = self@;
        let ghost nodesm = nodes_view(nodes@);
        let mut out: Vec<ASTNode> = Vec::new();
        let mut j: usize = 0;
        proof {
            crate::ast::lemma_nodes_view_len(nodes@);
        }
        while j < nodes.len()
            invariant
                j <= nodes.len(),
                st0 == old(self)@,
                nodesm == nodes_view(nodes@),
                nodesm.len() == nodes@.len(),
                spec_analyze_seq_from(st0, nodesm, 0) == seq_step_append(
                    nodes_view(out@),
                    spec_analyze_seq_from(self@, nodesm, j as int),
                ),
            decreases nodes.len() - j,
        {
            proof {
                lemma_nodes_view_index(nodes@, j as int);
            }
            let ghost st_head = self@;
            let n2 = match self.analyze_node(&nodes[j]) {
                Ok(x) => x,
                Err(e) => {
                    proof {
                        assert(spec_analyze_seq_from(st_head, nodesm, j as int) == Err::<
                            (Seq<AstModel>, Map<Seq<char>, AstModel>),
                            (SemErrModel, Map<Seq<char>, AstModel>),
                        >((e@, self@)));
                    }
                    return Err(e);
                },
            };
            proof {
                lemma_nodes_view_push(out@, n2);
                let tail = spec_analyze_seq_from(self@, nodesm, j + 1);
                if let Ok((rest, _)) = tail {
                    assert(nodes_view(out@) + (seq![n2@] + rest) =~= nodes_view(out@.push(n2))
                        + rest);
                }
            }
            out.push(n2);
            j = j + 1;
        }
        proof {
            assert(nodes_view(out@) + Seq::<AstModel>::empty() =~= nodes_view(out@));
        }
        Ok(out)
    }

    /// Analyze a method body: each statement as a node, then its bookkeeping
    /// on the method's local table and return value (first `back` wins).
    fn analyze_body(
        &mut self,
        body: &Vec<ASTNode>,
        locals_in: &LocalTable,
        ret_in: &Option<String>,
    ) -> (r: Result<(Vec<ASTNode>, LocalTable, Option<String>), SemanticError>)
        ensures
            r matches Ok(out) ==> spec_analyze_body_from(
                old(self)@,
                nodes_view(body@),
                0,
                locals_in@,
                opt_str_view(*ret_in),
            ) == Ok::<
                (Seq<AstModel>, Map<Seq<char>, AstModel>, Map<Seq<char>, i32>, Option<Seq<char>>),
                (SemErrModel, Map<Seq<char>, AstModel>),
            >((nodes_view(out.0@), final(self)@, out.1@, opt_str_view(out.2))),
            r matches Err(e) ==> spec_analyze_body_from(
                old(self)@,
                nodes_view(body@),
                0,
                locals_in@,
                opt_str_view(*ret_in),
            ) == Err::<
                (Seq<AstModel>, Map<Seq<char>, AstModel>, Map<Seq<char>, i32>, Option<Seq<char>>),
                (SemErrModel, Map<Seq<char>, AstModel>),
            >((e@, final(self)@)),
        decreases body, 0int,
    {
        let ghost st0 = self@;
        let ghost bodym = nodes_view(body@);
        let ghost locals0 = locals_in@;
        let ghost ret0 = opt_str_view(*ret_in);
        let mut locals = locals_in.clone();
        let mut ret: Option<String> = match ret_in {
            Some(s) => Some(s.clone()),
            None => None,
        };
        let mut out: Vec<ASTNode> = Vec::new();
        let mut j: usize = 0;
        proof {
            crate::ast::lemma_nodes_view_len(body@);
        }
        while j < body.len()
            invariant
                j <= body.len(),
                st0 == old(self)@,
                locals0 == locals_in@,
                ret0 == opt_str_view(*ret_in),
                bodym == nodes_view(body@),
                bodym.len() == body@.len(),
                spec_analyze_body_from(st0, bodym, 0, locals0, ret0) == body_step_append(
                    nodes_view(out@),
                    spec_analyze_body_from(self@, bodym, j as int, locals@, opt_str_view(ret)),
                ),
            decreases body.len() - j,
        {
            proof {
                lemma_nodes_view_index(body@, j as int);
            }
            let ghost st_head = self@;
            let ghost locals_head = locals@;
            let ghost ret_head = opt_str_view(ret);
            let s2 = match self.analyze_node(&body[j]) {
                Ok(x) => x,
                Err(e) => {
                    proof {
                        assert(spec_analyze_body_from(
                            st_head,
                            bodym,
                            j as int,
                            locals_head,
                            ret_head,
                        ) == Err::<
                            (
                                Seq<AstModel>,
                                Map<Seq<char>, AstModel>,
                                Map<Seq<char>, i32>,
                                Option<Seq<char>>,
                            ),
                            (SemErrModel, Map<Seq<char>, AstModel>),
                        >((e@, self@)));
                    }
                    return Err(e);
                },
            };
            match &s2 {
                ASTNode::Let { name: lname, value } => match &**value {
                    ASTNode::Number { value: num } => match parse_i32(num.as_str()) {
                        None => {
                            proof {
                                assert((**value)@ == AstModel::Number { value: num@ });
                                assert(s2@ == AstModel::Let {
                                    name: lname@,
                                    value: Box::new(AstModel::Number { value: num@ }),
                                });
                                let em = SemErrModel::InvalidNumber { value: num@ };
                                assert(spec_body_bookkeeping(locals_head, ret_head, s2@) == Err::<
                                    (Map<Seq<char>, i32>, Option<Seq<char>>),
                                    SemErrModel,
                                >(em));
                                assert(spec_analyze_body_from(
                                    st_head,
                                    bodym,
                                    j as int,
                                    locals_head,
                                    ret_head,
                                ) == Err::<
                                    (
                                        Seq<AstModel>,
                                        Map<Seq<char>, AstModel>,
                                        Map<Seq<char>, i32>,
                                        Option<Seq<char>>,
                                    ),
                                    (SemErrModel, Map<Seq<char>, AstModel>),
                                >((em, self@)));
                            }
                            return Err(SemanticError::InvalidNumber { value: num.clone() });
                        },
                        Some(v) => {
                            proof {
                                assert((**value)@ == AstModel::Number { value: num@ });
                                assert(s2@ == AstModel::Let {
                                    name: lname@,
                                    value: Box::new(AstModel::Number { value: num@ }),
                                });
                            }
                            locals.insert(lname.clone(), v);
                        },
                    },
                    _ => {
                        proof {
                            assert(s2@ is Let);
                            assert(!((**value)@ is Number));
                        }
                    },
                },
                ASTNode::Back { value } => {
                    proof {
                        assert(s2@ == AstModel::Back { value: value@ });
                    }
                    if ret.is_none() {
                        ret = Some(value.clone());
                    }
                },
                _ => {
                    proof {
                        assert(!(s2@ is Let) && !(s2@ is Back));
                    }
                },
            }
            proof {
                assert(spec_body_bookkeeping(locals_head, ret_head, s2@) == Ok::<
                    (Map<Seq<char>, i32>, Option<Seq<char>>),
                    SemErrModel,
                >((locals@, opt_str_view(ret))));
                lemma_nodes_view_push(out@, s2);
                let tail = spec_analyze_body_from(
                    self@,
                    bodym,
                    j + 1,
                    locals@,
                    opt_str_view(ret),
                );
                if let Ok((rest, _, _, _)) = tail {
                    assert(nodes_view(out@) + (seq![s2@] + rest) =~= nodes_view(out@.push(s2))
                        + rest);
                }
            }
            out.push(s2);
            j = j + 1;
        }
        proof {
            assert(nodes_view(out@) + Seq::<AstModel>::empty() =~= nodes_view(out@));
        }
        Ok((out, locals, ret))
    }

    /// Analyze one node, returning its enriched copy.
    fn analyze_node(&mut self, node: &ASTNode) -> (r: Result<ASTNode, SemanticError>)
        ensures
            r matches Ok(n2) ==> spec_analyze_node(old(self)@, node@) == Ok::<
                (AstModel, Map<Seq<char>, AstModel>),
                (SemErrModel, Map<Seq<char>, AstModel>),
            >((n2@, final(self)@)),
            r matches Err(e) ==> spec_analyze_node(old(self)@, node@) == Err::<
                (AstModel, Map<Seq<char>, AstModel>),
                (SemErrModel, Map<Seq<char>, AstModel>),
            >((e@, final(self)@)),
        decreases node, 1int,
    {
        match node {
            ASTNode::Method { name, body, local_symbol_table, return_value } => {
                let (out, locals, ret) = match self.analyze_body(
                    body,
                    local_symbol_table,
                    return_value,
                ) {
                    Ok(x) => x,
                    Err(e) => {
                        return Err(e);
                    },
                };
                let m = ASTNode::Method {
                    name: name.clone(),
                    body: out,
                    local_symbol_table: locals,
                    return_value: ret,
                };
                let m2 = m.clone();
                self.symbol_table.insert(name.clone(), m2);
                Ok(m)
            },
            ASTNode::Fun { name, body } => {
                let out = match self.analyze_seq(body) {
                    Ok(x) => x,
                    Err(e) => {
                        return Err(e);
                    },
                };
                Ok(ASTNode::Fun { name: name.clone(), body: out })
            },
            ASTNode::FunctionCall { name, args } => {
                match self.symbol_table.get(name.as_str()) {
                    None => {
                        return Err(SemanticError::UndefinedFunction { name: name.clone() });
                    },
                    Some(target) => match target {
                        ASTNode::Method { return_value, .. } => {
                            if return_value.is_none() {
                                return Err(SemanticError::NoReturnValue { name: name.clone() });
                            }
                        },
                        _ => {
                            return Err(SemanticError::NotCallable { name: name.clone() });
                        },
                    },
                }
                let out = match self.analyze_seq(args) {
                    Ok(x) => x,
                    Err(e) => {
                        return Err(e);
                    },
                };
                Ok(ASTNode::FunctionCall { name: name.clone(), args: out })
            },
            ASTNode::Assign { name, value } => {
                let v2 = match self.analyze_node(&**value) {
                    Ok(x) => x,
                    Err(e) => {
                        return Err(e);
                    },
                };
                match &**value {
                    ASTNode::Identifier { name: rhs } => {
                        match self.symbol_table.get(rhs.as_str()) {
                            None => {
                                return Err(SemanticError::UndefinedVariable { name: rhs.clone() });
                            },
                            Some(_) => {},
                        }
                    },
                    _ => {},
                }
                self.symbol_table.insert(name.clone(), ASTNode::Identifier { name: name.clone() });
                Ok(ASTNode::Assign { name: name.clone(), value: Box::new(v2) })
            },
            ASTNode::Let { name, value } => {
                let v2 = match self.analyze_node(&**value) {
                    Ok(x) => x,
                    Err(e) => {
                        return Err(e);
                    },
                };
                self.symbol_table.insert(name.clone(), ASTNode::Identifier { name: name.clone() });
                Ok(ASTNode::Let { name: name.clone(), value: Box::new(v2) })
            },
            ASTNode::Print { value } => {
                let v2 = match self.analyze_node(&**value) {
                    Ok(x) => x,
                    Err(e) => {
                        return Err(e);
                    },
                };
                Ok(ASTNode::Print { value: Box::new(v2) })
            },
            ASTNode::Back { value } => Ok(ASTNode::Back { value: value.clone() }),
            ASTNode::Identifier { name } => match self.symbol_table.get(name.as_str()) {
                Some(_) => Ok(ASTNode::Identifier { name: name.clone() }),
                None => Err(SemanticError::UndefinedIdentifier { name: name.clone() }),
            },
            ASTNode::Number { value } => Ok(ASTNode::Number { value: value.clone() }),
            ASTNode::String { value } => Ok(ASTNode::String { value: value.clone() }),
        }
    }

    /// Analyze the statement list of one compilation, top to bottom, and
    /// replace it with its enriched copy. On an error the list is left
    /// unchanged: no partial result is applied.
    pub fn analyze(&mut self, nodes: &mut Vec<ASTNode>) -> (r: Result<(), SemanticError>)
        ensures
            r matches Ok(_) ==> spec_analyze_seq_from(old(self)@, nodes_view(old(nodes)@), 0)
                == Ok::<
                (Seq<AstModel>, Map<Seq<char>, AstModel>),
                (SemErrModel, Map<Seq<char>, AstModel>),
            >((nodes_view(final(nodes)@), final(self)@)),
            r matches Err(e) ==> spec_analyze_seq_from(old(self)@, nodes_view(old(nodes)@), 0)
                == Err::<
                (Seq<AstModel>, Map<Seq<char>, AstModel>),
                (SemErrModel, Map<Seq<char>, AstModel>),
            >((e@, final(self)@)) && final(nodes)@ == old(nodes)@,
    {
        match self.analyze_seq(&*nodes) {
            Ok(out) => {
                *nodes = out;
                Ok(())
            },
            Err(e) => Err(e),
        }
    }
}

} // verus!
