use vstd::prelude::*;

verus! {

broadcast use vstd::std_specs::vec::group_vec_axioms;

// ---------------------------------------------------------------------------
// A method's local table
// ---------------------------------------------------------------------------

/// A name-to-integer table with insert-replaces semantics, kept as the list
/// of insertions; its meaning is the map where the latest insertion of a key
/// wins.
#[derive(Debug)]
pub struct LocalTable {
    pub entries: Vec<(String, i32)>,
}

/// The map meaning of an insertion list: later entries overwrite earlier ones.
pub open spec fn entries_map(s: Seq<(String, i32)>) -> Map<Seq<char>, i32>
    decreases s.len(),
{
    if s.len() == 0 {
        Map::empty()
    } else {
        entries_map(s.drop_last()).insert(s.last().0@, s.last().1)
    }
}

impl View for LocalTable {
    type V = Map<Seq<char>, i32>;

    open spec fn view(&self) -> Map<Seq<char>, i32> {
        entries_map(self.entries@)
    }
}

/// Two insertion lists with the same keys and values mean the same map.
pub proof fn lemma_entries_map_congruent(s1: Seq<(String, i32)>, s2: Seq<(String, i32)>)
    requires
        s1.len() == s2.len(),
        forall|i: int| 0 <= i < s1.len() ==> s1[i].0@ == s2[i].0@ && s1[i].1 == s2[i].1,
    ensures
        entries_map(s1) == entries_map(s2),
    decreases s1.len(),
{
    if s1.len() > 0 {
        lemma_entries_map_congruent(s1.drop_last(), s2.drop_last());
    }
}

/// If no entry at or after `i` has key `k`, the entries before `i` decide `k`.
pub proof fn lemma_entries_map_skip_suffix(s: Seq<(String, i32)>, i: int, k: Seq<char>)
    requires
        0 <= i <= s.len(),
        forall|j: int| i <= j < s.len() ==> s[j].0@ != k,
    ensures
        entries_map(s).contains_key(k) == entries_map(s.take(i)).contains_key(k),
        entries_map(s).contains_key(k) ==> entries_map(s)[k] == entries_map(s.take(i))[k],
    decreases s.len() - i,
{
    if i < s.len() {
        lemma_entries_map_skip_suffix(s.drop_last(), i, k);
        assert(s.drop_last().take(i) =~= s.take(i));
    } else {
        assert(s.take(i) =~= s);
    }
}

impl LocalTable {
    /// The empty table.
    pub fn new() -> (r: LocalTable)
        ensures
            r@ == Map::<Seq<char>, i32>::empty(),
    {
        LocalTable { entries: Vec::new() }
    }

    /// Bind `name` to `value`, replacing any earlier binding of that name.
    pub fn insert(&mut self, name: String, value: i32)
        ensures
            final(self)@ == old(self)@.insert(name@, value),
    {
        proof {
            assert(self.entries@.push((name, value)).drop_last() =~= self.entries@);
        }
        self.entries.push((name, value));
    }

    /// Look `name` up: the value of its latest binding, if any.
    pub fn get(&self, name: &str) -> (r: Option<i32>)
        ensures
            match r {
                Some(v) => self@.contains_key(name@) && self@[name@] == v,
                None => !self@.contains_key(name@),
            },
    {
        let mut i: usize = self.entries.len();
        while i > 0
            invariant
                i <= self.entries.len(),
                forall|j: int| i <= j < self.entries@.len() ==> self.entries@[j].0@ != name@,
            decreases i,
        {
            i = i - 1;
            if crate::token::str_eq(self.entries[i].0.as_str(), name) {
                proof {
                    lemma_entries_map_skip_suffix(self.entries@, i + 1, name@);
                    let pre = self.entries@.take(i + 1);
                    assert(pre.drop_last() =~= self.entries@.take(i as int));
                    assert(pre.last() == self.entries@[i as int]);
                }
                return Some(self.entries[i].1);
            }
        }
        proof {
            lemma_entries_map_skip_suffix(self.entries@, 0, name@);
            assert(self.entries@.take(0) =~= Seq::<(String, i32)>::empty());
        }
        None
    }

    /// How many insertions the table has seen.
    pub fn len(&self) -> (r: usize)
        ensures
            r == self.entries@.len(),
    {
        self.entries.len()
    }
}

impl Clone for LocalTable {
    fn clone(&self) -> (res: Self)
        ensures
            res@ == self@,
    {
        let mut entries: Vec<(String, i32)> = Vec::new();
        let mut i: usize = 0;
        while i < self.entries.len()
            invariant
                i <= self.entries.len(),
                entries@.len() == i,
                forall|j: int|
                    0 <= j < i ==> entries@[j].0@ == self.entries@[j].0@ && entries@[j].1
                        == self.entries@[j].1,
            decreases self.entries.len() - i,
        {
            let (k, v) = (&self.entries[i].0, self.entries[i].1);
            entries.push((k.clone(), v));
            i = i + 1;
        }
        proof {
            lemma_entries_map_congruent(entries@, self.entries@);
        }
        LocalTable { entries }
    }
}

// ---------------------------------------------------------------------------
// Statement and expression nodes
// ---------------------------------------------------------------------------

/// One node of the tree the parser builds: a top-level statement, a statement
/// in a body, or an expression. Each node owns its children.
///
/// A `Method` is a callable with a guaranteed return; its `local_symbol_table`
/// and `return_value` start empty and are filled in only by the analyzer. A
/// `Fun` is a procedure: a callable with no return value. `Back` is a return
/// statement whose payload is restricted at parse time to an identifier name
/// or a numeric literal's text. Numeric and string literal values are kept as
/// the source text; a string literal keeps its surrounding quotes.
#[derive(Debug)]
pub enum ASTNode {
    Let { name: String, value: Box<ASTNode> },
    Print { value: Box<ASTNode> },
    Method { name: String, body: Vec<ASTNode>, local_symbol_table: LocalTable, return_value: Option<String> },
    Fun { name: String, body: Vec<ASTNode> },
    Back { value: String },
    FunctionCall { name: String, args: Vec<ASTNode> },
    Identifier { name: String },
    Number { value: String },
    String { value: String },
    Assign { name: String, value: Box<ASTNode> },
}

/// The mathematical model of a node: the same shape over `Seq<char>` and
/// `Map`.
pub ghost enum AstModel {
    Let { name: Seq<char>, value: Box<AstModel> },
    Print { value: Box<AstModel> },
    Method { name: Seq<char>, body: Seq<AstModel>, locals: Map<Seq<char>, i32>, return_value: Option<Seq<char>> },
    Fun { name: Seq<char>, body: Seq<AstModel> },
    Back { value: Seq<char> },
    FunctionCall { name: Seq<char>, args: Seq<AstModel> },
    Identifier { name: Seq<char> },
    Number { value: Seq<char> },
    String { value: Seq<char> },
    Assign { name: Seq<char>, value: Box<AstModel> },
}

/// The model of an optional owned string.
pub open spec fn opt_str_view(o: Option<String>) -> Option<Seq<char>> {
    match o {
        Some(s) => Some(s@),
        None => None,
    }
}

/// The model of a node.
pub open spec fn node_view(n: ASTNode) -> AstModel
    decreases n,
{
    match n {
        ASTNode::Let { name, value } => AstModel::Let {
            name: name@,
            value: Box::new(node_view(*value)),
        },
        ASTNode::Print { value } => AstModel::Print { value: Box::new(node_view(*value)) },
        ASTNode::Method { name, body, local_symbol_table, return_value } => AstModel::Method {
            name: name@,
            body: nodes_view(body@),
            locals: local_symbol_table@,
            return_value: match return_value {
                Some(s) => Some(s@),
                None => None,
            },
        },
        ASTNode::Fun { name, body } => AstModel::Fun { name: name@, body: nodes_view(body@) },
        ASTNode::Back { value } => AstModel::Back { value: value@ },
        ASTNode::FunctionCall { name, args } => AstModel::FunctionCall {
            name: name@,
            args: nodes_view(args@),
        },
        ASTNode::Identifier { name } => AstModel::Identifier { name: name@ },
        ASTNode::Number { value } => AstModel::Number { value: value@ },
        ASTNode::String { value } => AstModel::String { value: value@ },
        ASTNode::Assign { name, value } => AstModel::Assign {
            name: name@,
            value: Box::new(node_view(*value)),
        },
    }
}

/// The models of a sequence of nodes, in order.
pub open spec fn nodes_view(s: Seq<ASTNode>) -> Seq<AstModel>
    decreases s,
{
    if s.len() == 0 {
        Seq::empty()
    } else {
        nodes_view(s.drop_last()).push(node_view(s.last()))
    }
}

impl View for ASTNode {
    type V = AstModel;

    open spec fn view(&self) -> AstModel {
        node_view(*self)
    }
}

pub proof fn lemma_nodes_view_len(s: Seq<ASTNode>)
    ensures
        nodes_view(s).len() == s.len(),
    decreases s.len(),
{
    if s.len() > 0 {
        lemma_nodes_view_len(s.drop_last());
    }
}

pub proof fn lemma_nodes_view_index(s: Seq<ASTNode>, i: int)
    requires
        0 <= i < s.len(),
    ensures
        nodes_view(s).len() == s.len(),
        nodes_view(s)[i] == node_view(s[i]),
    decreases s.len(),
{
    lemma_nodes_view_len(s);
    if i < s.len() - 1 {
        lemma_nodes_view_index(s.drop_last(), i);
    }
}

pub proof fn lemma_nodes_view_push(s: Seq<ASTNode>, x: ASTNode)
    ensures
        nodes_view(s.push(x)) == nodes_view(s).push(node_view(x)),
{
    assert(s.push(x).drop_last() =~= s);
    assert(s.push(x).last() == x);
}

/// Clone a node list, preserving the models.
pub fn clone_nodes(v: &Vec<ASTNode>) -> (res: Vec<ASTNode>)
    ensures
        nodes_view(res@) == nodes_view(v@),
        res@.len() == v@.len(),
    decreases v,
{
    let mut res: Vec<ASTNode> = Vec::new();
    let mut i: usize = 0;
    while i < v.len()
        invariant
            i <= v.len(),
            res@.len() == i,
            nodes_view(res@) == nodes_view(v@.take(i as int)),
        decreases v.len() - i,
    {
        let c = v[i].clone();
        proof {
            let t = v@.take(i + 1);
            assert(t.drop_last() =~= v@.take(i as int));
            assert(t.last() == v@[i as int]);
            assert(res@.push(c).drop_last() =~= res@);
        }
        res.push(c);
        i = i + 1;
    }
    proof {
        assert(v@.take(v@.len() as int) =~= v@);
    }
    res
}

impl Clone for ASTNode {
    /// Clone a node; the copy has the same model.
    fn clone(&self) -> (res: Self)
        ensures
            res@ == self@,
        decreases self,
    {
        match self {
            ASTNode::Let { name, value } => ASTNode::Let {
                name: name.clone(),
                value: Box::new((**value).clone()),
            },
            ASTNode::Print { value } => ASTNode::Print { value: Box::new((**value).clone()) },
            ASTNode::Method { name, body, local_symbol_table, return_value } => ASTNode::Method {
                name: name.clone(),
                body: clone_nodes(body),
                local_symbol_table: local_symbol_table.clone(),
                return_value: match return_value {
                    Some(s) => Some(s.clone()),
                    None => None,
                },
            },
            ASTNode::Fun { name, body } => ASTNode::Fun {
                name: name.clone(),
                body: clone_nodes(body),
            },
            ASTNode::Back { value } => ASTNode::Back { value: value.clone() },
            ASTNode::FunctionCall { name, args } => ASTNode::FunctionCall {
                name: name.clone(),
                args: clone_nodes(args),
            },
            ASTNode::Identifier { name } => ASTNode::Identifier { name: name.clone() },
            ASTNode::Number { value } => ASTNode::Number { value: value.clone() },
            ASTNode::String { value } => ASTNode::String { value: value.clone() },
            ASTNode::Assign { name, value } => ASTNode::Assign {
                name: name.clone(),
                value: Box::new((**value).clone()),
            },
        }
    }
}

} // verus!
