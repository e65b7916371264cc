use vstd::prelude::*;

use crate::ast::ASTNode;
use crate::ast::AstModel;
use crate::ast::lemma_nodes_view_index;
use crate::ast::nodes_view;

verus! {

broadcast use vstd::std_specs::vec::group_vec_axioms;

// ---------------------------------------------------------------------------
// The code generator as a mathematical function
// ---------------------------------------------------------------------------

/// A direct child of this body is a `back` statement (a shallow scan: nested
/// blocks are not searched).
pub open spec fn spec_has_back(body: Seq<AstModel>) -> bool {
    exists|i: int| 0 <= i < body.len() && body[i] is Back
}

/// This node is a procedure named `main`.
pub open spec fn is_main_fun(n: AstModel) -> bool {
    n matches AstModel::Fun { name, .. } && name == "main"@
}

/// Some node of the list is a procedure named `main`.
pub open spec fn spec_has_main(nodes: Seq<AstModel>) -> bool {
    exists|i: int| 0 <= i < nodes.len() && is_main_fun(nodes[i])
}

/// The host-language text of one node.
///
/// Literals and identifiers are emitted verbatim (a string literal keeps its
/// quotes). A print of a string literal becomes a direct literal-print call;
/// any other print goes through a single default format slot. A method
/// becomes a function returning an integer, with a synthesized `return 0;`
/// appended only when no `back` stands among its direct children; a
/// procedure becomes a function returning nothing. A `back` payload is
/// emitted verbatim, never re-rendered as an expression.
pub open spec fn gen_node(n: AstModel) -> Seq<char>
    decreases n, 0int,
{
    match n {
        AstModel::Let { name, value } => "let "@ + name + " = "@ + gen_node(*value) + ";"@,
        AstModel::Assign { name, value } => name + " = "@ + gen_node(*value) + ";"@,
        AstModel::Print { value } => if *value is String {
            "print!("@ + gen_node(*value) + ");"@
        } else {
            "print!(\"{}\", "@ + gen_node(*value) + ");"@
        },
        AstModel::Method { name, body, .. } => if spec_has_back(body) {
            "fn "@ + name + "() -> i32 {\n"@ + gen_stmts(body, 0) + "}"@
        } else {
            "fn "@ + name + "() -> i32 {\n"@ + gen_stmts(body, 0) + "    return 0;\n"@ + "}"@
        },
        AstModel::Fun { name, body } => "fn "@ + name + "() {\n"@ + gen_stmts(body, 0) + "}"@,
        AstModel::Back { value } => "return "@ + value + ";"@,
        AstModel::FunctionCall { name, args } => name + "("@ + gen_args(args, 0) + ")"@,
        AstModel::Identifier { name } => name,
        AstModel::Number { value } => value,
        AstModel::String { value } => value,
    }
}

/// The statements of a body from index `i` on, each indented and followed by
/// a newline.
pub open spec fn gen_stmts(body: Seq<AstModel>, i: int) -> Seq<char>
    decreases body, body.len() - i,
{
    if i < 0 || i >= body.len() {
        Seq::empty()
    } else {
        "    "@ + gen_node(body[i]) + "\n"@ + gen_stmts(body, i + 1)
    }
}

/// The arguments of a call from index `i` on, joined by commas.
pub open spec fn gen_args(args: Seq<AstModel>, i: int) -> Seq<char>
    decreases args, args.len() - i,
{
    if i < 0 || i >= args.len() {
        Seq::empty()
    } else if i == 0 {
        gen_node(args[i]) + gen_args(args, i + 1)
    } else {
        ", "@ + gen_node(args[i]) + gen_args(args, i + 1)
    }
}

/// The top-level nodes from index `i` on, each followed by a newline.
pub open spec fn gen_top(nodes: Seq<AstModel>, i: int) -> Seq<char>
    decreases nodes.len() - i,
{
    if i < 0 || i >= nodes.len() {
        Seq::empty()
    } else {
        gen_node(nodes[i]) + "\n"@ + gen_top(nodes, i + 1)
    }
}

/// The whole generated text: every node in original order, and an empty entry
/// point appended when no top-level procedure named `main` exists.
pub open spec fn spec_generate(nodes: Seq<AstModel>) -> Seq<char> {
    if spec_has_main(nodes) {
        gen_top(nodes, 0)
    } else {
        gen_top(nodes, 0) + "\nfn main() {\n}\n"@
    }
}

/// Scanning one more node for `main` is a disjunction.
proof fn lemma_has_main_step(nodes: Seq<AstModel>, j: int)
    requires
        0 <= j < nodes.len(),
    ensures
        spec_has_main(nodes.subrange(0, j + 1)) == (spec_has_main(nodes.subrange(0, j))
            || is_main_fun(nodes[j])),
{
    let pre = nodes.subrange(0, j);
    let ext = nodes.subrange(0, j + 1);
    if spec_has_main(ext) {
        let i = choose|i: int| 0 <= i < ext.len() && is_main_fun(ext[i]);
        if i < j {
            assert(pre[i] == ext[i]);
            assert(spec_has_main(pre));
        } else {
            assert(ext[i] == nodes[j]);
        }
    }
    if spec_has_main(pre) {
        let i = choose|i: int| 0 <= i < pre.len() && is_main_fun(pre[i]);
        assert(ext[i] == pre[i]);
        assert(spec_has_main(ext));
    }
    if is_main_fun(nodes[j]) {
        assert(ext[j] == nodes[j]);
        assert(spec_has_main(ext));
    }
}

// ---------------------------------------------------------------------------
// Laws of the generated shape
// ---------------------------------------------------------------------------

/// A method with no `back` among its direct children is rendered with a
/// synthesized `return 0;` line before its closing brace; a method with a
/// `back` gets no synthesized return.
pub proof fn lemma_default_return_synthesis(
    name: Seq<char>,
    body: Seq<AstModel>,
    locals: Map<Seq<char>, i32>,
    ret: Option<Seq<char>>,
)
    ensures
        !spec_has_back(body) ==> gen_node(
            AstModel::Method { name, body, locals, return_value: ret },
        ) == "fn "@ + name + "() -> i32 {\n"@ + gen_stmts(body, 0) + "    return 0;\n"@ + "}"@,
        spec_has_back(body) ==> gen_node(AstModel::Method { name, body, locals, return_value: ret })
            == "fn "@ + name + "() -> i32 {\n"@ + gen_stmts(body, 0) + "}"@,
{
}

/// Printing a string literal is rendered as a direct literal-print call;
/// printing any other expression goes through a single default format slot.
pub proof fn lemma_print_shape(value: AstModel)
    ensures
        value is String ==> gen_node(AstModel::Print { value: Box::new(value) }) == "print!("@
            + gen_node(value) + ");"@,
        !(value is String) ==> gen_node(AstModel::Print { value: Box::new(value) })
            == "print!(\"{}\", "@ + gen_node(value) + ");"@,
{
}

// ---------------------------------------------------------------------------
// The executable code generator
// ---------------------------------------------------------------------------

/// A direct child of `body` is a `back` statement.
fn has_back(body: &Vec<ASTNode>) -> (r: bool)
    ensures
        r == spec_has_back(nodes_view(body@)),
{
    let ghost bodym = nodes_view(body@);
    let mut j: usize = 0;
    proof {
        crate::ast::lemma_nodes_view_len(body@);
    }
    while j < body.len()
        invariant
            j <= body.len(),
            bodym == nodes_view(body@),
            bodym.len() == body@.len(),
            forall|k: int| 0 <= k < j ==> !(bodym[k] is Back),
        decreases body.len() - j,
    {
        proof {
            lemma_nodes_view_index(body@, j as int);
        }
        match &body[j] {
            ASTNode::Back { .. } => {
                return true;
            },
            _ => {},
        }
        j = j + 1;
    }
    false
}

fn generate_stmts(body: &Vec<ASTNode>) -> (r: String)
    ensures
        r@ == gen_stmts(nodes_view(body@), 0),
    decreases body, 0int,
{
    let ghost bodym = nodes_view(body@);
    let mut out = String::new();
    let mut j: usize = 0;
    proof {
        crate::ast::lemma_nodes_view_len(body@);
    }
    while j < body.len()
        invariant
            j <= body.len(),
            bodym == nodes_view(body@),
            bodym.len() == body@.len(),
            gen_stmts(bodym, 0) == out@ + gen_stmts(bodym, j as int),
        decreases body.len() - j,
    {
        proof {
            lemma_nodes_view_index(body@, j as int);
        }
        let sc = generate_node_code(&body[j]);
        out.append("    ");
        out.append(sc.as_str());
        out.append("\n");
        proof {
            assert(out@ + gen_stmts(bodym, j + 1) =~= (out@ + gen_stmts(bodym, j + 1)));
            assert((("    "@ + gen_node(bodym[j as int])) + "\n"@) + gen_stmts(bodym, j + 1)
                =~= "    "@ + gen_node(bodym[j as int]) + "\n"@ + gen_stmts(bodym, j + 1));
        }
        j = j + 1;
        proof {
            assert(gen_stmts(bodym, 0) == out@ + gen_stmts(bodym, j as int)) by {
                assert(out@ + gen_stmts(bodym, j as int) =~= gen_stmts(bodym, 0));
            }
        }
    }
    proof {
        assert(out@ + Seq::<char>::empty() =~= out@);
    }
    out
}

fn generate_args(args: &Vec<ASTNode>) -> (r: String)
    ensures
        r@ == gen_args(nodes_view(args@), 0),
    decreases args, 0int,
{
    let ghost argsm = nodes_view(args@);
    let mut out = String::new();
    let mut j: usize = 0;
    proof {
        crate::ast::lemma_nodes_view_len(args@);
    }
    while j < args.len()
        invariant
            j <= args.len(),
            argsm == nodes_view(args@),
            argsm.len() == args@.len(),
            gen_args(argsm, 0) == out@ + gen_args(argsm, j as int),
        decreases args.len() - j,
    {
        proof {
            lemma_nodes_view_index(args@, j as int);
        }
        let ac = generate_node_code(&args[j]);
        if j > 0 {
            out.append(", ");
        }
        out.append(ac.as_str());
        j = j + 1;
        proof {
            assert(gen_args(argsm, 0) == out@ + gen_args(argsm, j as int)) by {
                assert(out@ + gen_args(argsm, j as int) =~= gen_args(argsm, 0));
            }
        }
    }
    proof {
        assert(out@ + Seq::<char>::empty() =~= out@);
    }
    out
}

/// Render one node to host-language text, exactly as `gen_node` says.
pub fn generate_node_code(node: &ASTNode) -> (r: String)
    ensures
        r@ == gen_node(node@),
    decreases node, 1int,
{
    match node {
        ASTNode::Let { name, value } => {
            let mut out = String::from_str("let ");
            out.append(name.as_str());
            out.append(" = ");
            let vc = generate_node_code(&**value);
            out.append(vc.as_str());
            out.append(";");
            out
        },
        ASTNode::Assign { name, value } => {
            let mut out = name.clone();
            out.append(" = ");
            let vc = generate_node_code(&**value);
            out.append(vc.as_str());
            out.append(";");
            out
        },
        ASTNode::Print { value } => {
            let vc = generate_node_code(&**value);
            let is_string_literal = match &**value {
                ASTNode::String { .. } => true,
                _ => false,
            };
            let mut out = if is_string_literal {
                String::from_str("print!(")
            } else {
                String::from_str("print!(\"{}\", ")
            };
            out.append(vc.as_str());
            out.append(");");
            out
        },
        ASTNode::Method { name, body, .. } => {
            let mut out = String::from_str("fn ");
            out.append(name.as_str());
            out.append("() -> i32 {\n");
            let stmts = generate_stmts(body);
            out.append(stmts.as_str());
            if !has_back(body) {
                out.append("    return 0;\n");
            }
            out.append("}");
            out
        },
        ASTNode::Fun { name, body } => {
            let mut out = String::from_str("fn ");
            out.append(name.as_str());
            out.append("() {\n");
            let stmts = generate_stmts(body);
            out.append(stmts.as_str());
            out.append("}");
            out
        },
        ASTNode::Back { value } => {
            let mut out = String::from_str("return ");
            out.append(value.as_str());
            out.append(";");
            out
        },
        ASTNode::FunctionCall { name, args } => {
            let mut out = name.clone();
            out.append("(");
            let ac = generate_args(args);
            out.append(ac.as_str());
            out.append(")");
            out
        },
        ASTNode::Identifier { name } => name.clone(),
        ASTNode::Number { value } => value.clone(),
        ASTNode::String { value } => value.clone(),
    }
}

/// Render every top-level node in original order, one per line, and append an
/// empty entry point when no top-level procedure named `main` is present.
pub fn generate_code(nodes: &Vec<ASTNode>) -> (r: String)
    ensures
        r@ == spec_generate(nodes_view(nodes@)),
{
    let ghost nodesm = nodes_view(nodes@);
    let mut code = String::new();
    let mut has_main = false;
    let mut j: usize = 0;
    proof {
        crate::ast::lemma_nodes_view_len(nodes@);
        assert(nodesm.subrange(0, 0) =~= Seq::<AstModel>::empty());
    }
    while j < nodes.len()
        invariant
            j <= nodes.len(),
            nodesm == nodes_view(nodes@),
            nodesm.len() == nodes@.len(),
            gen_top(nodesm, 0) == code@ + gen_top(nodesm, j as int),
            has_main == spec_has_main(nodesm.subrange(0, j as int)),
        decreases nodes.len() - j,
    {
        proof {
            lemma_nodes_view_index(nodes@, j as int);
            lemma_has_main_step(nodesm, j as int);
        }
        match &nodes[j] {
            ASTNode::Fun { name, .. } => {
                if crate::token::str_eq(name.as_str(), "main") {
                    has_main = true;
                }
            },
            _ => {},
        }
        let nc = generate_node_code(&nodes[j]);
        code.append(nc.as_str());
        code.append("\n");
        j = j + 1;
        proof {
            assert(gen_top(nodesm, 0) == code@ + gen_top(nodesm, j as int)) by {
                assert(code@ + gen_top(nodesm, j as int) =~= gen_top(nodesm, 0));
            }
        }
    }
    proof {
        assert(nodesm.subrange(0, nodesm.len() as int) =~= nodesm);
        assert(code@ + Seq::<char>::empty() =~= code@);
    }
    if !has_main {
        code.append("\nfn main() {\n}\n");
    }
    code
}

} // verus!
