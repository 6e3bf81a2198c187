//! The composition-tree data model.
//!
//! An `IDSNode` is one node of a decomposition tree: it may reference an
//! ideographic character, carry a terminal stroke primitive, and hold an
//! `IDSExpr` saying how the node decomposes into children.  A node whose
//! expression is `Null` and whose character is set is *unresolved*: a
//! placeholder that the expansion engine later replaces.

use vstd::prelude::*;
use vstd::string::StringExecFns;

verus! {

/// How a node decomposes: no decomposition, or an operator of arity 1, 2 or 3.
/// A binary operator may carry an optional free-text overlay argument.
pub enum IDSExpr {
    Null,
    UnaryExpr { op: char, arg1: Box<IDSNode> },
    BinExpr { op: char, arg1: Box<IDSNode>, arg2: Box<IDSNode>, op_arg: Option<String> },
    TerExpr { op: char, arg1: Box<IDSNode>, arg2: Box<IDSNode>, arg3: Box<IDSNode> },
}

/// One node of a composition tree.
pub struct IDSNode {
    /// The ideographic character this node denotes, if any.
    pub ideographic: Option<char>,
    /// The stroke primitive, set only for terminal stroke leaves.
    pub stroke_seq: Option<String>,
    /// Free-text annotation attached at parse time; empty if absent.
    pub glyph_hint: String,
    /// The decomposition of this node.
    pub subtree: IDSExpr,
    /// Which variant of `ideographic` this node resolves to; empty if none.
    pub glyph_variant: String,
}

/// A whole decomposition tree.
pub struct IDS {
    pub root: IDSNode,
}

/// Mathematical model of `IDSExpr`, with sequences of characters for text.
#[verifier::ext_equal]
pub enum ExprView {
    Null,
    Unary { op: char, arg1: Box<NodeView> },
    Bin { op: char, arg1: Box<NodeView>, arg2: Box<NodeView>, op_arg: Option<Seq<char>> },
    Ter { op: char, arg1: Box<NodeView>, arg2: Box<NodeView>, arg3: Box<NodeView> },
}

/// Mathematical model of `IDSNode`.
#[verifier::ext_equal]
pub struct NodeView {
    pub ideographic: Option<char>,
    pub stroke_seq: Option<Seq<char>>,
    pub glyph_hint: Seq<char>,
    pub subtree: ExprView,
    pub glyph_variant: Seq<char>,
}

pub open spec fn expr_view(e: IDSExpr) -> ExprView
    decreases e,
{
    match e {
        IDSExpr::Null => ExprView::Null,
        IDSExpr::UnaryExpr { op, arg1 } => ExprView::Unary {
            op,
            arg1: Box::new(node_view(*arg1)),
        },
        IDSExpr::BinExpr { op, arg1, arg2, op_arg } => ExprView::Bin {
            op,
            arg1: Box::new(node_view(*arg1)),
            arg2: Box::new(node_view(*arg2)),
            op_arg: match op_arg {
                Some(s) => Some(s@),
                None => None,
            },
        },
        IDSExpr::TerExpr { op, arg1, arg2, arg3 } => ExprView::Ter {
            op,
            arg1: Box::new(node_view(*arg1)),
            arg2: Box::new(node_view(*arg2)),
            arg3: Box::new(node_view(*arg3)),
        },
    }
}

pub open spec fn node_view(n: IDSNode) -> NodeView
    decreases n,
{
    NodeView {
        ideographic: n.ideographic,
        stroke_seq: match n.stroke_seq {
            Some(s) => Some(s@),
            None => None,
        },
        glyph_hint: n.glyph_hint@,
        subtree: expr_view(n.subtree),
        glyph_variant: n.glyph_variant@,
    }
}

impl View for IDSNode {
    type V = NodeView;

    open spec fn view(&self) -> NodeView {
        node_view(*self)
    }
}

impl View for IDS {
    type V = NodeView;

    open spec fn view(&self) -> NodeView {
        node_view(self.root)
    }
}

/// A node is unresolved when it references a character but has no
/// decomposition yet and is not a stroke leaf.
pub open spec fn is_unresolved(n: NodeView) -> bool {
    n.ideographic is Some && n.subtree is Null && n.stroke_seq is None
}

/// The simplified flat form: at budget 1 a node with a known character
/// collapses to that character; otherwise the operator tag followed by the
/// children at a budget lowered by one, bottoming out at 1.  A leaf with no
/// subtree renders as the empty string.
pub open spec fn simp_spec(n: NodeView, level: nat) -> Seq<char>
    decreases n,
{
    if level == 1 && n.ideographic is Some {
        seq![n.ideographic->Some_0]
    } else {
        let lv = if level > 1 {
            (level - 1) as nat
        } else {
            level
        };
        match n.subtree {
            ExprView::Unary { op, arg1 } => seq![op] + simp_spec(*arg1, lv),
            ExprView::Bin { op, arg1, arg2, .. } => seq![op] + simp_spec(*arg1, lv) + simp_spec(
                *arg2,
                lv,
            ),
            ExprView::Ter { op, arg1, arg2, arg3 } => seq![op] + simp_spec(*arg1, lv) + simp_spec(
                *arg2,
                lv,
            ) + simp_spec(*arg3, lv),
            ExprView::Null => Seq::empty(),
        }
    }
}

/// The operator tag of a diagnostic line, with the overlay argument in
/// square brackets when a binary operator carries one.
pub open spec fn op_part(e: ExprView) -> Seq<char> {
    match e {
        ExprView::Unary { op, .. } => seq![op],
        ExprView::Bin { op, op_arg, .. } => match op_arg {
            Some(a) => seq![op, '['] + a + seq![']'],
            None => seq![op],
        },
        ExprView::Ter { op, .. } => seq![op],
        ExprView::Null => Seq::empty(),
    }
}

/// The character of a diagnostic line, with its variant in parentheses when
/// one applies.
pub open spec fn char_part(n: NodeView) -> Seq<char> {
    match n.ideographic {
        Some(c) => if n.glyph_variant.len() != 0 {
            seq![c, '('] + n.glyph_variant + seq![')', ' ']
        } else {
            seq![c, ' ']
        },
        None => Seq::empty(),
    }
}

pub open spec fn stroke_part(n: NodeView) -> Seq<char> {
    match n.stroke_seq {
        Some(st) => st + seq![' '],
        None => Seq::empty(),
    }
}

pub open spec fn hint_part(n: NodeView) -> Seq<char> {
    if n.glyph_hint.len() > 0 {
        seq!['H', 'i', 'n', 't', ':', ' ', '{'] + n.glyph_hint + seq!['}']
    } else {
        Seq::empty()
    }
}

/// One diagnostic line: indentation, a bullet, the operator tag, then the
/// character, stroke primitive and hint annotations.
pub open spec fn tree_line(n: NodeView, pad: Seq<char>) -> Seq<char> {
    pad + seq!['*', ' '] + op_part(n.subtree) + seq!['\t'] + char_part(n) + stroke_part(n)
        + hint_part(n) + seq!['\n']
}

pub open spec fn indent_unit() -> Seq<char> {
    seq![' ', ' ', ' ', ' ']
}

/// The diagnostic tree form: one line per node, children indented one more
/// step.
pub open spec fn tree_text(n: NodeView, pad: Seq<char>) -> Seq<char>
    decreases n,
{
    tree_line(n, pad) + match n.subtree {
        ExprView::Unary { arg1, .. } => tree_text(*arg1, pad + indent_unit()),
        ExprView::Bin { arg1, arg2, .. } => tree_text(*arg1, pad + indent_unit()) + tree_text(
            *arg2,
            pad + indent_unit(),
        ),
        ExprView::Ter { arg1, arg2, arg3, .. } => tree_text(*arg1, pad + indent_unit())
            + tree_text(*arg2, pad + indent_unit()) + tree_text(*arg3, pad + indent_unit()),
        ExprView::Null => Seq::empty(),
    }
}

/// The indentation of a node at the given depth.
pub open spec fn pad_of(level: nat) -> Seq<char>
    decreases level,
{
    if level == 0 {
        Seq::empty()
    } else {
        pad_of((level - 1) as nat) + indent_unit()
    }
}

/// The text of a whole tree: the root character quoted on a line of its own,
/// then the diagnostic form of the root node.
pub open spec fn ids_text(n: NodeView) -> Seq<char> {
    (match n.ideographic {
        Some(c) => seq!['\'', c, '\'', ' '],
        None => Seq::empty(),
    }) + seq!['\n'] + tree_text(n, Seq::empty())
}

/// Relies on String::push: appends the single character at the end.
#[verifier::external_body]
fn push_char(s: &mut String, c: char)
    ensures
        final(s)@ == old(s)@.push(c),
{
    s.push(c);
}

impl IDSNode {
    /// The simplified flat string form, truncated at depth `level`.
    pub fn to_string_simp(&self, level: usize) -> (r: String)
        ensures
            r@ == simp_spec(self@, level as nat),
        decreases *self,
    {
        if level == 1 && self.ideographic.is_some() {
            let mut s = String::new();
            push_char(&mut s, self.ideographic.unwrap());
            proof {
                assert(s@ =~= simp_spec(self@, level as nat));
            }
            return s;
        }
        let lv_next: usize = if level > 1 {
            level - 1
        } else {
            level
        };
        match &self.subtree {
            IDSExpr::UnaryExpr { op, arg1 } => {
                let mut s = String::new();
                push_char(&mut s, *op);
                let s1 = arg1.to_string_simp(lv_next);
                s.append(s1.as_str());
                proof {
                    assert(s@ =~= simp_spec(self@, level as nat));
                }
                s
            },
            IDSExpr::BinExpr { op, arg1, arg2, .. } => {
                let mut s = String::new();
                push_char(&mut s, *op);
                let s1 = arg1.to_string_simp(lv_next);
                s.append(s1.as_str());
                let s2 = arg2.to_string_simp(lv_next);
                s.append(s2.as_str());
                proof {
                    assert(s@ =~= simp_spec(self@, level as nat));
                }
                s
            },
            IDSExpr::TerExpr { op, arg1, arg2, arg3 } => {
                let mut s = String::new();
                push_char(&mut s, *op);
                let s1 = arg1.to_string_simp(lv_next);
                s.append(s1.as_str());
                let s2 = arg2.to_string_simp(lv_next);
                s.append(s2.as_str());
                let s3 = arg3.to_string_simp(lv_next);
                s.append(s3.as_str());
                proof {
                    assert(s@ =~= simp_spec(self@, level as nat));
                }
                s
            },
            IDSExpr::Null => {
                let s = String::new();
                proof {
                    assert(s@ =~= simp_spec(self@, level as nat));
                }
                s
            },
        }
    }

    /// The diagnostic tree form of this node at the given indentation depth.
    pub fn fmt_tree_r(&self, level: usize) -> (r: String)
        ensures
            r@ == tree_text(self@, pad_of(level as nat)),
    {
        let mut pad = String::new();
        let mut k: usize = 0;
        while k < level
            invariant
                k <= level,
                pad@ == pad_of(k as nat),
            decreases level - k,
        {
            pad.append("    ");
            proof {
                reveal_strlit("    ");
                assert(pad@ =~= pad_of((k + 1) as nat));
            }
            k = k + 1;
        }
        self.tree_rec(&pad)
    }

    /// One line for this node, then the children at a longer indentation.
    #[verifier::rlimit(60)]
    fn tree_rec(&self, pad: &String) -> (r: String)
        ensures
            r@ == tree_text(self@, pad@),
        decreases *self,
    {
        let mut s = String::new();
        s.append(pad.as_str());
        s.append("* ");
        proof {
            reveal_strlit("* ");
            assert(s@ =~= pad@ + seq!['*', ' ']);
        }
        match &self.subtree {
            IDSExpr::UnaryExpr { op, .. } => {
                push_char(&mut s, *op);
            },
            IDSExpr::BinExpr { op, op_arg, .. } => {
                push_char(&mut s, *op);
                if let Some(a) = op_arg {
                    push_char(&mut s, '[');
                    s.append(a.as_str());
                    push_char(&mut s, ']');
                }
            },
            IDSExpr::TerExpr { op, .. } => {
                push_char(&mut s, *op);
            },
            IDSExpr::Null => {},
        }
        proof {
            assert(s@ =~= pad@ + seq!['*', ' '] + op_part(self@.subtree));
        }
        push_char(&mut s, '\t');
        if self.ideographic.is_some() {
            push_char(&mut s, self.ideographic.unwrap());
            if !self.glyph_variant.as_str().is_empty() {
                push_char(&mut s, '(');
                s.append(self.glyph_variant.as_str());
                push_char(&mut s, ')');
            }
            push_char(&mut s, ' ');
        }
        proof {
            assert(s@ =~= pad@ + seq!['*', ' '] + op_part(self@.subtree) + seq!['\t'] + char_part(
                self@,
            ));
        }
        if let Some(st) = &self.stroke_seq {
            s.append(st.as_str());
            push_char(&mut s, ' ');
        }
        if !self.glyph_hint.as_str().is_empty() {
            s.append("Hint: {");
            proof {
                reveal_strlit("Hint: {");
            }
            s.append(self.glyph_hint.as_str());
            push_char(&mut s, '}');
        }
        push_char(&mut s, '\n');
        proof {
            assert(s@ =~= tree_line(self@, pad@));
        }
        let mut pad2 = pad.clone();
        pad2.append("    ");
        proof {
            reveal_strlit("    ");
            assert(pad2@ =~= pad@ + indent_unit());
        }
        match &self.subtree {
            IDSExpr::UnaryExpr { arg1, .. } => {
                let t1 = arg1.tree_rec(&pad2);
                s.append(t1.as_str());
            },
            IDSExpr::BinExpr { arg1, arg2, .. } => {
                let t1 = arg1.tree_rec(&pad2);
                s.append(t1.as_str());
                let t2 = arg2.tree_rec(&pad2);
                s.append(t2.as_str());
            },
            IDSExpr::TerExpr { arg1, arg2, arg3, .. } => {
                let t1 = arg1.tree_rec(&pad2);
                s.append(t1.as_str());
                let t2 = arg2.tree_rec(&pad2);
                s.append(t2.as_str());
                let t3 = arg3.tree_rec(&pad2);
                s.append(t3.as_str());
            },
            IDSExpr::Null => {},
        }
        proof {
            assert(s@ =~= tree_text(self@, pad@));
        }
        s
    }
}

impl IDS {
    /// The printable text of a whole tree: the root character quoted, then
    /// the diagnostic form of every node.
    pub fn to_string_tree(&self) -> (r: String)
        ensures
            r@ == ids_text(self@),
    {
        let mut s = String::new();
        if self.root.ideographic.is_some() {
            push_char(&mut s, '\'');
            push_char(&mut s, self.root.ideographic.unwrap());
            push_char(&mut s, '\'');
            push_char(&mut s, ' ');
        }
        push_char(&mut s, '\n');
        let t = self.root.fmt_tree_r(0);
        s.append(t.as_str());
        proof {
            assert(pad_of(0) =~= Seq::<char>::empty());
            assert(s@ =~= ids_text(self@));
        }
        s
    }
}

} // verus!
