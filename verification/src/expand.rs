//! The expansion engine.
//!
//! `create_node` looks a character up in the variant table, parses the
//! resolved description string, and recursively replaces every unresolved
//! immediate child by its own expansion.  A child annotated with a variant
//! tag has that tag moved to the front of the preference list handed down.
//! Any lookup or parse failure at any depth aborts the whole expansion; no
//! partial tree is returned.  A recursion guard bounds the depth so that a
//! cyclic table fails with `DepthExceeded` instead of recursing forever.

use vstd::prelude::*;
use crate::io::query;
use crate::io::query_spec;
use crate::io::EntryView;
use crate::io::VariantTable;
use crate::node::is_unresolved;
use crate::node::node_view;
use crate::node::ExprView;
use crate::node::IDSExpr;
use crate::node::IDSNode;
use crate::node::NodeView;
use crate::node::IDS;
use crate::parser::grammar_fragment;
use crate::parser::parse_result;
use crate::parser::ErrorView;
use crate::parser::IDSError;
use crate::parser::IDSParser;

verus! {

/// The recursion guard of the expansion engine.
pub const DEFAULT_EXPAND_DEPTH: u32 = 64;

/// The preference entries from `from` on with every occurrence of `v`
/// removed, order preserved.
pub open spec fn remove_tag(l: Seq<Seq<char>>, v: Seq<char>, from: int) -> Seq<Seq<char>>
    decreases l.len() - from,
{
    if from < 0 || from >= l.len() {
        Seq::empty()
    } else if l[from] == v {
        remove_tag(l, v, from + 1)
    } else {
        seq![l[from]] + remove_tag(l, v, from + 1)
    }
}

/// The preference list handed to a child: its own variant annotation, when
/// it carries one, moves to the front; duplicates are removed; the order of
/// the remainder is kept.
pub open spec fn extend_pref(pref: Seq<Seq<char>>, v: Seq<char>) -> Seq<Seq<char>> {
    if v.len() == 0 {
        pref
    } else {
        seq![v] + remove_tag(pref, v, 0)
    }
}

/// A preference list with `v` first and every other occurrence of `v`
/// removed, the order of the rest kept.
pub fn extend_var_list(l: &Vec<String>, v: &String) -> (r: Vec<String>)
    ensures
        r.deep_view() == seq![v@] + remove_tag(l.deep_view(), v@, 0),
{
    let ghost lv = l.deep_view();
    let ghost target = seq![v@] + remove_tag(lv, v@, 0);
    let mut ret: Vec<String> = Vec::new();
    ret.push(v.clone());
    proof {
        assert(ret.deep_view() =~= seq![v@]);
    }
    let mut k: usize = 0;
    while k < l.len()
        invariant
            k <= l@.len(),
            lv == l.deep_view(),
            target == seq![v@] + remove_tag(lv, v@, 0),
            target == ret.deep_view() + remove_tag(lv, v@, k as int),
        decreases l@.len() - k,
    {
        let ghost prev = ret.deep_view();
        proof {
            assert(lv[k as int] == l@[k as int]@);
        }
        if !l[k].eq(v) {
            ret.push(l[k].clone());
            proof {
                assert(ret.deep_view() =~= prev + seq![lv[k as int]]);
                assert(prev + seq![lv[k as int]] + remove_tag(lv, v@, k + 1) =~= prev + (
                seq![lv[k as int]] + remove_tag(lv, v@, k + 1)));
            }
        }
        k = k + 1;
    }
    proof {
        assert(target =~= ret.deep_view());
    }
    ret
}

/// The result of expanding `ch` under `pref` with the given recursion
/// guard: the table entry is resolved, its description parsed, the node
/// stamped with the character and the resolved tag, and every unresolved
/// immediate child expanded in turn.
pub open spec fn expand_spec(
    t: Seq<EntryView>,
    ch: char,
    pref: Seq<Seq<char>>,
    fuel: nat,
) -> Result<NodeView, ErrorView>
    decreases fuel, 2int,
{
    if fuel == 0 {
        Err(ErrorView::Depth)
    } else {
        match query_spec(t, ch, pref) {
            None => Err(ErrorView::NotFound(ch)),
            Some((tag, raw, soft)) => match parse_result(raw) {
                None => Err(ErrorView::Grammar(grammar_fragment(raw))),
                Some(nv) => extend_spec(
                    t,
                    NodeView {
                        ideographic: Some(ch),
                        stroke_seq: nv.stroke_seq,
                        glyph_hint: nv.glyph_hint,
                        subtree: nv.subtree,
                        glyph_variant: tag,
                    },
                    pref,
                    fuel,
                ),
            },
        }
    }
}

/// Every unresolved immediate child of `nv` replaced by its expansion, in
/// argument order; the first failure aborts.
pub open spec fn extend_spec(
    t: Seq<EntryView>,
    nv: NodeView,
    pref: Seq<Seq<char>>,
    fuel: nat,
) -> Result<NodeView, ErrorView>
    decreases fuel, 1int,
{
    match nv.subtree {
        ExprView::Null => Ok(nv),
        ExprView::Unary { op, arg1 } => match extend_child_spec(t, *arg1, pref, fuel) {
            Ok(c1) => Ok(
                NodeView {
                    subtree: ExprView::Unary { op, arg1: Box::new(c1) },
                    ideographic: nv.ideographic,
                    stroke_seq: nv.stroke_seq,
                    glyph_hint: nv.glyph_hint,
                    glyph_variant: nv.glyph_variant,
                },
            ),
            Err(e) => Err(e),
        },
        ExprView::Bin { op, arg1, arg2, op_arg } => match extend_child_spec(t, *arg1, pref, fuel) {
            Ok(c1) => match extend_child_spec(t, *arg2, pref, fuel) {
                Ok(c2) => Ok(
                    NodeView {
                        subtree: ExprView::Bin {
                            op,
                            arg1: Box::new(c1),
                            arg2: Box::new(c2),
                            op_arg,
                        },
                        ideographic: nv.ideographic,
                        stroke_seq: nv.stroke_seq,
                        glyph_hint: nv.glyph_hint,
                        glyph_variant: nv.glyph_variant,
                    },
                ),
                Err(e) => Err(e),
            },
            Err(e) => Err(e),
        },
        ExprView::Ter { op, arg1, arg2, arg3 } => match extend_child_spec(t, *arg1, pref, fuel) {
            Ok(c1) => match extend_child_spec(t, *arg2, pref, fuel) {
                Ok(c2) => match extend_child_spec(t, *arg3, pref, fuel) {
                    Ok(c3) => Ok(
                        NodeView {
                            subtree: ExprView::Ter {
                                op,
                                arg1: Box::new(c1),
                                arg2: Box::new(c2),
                                arg3: Box::new(c3),
                            },
                            ideographic: nv.ideographic,
                            stroke_seq: nv.stroke_seq,
                            glyph_hint: nv.glyph_hint,
                            glyph_variant: nv.glyph_variant,
                        },
                    ),
                    Err(e) => Err(e),
                },
                Err(e) => Err(e),
            },
            Err(e) => Err(e),
        },
    }
}

/// One child: an unresolved character reference is expanded under its
/// extended preference list; anything else is left untouched.
pub open spec fn extend_child_spec(
    t: Seq<EntryView>,
    c: NodeView,
    pref: Seq<Seq<char>>,
    fuel: nat,
) -> Result<NodeView, ErrorView>
    decreases fuel, 0int,
{
    if is_unresolved(c) {
        if fuel == 0 {
            Err(ErrorView::Depth)
        } else {
            expand_spec(
                t,
                c.ideographic->Some_0,
                extend_pref(pref, c.glyph_variant),
                (fuel - 1) as nat,
            )
        }
    } else {
        Ok(c)
    }
}

/// The model of an expansion result.
pub open spec fn result_view(r: Result<IDSNode, IDSError>) -> Result<NodeView, ErrorView> {
    match r {
        Ok(n) => Ok(node_view(n)),
        Err(e) => Err(e@),
    }
}

/// An owned copy of a preference list.
fn clone_pref(l: &Vec<String>) -> (r: Vec<String>)
    ensures
        r.deep_view() == l.deep_view(),
{
    let mut ret: Vec<String> = Vec::new();
    let mut k: usize = 0;
    while k < l.len()
        invariant
            k <= l@.len(),
            ret@.len() == k,
            forall|m: int| 0 <= m < k ==> ret@[m]@ == l.deep_view()[m],
        decreases l@.len() - k,
    {
        ret.push(l[k].clone());
        k = k + 1;
    }
    proof {
        assert(ret.deep_view() =~= l.deep_view());
    }
    ret
}

fn node_is_unresolved(c: &IDSNode) -> (b: bool)
    ensures
        b == is_unresolved(c@),
{
    c.ideographic.is_some() && c.stroke_seq.is_none() && match c.subtree {
        IDSExpr::Null => true,
        _ => false,
    }
}

fn create_node_fueled(table: &VariantTable, ch: char, var: &Vec<String>, fuel: u32) -> (r: Result<
    IDSNode,
    IDSError,
>)
    ensures
        result_view(r) == expand_spec(table@, ch, var.deep_view(), fuel as nat),
    decreases fuel, 2int,
{
    if fuel == 0 {
        return Err(IDSError::DepthExceeded);
    }
    match query(table, ch, var) {
        None => Err(IDSError::LookupNotFound { ch }),
        Some((v, s, _soft)) => match IDSParser::parse(s.as_str()) {
            Err(e) => Err(e),
            Ok(mut root) => {
                root.ideographic = Some(ch);
                root.glyph_variant = v;
                proof {
                    let q = query_spec(table@, ch, var.deep_view());
                    assert(root@ =~= NodeView {
                        ideographic: Some(ch),
                        stroke_seq: parse_result(q->Some_0.1)->Some_0.stroke_seq,
                        glyph_hint: parse_result(q->Some_0.1)->Some_0.glyph_hint,
                        subtree: parse_result(q->Some_0.1)->Some_0.subtree,
                        glyph_variant: q->Some_0.0,
                    });
                }
                match extend_node_owned(table, root, var, fuel) {
                    Ok(n) => Ok(n),
                    Err(e) => Err(e),
                }
            },
        },
    }
}

fn extend_child(table: &VariantTable, c: Box<IDSNode>, var: &Vec<String>, fuel: u32) -> (r:
    Result<Box<IDSNode>, IDSError>)
    ensures
        match r {
            Ok(n) => extend_child_spec(table@, old_node(&c), var.deep_view(), fuel as nat)
                == Ok::<NodeView, ErrorView>(node_view(*n)),
            Err(e) => extend_child_spec(table@, old_node(&c), var.deep_view(), fuel as nat)
                == Err::<NodeView, ErrorView>(e@),
        },
    decreases fuel, 0int,
{
    if node_is_unresolved(&c) {
        if fuel == 0 {
            return Err(IDSError::DepthExceeded);
        }
        let ch = c.ideographic.unwrap();
        let pref2: Vec<String> = if c.glyph_variant.as_str().is_empty() {
            clone_pref(var)
        } else {
            extend_var_list(var, &c.glyph_variant)
        };
        proof {
            assert(pref2.deep_view() == extend_pref(var.deep_view(), c.glyph_variant@));
        }
        match create_node_fueled(table, ch, &pref2, fuel - 1) {
            Ok(n) => Ok(Box::new(n)),
            Err(e) => Err(e),
        }
    } else {
        Ok(c)
    }
}

/// The child as it was handed in: `extend_child` consumes it.
pub open spec fn old_node(c: &Box<IDSNode>) -> NodeView {
    node_view(**c)
}

fn extend_node_owned(table: &VariantTable, n: IDSNode, var: &Vec<String>, fuel: u32) -> (r:
    Result<IDSNode, IDSError>)
    ensures
        result_view(r) == extend_spec(table@, node_view(n), var.deep_view(), fuel as nat),
    decreases fuel, 1int,
{
    match n.subtree {
        IDSExpr::Null => Ok(
            IDSNode {
                ideographic: n.ideographic,
                stroke_seq: n.stroke_seq,
                glyph_hint: n.glyph_hint,
                subtree: IDSExpr::Null,
                glyph_variant: n.glyph_variant,
            },
        ),
        IDSExpr::UnaryExpr { op, arg1 } => match extend_child(table, arg1, var, fuel) {
            Ok(c1) => Ok(
                IDSNode {
                    ideographic: n.ideographic,
                    stroke_seq: n.stroke_seq,
                    glyph_hint: n.glyph_hint,
                    subtree: IDSExpr::UnaryExpr { op, arg1: c1 },
                    glyph_variant: n.glyph_variant,
                },
            ),
            Err(e) => Err(e),
        },
        IDSExpr::BinExpr { op, arg1, arg2, op_arg } => match extend_child(table, arg1, var, fuel) {
            Ok(c1) => match extend_child(table, arg2, var, fuel) {
                Ok(c2) => Ok(
                    IDSNode {
                        ideographic: n.ideographic,
                        stroke_seq: n.stroke_seq,
                        glyph_hint: n.glyph_hint,
                        subtree: IDSExpr::BinExpr { op, arg1: c1, arg2: c2, op_arg },
                        glyph_variant: n.glyph_variant,
                    },
                ),
                Err(e) => Err(e),
            },
            Err(e) => Err(e),
        },
        IDSExpr::TerExpr { op, arg1, arg2, arg3 } => match extend_child(table, arg1, var, fuel) {
            Ok(c1) => match extend_child(table, arg2, var, fuel) {
                Ok(c2) => match extend_child(table, arg3, var, fuel) {
                    Ok(c3) => Ok(
                        IDSNode {
                            ideographic: n.ideographic,
                            stroke_seq: n.stroke_seq,
                            glyph_hint: n.glyph_hint,
                            subtree: IDSExpr::TerExpr { op, arg1: c1, arg2: c2, arg3: c3 },
                            glyph_variant: n.glyph_variant,
                        },
                    ),
                    Err(e) => Err(e),
                },
                Err(e) => Err(e),
            },
            Err(e) => Err(e),
        },
    }
}

/// Replace every unresolved immediate child of `i` by its expansion, with
/// the default recursion guard.  On failure `i` is left unspecified and the
/// error of the first failing child is returned.
pub fn extend_node(i: &mut IDSNode, table: &VariantTable, var: &Vec<String>) -> (r: Result<
    (),
    IDSError,
>)
    ensures
        match r {
            Ok(_) => extend_spec(
                table@,
                old(i)@,
                var.deep_view(),
                DEFAULT_EXPAND_DEPTH as nat,
            ) == Ok::<NodeView, ErrorView>(final(i)@),
            Err(e) => extend_spec(
                table@,
                old(i)@,
                var.deep_view(),
                DEFAULT_EXPAND_DEPTH as nat,
            ) == Err::<NodeView, ErrorView>(e@),
        },
{
    let mut tmp = IDSNode {
        ideographic: None,
        stroke_seq: None,
        glyph_hint: String::new(),
        subtree: IDSExpr::Null,
        glyph_variant: String::new(),
    };
    core::mem::swap(i, &mut tmp);
    match extend_node_owned(table, tmp, var, DEFAULT_EXPAND_DEPTH) {
        Ok(n) => {
            *i = n;
            Ok(())
        },
        Err(e) => Err(e),
    }
}

/// Expand `ch` under the preference list `var` into a fully expanded
/// composition node.
///
/// Succeeds exactly when every lookup and parse of the expansion succeeds
/// within the default recursion guard, and then returns the tree that
/// `expand_spec` describes; the first failure aborts the whole expansion.
pub fn create_node(table: &VariantTable, ch: char, var: &Vec<String>) -> (r: Result<
    IDSNode,
    IDSError,
>)
    ensures
        result_view(r) == expand_spec(
            table@,
            ch,
            var.deep_view(),
            DEFAULT_EXPAND_DEPTH as nat,
        ),
{
    create_node_fueled(table, ch, var, DEFAULT_EXPAND_DEPTH)
}

/// Expand `ch` into a whole tree.
pub fn create_tree(table: &VariantTable, ch: char, var: &Vec<String>) -> (r: Result<
    IDS,
    IDSError,
>)
    ensures
        match r {
            Ok(tree) => expand_spec(
                table@,
                ch,
                var.deep_view(),
                DEFAULT_EXPAND_DEPTH as nat,
            ) == Ok::<NodeView, ErrorView>(tree@),
            Err(e) => expand_spec(
                table@,
                ch,
                var.deep_view(),
                DEFAULT_EXPAND_DEPTH as nat,
            ) == Err::<NodeView, ErrorView>(e@),
        },
{
    match create_node(table, ch, var) {
        Ok(root) => Ok(IDS { root }),
        Err(e) => Err(e),
    }
}

} // verus!
