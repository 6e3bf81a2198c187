//! The description-string grammar and its parser.
//!
//! A raw description string is exactly one expression:
//!
//! ```text
//! expr      := ideographicAtom | strokeExpr | unaryExpr | binExpr | terExpr
//! atom      := <atom char> [ '(' <variant-tag> ')' ]
//! strokeExpr:= [ '{' <hint> '}' ] <stroke char>+
//! unaryExpr := <unary op> expr
//! binExpr   := [ '{' <hint> '}' ] <binary op> [ '[' <overlay> ']' ] expr expr
//! terExpr   := [ '{' <hint> '}' ] <ternary op> expr expr expr
//! ```
//!
//! Operators are the ideographic description characters: `U+2FF0`..`U+2FF1`
//! and `U+2FF4`..`U+2FFD` are binary, `U+2FF2`..`U+2FF3` ternary, and
//! `U+2FFE`, `U+2FFF` and `U+303E` unary.  A stroke primitive is a maximal
//! run of ASCII letters and digits.  Any other character that is not a
//! bracket is an atom: a reference to another ideographic character.
//!
//! The spec functions `sp_expr`, `sp_hinted` and `sp_bin_tail` are the
//! definitional reference: the executable parser returns exactly what they
//! say, and a string is grammatical exactly when `parse_result` is `Some`.

use vstd::prelude::*;
use vstd::string::StrSliceExecFns;
use vstd::string::StringExecFns;

use crate::node::ExprView;
use crate::node::IDSExpr;
use crate::node::IDSNode;
use crate::node::NodeView;

verus! {

/// The failures the library reports.
pub enum IDSError {
    /// The raw string matches no grammar production; carries the fragment
    /// that could not be parsed.
    GrammarError { fragment: String },
    /// No variant-table entry exists for the character.
    LookupNotFound { ch: char },
    /// The recursion guard of the expansion engine ran out: the table is
    /// cyclic or nested deeper than the guard allows.
    DepthExceeded,
}

/// Mathematical model of `IDSError`.
#[verifier::ext_equal]
pub enum ErrorView {
    Grammar(Seq<char>),
    NotFound(char),
    Depth,
}

impl View for IDSError {
    type V = ErrorView;

    open spec fn view(&self) -> ErrorView {
        match self {
            IDSError::GrammarError { fragment } => ErrorView::Grammar(fragment@),
            IDSError::LookupNotFound { ch } => ErrorView::NotFound(*ch),
            IDSError::DepthExceeded => ErrorView::Depth,
        }
    }
}

pub open spec fn is_unary_op(c: char) -> bool {
    c as u32 == 0x2FFE || c as u32 == 0x2FFF || c as u32 == 0x303E
}

pub open spec fn is_ternary_op(c: char) -> bool {
    c as u32 == 0x2FF2 || c as u32 == 0x2FF3
}

pub open spec fn is_binary_op(c: char) -> bool {
    0x2FF0 <= c as u32 && c as u32 <= 0x2FFD && !is_ternary_op(c)
}

pub open spec fn is_stroke_char(c: char) -> bool {
    (0x61 <= c as u32 && c as u32 <= 0x7A)  // 'a'..'z'
    || (0x41 <= c as u32 && c as u32 <= 0x5A)  // 'A'..'Z'
    || (0x30 <= c as u32 && c as u32 <= 0x39)  // '0'..'9'
}

pub open spec fn is_bracket(c: char) -> bool {
    c == '{' || c == '}' || c == '[' || c == ']' || c == '(' || c == ')'
}

pub open spec fn is_atom_char(c: char) -> bool {
    !is_unary_op(c) && !is_ternary_op(c) && !is_binary_op(c) && !is_stroke_char(c)
        && !is_bracket(c)
}

/// Index of the first occurrence of `c` at or after `from`.
pub open spec fn find_char(s: Seq<char>, from: int, c: char) -> Option<int>
    decreases s.len() - from,
{
    if from < 0 || from >= s.len() {
        None
    } else if s[from] == c {
        Some(from)
    } else {
        find_char(s, from + 1, c)
    }
}

/// End (exclusive) of the run of stroke characters starting at `from`.
pub open spec fn stroke_run_end(s: Seq<char>, from: int) -> int
    decreases s.len() - from,
{
    if from < 0 || from >= s.len() {
        from
    } else if is_stroke_char(s[from]) {
        stroke_run_end(s, from + 1)
    } else {
        from
    }
}

pub open spec fn atom_node(c: char, tag: Seq<char>) -> NodeView {
    NodeView {
        ideographic: Some(c),
        stroke_seq: None,
        glyph_hint: Seq::empty(),
        subtree: ExprView::Null,
        glyph_variant: tag,
    }
}

pub open spec fn stroke_node(tok: Seq<char>, hint: Seq<char>) -> NodeView {
    NodeView {
        ideographic: None,
        stroke_seq: Some(tok),
        glyph_hint: hint,
        subtree: ExprView::Null,
        glyph_variant: Seq::empty(),
    }
}

pub open spec fn unary_node(op: char, a1: NodeView) -> NodeView {
    NodeView {
        ideographic: None,
        stroke_seq: None,
        glyph_hint: Seq::empty(),
        subtree: ExprView::Unary { op, arg1: Box::new(a1) },
        glyph_variant: Seq::empty(),
    }
}

pub open spec fn bin_node(
    op: char,
    hint: Seq<char>,
    overlay: Option<Seq<char>>,
    a1: NodeView,
    a2: NodeView,
) -> NodeView {
    NodeView {
        ideographic: None,
        stroke_seq: None,
        glyph_hint: hint,
        subtree: ExprView::Bin {
            op,
            arg1: Box::new(a1),
            arg2: Box::new(a2),
            op_arg: overlay,
        },
        glyph_variant: Seq::empty(),
    }
}

pub open spec fn ter_node(
    op: char,
    hint: Seq<char>,
    a1: NodeView,
    a2: NodeView,
    a3: NodeView,
) -> NodeView {
    NodeView {
        ideographic: None,
        stroke_seq: None,
        glyph_hint: hint,
        subtree: ExprView::Ter {
            op,
            arg1: Box::new(a1),
            arg2: Box::new(a2),
            arg3: Box::new(a3),
        },
        glyph_variant: Seq::empty(),
    }
}

/// Parse one expression at position `i`; on success return the node and the
/// position just after the consumed text.
pub open spec fn sp_expr(s: Seq<char>, i: int) -> Option<(NodeView, int)>
    decreases s.len() - i, 1int,
{
    if !(0 <= i < s.len()) {
        None
    } else {
        let c = s[i];
        if c == '{' {
            match find_char(s, i + 1, '}') {
                Some(k) => if k < i + 1 || k >= s.len() {
                    None
                } else {
                    sp_hinted(s, k + 1, s.subrange(i + 1, k))
                },
                None => None,
            }
        } else if is_unary_op(c) {
            match sp_expr(s, i + 1) {
                Some((a1, j)) => Some((unary_node(c, a1), j)),
                None => None,
            }
        } else if is_atom_char(c) {
            if i + 1 < s.len() && s[i + 1] == '(' {
                match find_char(s, i + 2, ')') {
                    Some(k) => if k < i + 2 {
                        None
                    } else {
                        Some((atom_node(c, s.subrange(i + 2, k)), k + 1))
                    },
                    None => None,
                }
            } else {
                Some((atom_node(c, Seq::empty()), i + 1))
            }
        } else {
            sp_hinted(s, i, Seq::empty())
        }
    }
}

/// Parse the alternatives that may carry a leading hint: a stroke primitive
/// or a binary or ternary operator expression.
pub open spec fn sp_hinted(s: Seq<char>, i: int, hint: Seq<char>) -> Option<(NodeView, int)>
    decreases s.len() - i, 0int,
{
    if !(0 <= i < s.len()) {
        None
    } else {
        let c = s[i];
        if is_ternary_op(c) {
            match sp_expr(s, i + 1) {
                Some((a1, j1)) => if j1 <= i || j1 > s.len() {
                    None
                } else {
                    match sp_expr(s, j1) {
                        Some((a2, j2)) => if j2 <= j1 || j2 > s.len() {
                            None
                        } else {
                            match sp_expr(s, j2) {
                                Some((a3, j3)) => Some((ter_node(c, hint, a1, a2, a3), j3)),
                                None => None,
                            }
                        },
                        None => None,
                    }
                },
                None => None,
            }
        } else if is_binary_op(c) {
            if i + 1 < s.len() && s[i + 1] == '[' {
                match find_char(s, i + 2, ']') {
                    Some(k) => if k < i + 2 || k >= s.len() {
                        None
                    } else {
                        sp_bin_tail(s, k + 1, c, hint, Some(s.subrange(i + 2, k)))
                    },
                    None => None,
                }
            } else {
                sp_bin_tail(s, i + 1, c, hint, None)
            }
        } else if is_stroke_char(c) {
            let e = stroke_run_end(s, i);
            Some((stroke_node(s.subrange(i, e), hint), e))
        } else {
            None
        }
    }
}

/// Parse the two children of a binary operator starting at `j`.
pub open spec fn sp_bin_tail(
    s: Seq<char>,
    j: int,
    op: char,
    hint: Seq<char>,
    overlay: Option<Seq<char>>,
) -> Option<(NodeView, int)>
    decreases s.len() - j, 2int,
{
    match sp_expr(s, j) {
        Some((a1, j1)) => if j1 <= j || j1 > s.len() {
            None
        } else {
            match sp_expr(s, j1) {
                Some((a2, j2)) => Some((bin_node(op, hint, overlay, a1, a2), j2)),
                None => None,
            }
        },
        None => None,
    }
}

/// A raw string parses exactly when one expression consumes all of it.
pub open spec fn parse_result(s: Seq<char>) -> Option<NodeView> {
    match sp_expr(s, 0) {
        Some((n, j)) => if j == s.len() {
            Some(n)
        } else {
            None
        },
        None => None,
    }
}

/// The fragment a failed parse reports: the unconsumed tail if one
/// expression was recognised, the whole string otherwise.
pub open spec fn grammar_fragment(s: Seq<char>) -> Seq<char> {
    match sp_expr(s, 0) {
        Some((n, j)) => if 0 <= j < s.len() {
            s.subrange(j, s.len() as int)
        } else {
            s
        },
        None => s,
    }
}

/// Every successful parse makes progress and stays inside the string.
pub proof fn lemma_sp_progress(s: Seq<char>, i: int)
    ensures
        match sp_expr(s, i) {
            Some(p) => i < p.1 <= s.len(),
            None => true,
        },
    decreases s.len() - i, 1int,
{
    if 0 <= i < s.len() {
        let c = s[i];
        if c == '{' {
            if let Some(k) = find_char(s, i + 1, '}') {
                lemma_find_char(s, i + 1, '}');
                if k >= i + 1 {
                    lemma_sp_hinted_progress(s, k + 1, s.subrange(i + 1, k));
                }
            }
        } else if is_unary_op(c) {
            lemma_sp_progress(s, i + 1);
        } else if is_atom_char(c) {
            if i + 1 < s.len() && s[i + 1] == '(' {
                lemma_find_char(s, i + 2, ')');
            }
        } else {
            lemma_sp_hinted_progress(s, i, Seq::empty());
        }
    }
}

pub proof fn lemma_sp_hinted_progress(s: Seq<char>, i: int, hint: Seq<char>)
    ensures
        match sp_hinted(s, i, hint) {
            Some(p) => i < p.1 <= s.len(),
            None => true,
        },
    decreases s.len() - i, 0int,
{
    if 0 <= i < s.len() {
        let c = s[i];
        if is_ternary_op(c) {
            lemma_sp_progress(s, i + 1);
            if let Some((a1, j1)) = sp_expr(s, i + 1) {
                if j1 > i {
                    lemma_sp_progress(s, j1);
                    if let Some((a2, j2)) = sp_expr(s, j1) {
                        if j2 > j1 {
                            lemma_sp_progress(s, j2);
                        }
                    }
                }
            }
        } else if is_binary_op(c) {
            if i + 1 < s.len() && s[i + 1] == '[' {
                if let Some(k) = find_char(s, i + 2, ']') {
                    lemma_find_char(s, i + 2, ']');
                    if k >= i + 2 {
                        lemma_sp_bin_tail_progress(s, k + 1, c, hint, Some(s.subrange(i + 2, k)));
                    }
                }
            } else {
                lemma_sp_bin_tail_progress(s, i + 1, c, hint, None);
            }
        } else if is_stroke_char(c) {
            lemma_stroke_run_end(s, i);
        }
    }
}

pub proof fn lemma_sp_bin_tail_progress(
    s: Seq<char>,
    j: int,
    op: char,
    hint: Seq<char>,
    overlay: Option<Seq<char>>,
)
    ensures
        match sp_bin_tail(s, j, op, hint, overlay) {
            Some(p) => j < p.1 <= s.len(),
            None => true,
        },
    decreases s.len() - j, 2int,
{
    lemma_sp_progress(s, j);
    if let Some((a1, j1)) = sp_expr(s, j) {
        if j1 > j {
            lemma_sp_progress(s, j1);
        }
    }
}

/// What `find_char` returns: the first occurrence, inside the string.
pub proof fn lemma_find_char(s: Seq<char>, from: int, c: char)
    ensures
        match find_char(s, from, c) {
            Some(k) => from <= k < s.len() && s[k] == c,
            None => true,
        },
    decreases s.len() - from,
{
    if 0 <= from < s.len() && s[from] != c {
        lemma_find_char(s, from + 1, c);
    }
}

/// The stroke run starting at a stroke character is non-empty and in range.
pub proof fn lemma_stroke_run_end(s: Seq<char>, from: int)
    ensures
        0 <= from <= s.len() ==> from <= stroke_run_end(s, from) <= s.len(),
        0 <= from < s.len() && is_stroke_char(s[from]) ==> from < stroke_run_end(s, from),
    decreases s.len() - from,
{
    if 0 <= from < s.len() && is_stroke_char(s[from]) {
        lemma_stroke_run_end(s, from + 1);
    }
}

/// The parser type; `IDSParser::parse` turns one raw description string into
/// a composition node.
pub struct IDSParser;

fn op_is_unary(c: char) -> (b: bool)
    ensures
        b == is_unary_op(c),
{
    let u = c as u32;
    u == 0x2FFE || u == 0x2FFF || u == 0x303E
}

fn op_is_ternary(c: char) -> (b: bool)
    ensures
        b == is_ternary_op(c),
{
    let u = c as u32;
    u == 0x2FF2 || u == 0x2FF3
}

fn op_is_binary(c: char) -> (b: bool)
    ensures
        b == is_binary_op(c),
{
    let u = c as u32;
    0x2FF0 <= u && u <= 0x2FFD && !(u == 0x2FF2 || u == 0x2FF3)
}

fn char_is_stroke(c: char) -> (b: bool)
    ensures
        b == is_stroke_char(c),
{
    let u = c as u32;
    (0x61 <= u && u <= 0x7A) || (0x41 <= u && u <= 0x5A) || (0x30 <= u && u <= 0x39)
}

fn char_is_bracket(c: char) -> (b: bool)
    ensures
        b == is_bracket(c),
{
    c == '{' || c == '}' || c == '[' || c == ']' || c == '(' || c == ')'
}

fn char_is_atom(c: char) -> (b: bool)
    ensures
        b == is_atom_char(c),
{
    !op_is_unary(c) && !op_is_ternary(c) && !op_is_binary(c) && !char_is_stroke(c)
        && !char_is_bracket(c)
}

/// First occurrence of `c` in `s` at or after `from`.
pub(crate) fn find_from(s: &str, len: usize, from: usize, c: char) -> (r: Option<usize>)
    requires
        len == s@.len(),
        from <= len,
    ensures
        match r {
            Some(k) => find_char(s@, from as int, c) == Some(k as int) && from <= k < len
                && s@[k as int] == c,
            None => find_char(s@, from as int, c) is None,
        },
{
    let mut j: usize = from;
    while j < len
        invariant
            from <= j <= len,
            len == s@.len(),
            find_char(s@, from as int, c) == find_char(s@, j as int, c),
        decreases len - j,
    {
        let cj = s.get_char(j);
        if cj == c {
            return Some(j);
        }
        j = j + 1;
    }
    None
}

/// End (exclusive) of the stroke run starting at `from`.
fn stroke_end_from(s: &str, len: usize, from: usize) -> (r: usize)
    requires
        len == s@.len(),
        from <= len,
    ensures
        r as int == stroke_run_end(s@, from as int),
        from <= r <= len,
{
    let mut j: usize = from;
    while j < len
        invariant
            from <= j <= len,
            len == s@.len(),
            stroke_run_end(s@, from as int) == stroke_run_end(s@, j as int),
        decreases len - j,
    {
        let cj = s.get_char(j);
        if !char_is_stroke(cj) {
            return j;
        }
        j = j + 1;
    }
    len
}

/// Copy the characters `from..to` of `s` into an owned string.
pub(crate) fn copy_range(s: &str, len: usize, from: usize, to: usize) -> (r: String)
    requires
        len == s@.len(),
        from <= to <= len,
    ensures
        r@ == s@.subrange(from as int, to as int),
{
    let piece = s.substring_char(from, to);
    String::from_str(piece)
}

fn p_expr(s: &str, len: usize, i: usize) -> (r: Option<(IDSNode, usize)>)
    requires
        len == s@.len(),
        i <= len,
    ensures
        match r {
            Some((n, j)) => sp_expr(s@, i as int) == Some((n@, j as int)) && i < j <= len,
            None => sp_expr(s@, i as int) is None,
        },
    decreases s@.len() - i, 1int,
{
    if i >= len {
        return None;
    }
    let c = s.get_char(i);
    if c == '{' {
        match find_from(s, len, i + 1, '}') {
            Some(k) => {
                let hint = copy_range(s, len, i + 1, k);
                let r = p_hinted(s, len, k + 1, hint);
                proof {
                    if r is Some {
                        lemma_sp_hinted_progress(s@, k + 1, s@.subrange(i + 1, k as int));
                    }
                }
                r
            },
            None => None,
        }
    } else if op_is_unary(c) {
        match p_expr(s, len, i + 1) {
            Some((a1, j)) => {
                let n = IDSNode {
                    ideographic: None,
                    stroke_seq: None,
                    glyph_hint: String::new(),
                    subtree: IDSExpr::UnaryExpr { op: c, arg1: Box::new(a1) },
                    glyph_variant: String::new(),
                };
                proof {
                    assert(n@ =~= unary_node(c, sp_expr(s@, i + 1)->Some_0.0));
                }
                Some((n, j))
            },
            None => None,
        }
    } else if char_is_atom(c) {
        if i + 1 < len && s.get_char(i + 1) == '(' {
            match find_from(s, len, i + 2, ')') {
                Some(k) => {
                    let tag = copy_range(s, len, i + 2, k);
                    let n = IDSNode {
                        ideographic: Some(c),
                        stroke_seq: None,
                        glyph_hint: String::new(),
                        subtree: IDSExpr::Null,
                        glyph_variant: tag,
                    };
                    proof {
                        assert(n@ =~= atom_node(c, s@.subrange(i + 2, k as int)));
                    }
                    Some((n, k + 1))
                },
                None => None,
            }
        } else {
            let n = IDSNode {
                ideographic: Some(c),
                stroke_seq: None,
                glyph_hint: String::new(),
                subtree: IDSExpr::Null,
                glyph_variant: String::new(),
            };
            proof {
                assert(n@ =~= atom_node(c, Seq::<char>::empty()));
            }
            Some((n, i + 1))
        }
    } else {
        let r = p_hinted(s, len, i, String::new());
        proof {
            if r is Some {
                lemma_sp_hinted_progress(s@, i as int, Seq::<char>::empty());
            }
        }
        r
    }
}

fn p_hinted(s: &str, len: usize, i: usize, hint: String) -> (r: Option<(IDSNode, usize)>)
    requires
        len == s@.len(),
        i <= len + 1,
    ensures
        match r {
            Some((n, j)) => sp_hinted(s@, i as int, hint@) == Some((n@, j as int)) && i < j
                <= len,
            None => sp_hinted(s@, i as int, hint@) is None,
        },
    decreases s@.len() - i, 0int,
{
    if i >= len {
        return None;
    }
    let c = s.get_char(i);
    if op_is_ternary(c) {
        match p_expr(s, len, i + 1) {
            Some((a1, j1)) => match p_expr(s, len, j1) {
                Some((a2, j2)) => match p_expr(s, len, j2) {
                    Some((a3, j3)) => {
                        let n = IDSNode {
                            ideographic: None,
                            stroke_seq: None,
                            glyph_hint: hint,
                            subtree: IDSExpr::TerExpr {
                                op: c,
                                arg1: Box::new(a1),
                                arg2: Box::new(a2),
                                arg3: Box::new(a3),
                            },
                            glyph_variant: String::new(),
                        };
                        proof {
                            assert(n@ =~= ter_node(
                                c,
                                n.glyph_hint@,
                                *n@.subtree->Ter_arg1,
                                *n@.subtree->Ter_arg2,
                                *n@.subtree->Ter_arg3,
                            ));
                        }
                        Some((n, j3))
                    },
                    None => None,
                },
                None => None,
            },
            None => None,
        }
    } else if op_is_binary(c) {
        if i + 1 < len && s.get_char(i + 1) == '[' {
            match find_from(s, len, i + 2, ']') {
                Some(k) => {
                    let overlay = copy_range(s, len, i + 2, k);
                    let r = p_bin_tail(s, len, k + 1, c, hint, Some(overlay));
                    proof {
                        if r is Some {
                            lemma_sp_bin_tail_progress(
                                s@,
                                k + 1,
                                c,
                                hint@,
                                Some(s@.subrange(i + 2, k as int)),
                            );
                        }
                    }
                    r
                },
                None => None,
            }
        } else {
            let r = p_bin_tail(s, len, i + 1, c, hint, None);
            proof {
                if r is Some {
                    lemma_sp_bin_tail_progress(s@, i + 1, c, hint@, None);
                }
            }
            r
        }
    } else if char_is_stroke(c) {
        let e = stroke_end_from(s, len, i);
        proof {
            lemma_stroke_run_end(s@, i as int);
        }
        let tok = copy_range(s, len, i, e);
        let n = IDSNode {
            ideographic: None,
            stroke_seq: Some(tok),
            glyph_hint: hint,
            subtree: IDSExpr::Null,
            glyph_variant: String::new(),
        };
        proof {
            assert(n@ =~= stroke_node(s@.subrange(i as int, e as int), n.glyph_hint@));
        }
        Some((n, e))
    } else {
        None
    }
}

fn p_bin_tail(
    s: &str,
    len: usize,
    j: usize,
    op: char,
    hint: String,
    overlay: Option<String>,
) -> (r: Option<(IDSNode, usize)>)
    requires
        len == s@.len(),
        j <= len + 1,
    ensures
        match r {
            Some((n, j2)) => sp_bin_tail(
                s@,
                j as int,
                op,
                hint@,
                match overlay {
                    Some(o) => Some(o@),
                    None => None,
                },
            ) == Some((n@, j2 as int)) && j < j2 <= len,
            None => sp_bin_tail(
                s@,
                j as int,
                op,
                hint@,
                match overlay {
                    Some(o) => Some(o@),
                    None => None,
                },
            ) is None,
        },
    decreases s@.len() - j, 2int,
{
    if j > len {
        return None;
    }
    match p_expr(s, len, j) {
        Some((a1, j1)) => match p_expr(s, len, j1) {
            Some((a2, j2)) => {
                let ghost ov: Option<Seq<char>> = match &overlay {
                    Some(o) => Some(o@),
                    None => None,
                };
                let n = IDSNode {
                    ideographic: None,
                    stroke_seq: None,
                    glyph_hint: hint,
                    subtree: IDSExpr::BinExpr {
                        op,
                        arg1: Box::new(a1),
                        arg2: Box::new(a2),
                        op_arg: overlay,
                    },
                    glyph_variant: String::new(),
                };
                proof {
                    assert(n@ =~= bin_node(
                        op,
                        n.glyph_hint@,
                        ov,
                        *n@.subtree->Bin_arg1,
                        *n@.subtree->Bin_arg2,
                    ));
                }
                Some((n, j2))
            },
            None => None,
        },
        None => None,
    }
}

impl IDSParser {
    /// Parse one raw description string into a composition node.
    ///
    /// Succeeds exactly when the whole string is one grammatical expression,
    /// and then returns its tree; otherwise reports the unparseable fragment.
    pub fn parse(raw: &str) -> (r: Result<IDSNode, IDSError>)
        ensures
            match r {
                Ok(n) => parse_result(raw@) == Some(n@),
                Err(e) => parse_result(raw@) is None && e@ == ErrorView::Grammar(
                    grammar_fragment(raw@),
                ),
            },
    {
        let len = raw.unicode_len();
        match p_expr(raw, len, 0) {
            Some((n, j)) => {
                if j == len {
                    Ok(n)
                } else {
                    let frag = copy_range(raw, len, j, len);
                    Err(IDSError::GrammarError { fragment: frag })
                }
            },
            None => {
                let frag = copy_range(raw, len, 0, len);
                proof {
                    assert(raw@.subrange(0, len as int) =~= raw@);
                }
                Err(IDSError::GrammarError { fragment: frag })
            },
        }
    }
}

} // verus!
