//! Laws of the library, stated once and proved for all inputs.

use vstd::prelude::*;

use crate::expand::expand_spec;
use crate::expand::extend_child_spec;
use crate::expand::extend_pref;
use crate::expand::extend_spec;
use crate::expand::remove_tag;
use crate::io::find_tag;
use crate::io::lookup_pairs;
use crate::io::query_spec;
use crate::io::resolve_pref;
use crate::io::resolve_spec;
use crate::io::EntryView;
use crate::io::PairView;
use crate::node::is_unresolved;
use crate::node::tree_line;
use crate::node::tree_text;
use crate::node::ExprView;
use crate::node::NodeView;
use crate::parser::parse_result;
use crate::parser::ErrorView;

verus! {

/// A character with exactly one recorded pair resolves to that pair, not as
/// a soft fallback, whatever the preference list holds — including nothing.
pub proof fn lemma_single_variant(t: Seq<EntryView>, ch: char, pref: Seq<Seq<char>>)
    requires
        lookup_pairs(t, ch) is Some,
        lookup_pairs(t, ch)->Some_0.len() == 1,
    ensures
        query_spec(t, ch, pref) == Some(
            (
                lookup_pairs(t, ch)->Some_0[0].tag,
                lookup_pairs(t, ch)->Some_0[0].raw,
                false,
            ),
        ),
{
}

/// When more than one pair is available, the first preference entry whose
/// tag is recorded wins, and the choice is no fallback.
pub proof fn lemma_preference_first(pairs: Seq<PairView>, pref: Seq<Seq<char>>)
    requires
        pairs.len() >= 2,
        pref.len() >= 1,
        find_tag(pairs, pref[0], 0) is Some,
    ensures
        resolve_spec(pairs, pref) == Some((find_tag(pairs, pref[0], 0)->Some_0, false)),
{
}

proof fn lemma_resolve_pref_skip(pairs: Seq<PairView>, pref: Seq<Seq<char>>, from: int, k: int)
    requires
        0 <= from <= k <= pref.len(),
        forall|m: int| from <= m < k ==> find_tag(pairs, #[trigger] pref[m], 0) is None,
    ensures
        resolve_pref(pairs, pref, from) == resolve_pref(pairs, pref, k),
    decreases k - from,
{
    if from < k {
        lemma_resolve_pref_skip(pairs, pref, from + 1, k);
    }
}

/// The preference list is scanned in order: the first entry whose tag is
/// recorded decides, whatever comes after it.
pub proof fn lemma_preference_order(pairs: Seq<PairView>, pref: Seq<Seq<char>>, k: int)
    requires
        pairs.len() >= 2,
        0 <= k < pref.len(),
        forall|m: int| 0 <= m < k ==> find_tag(pairs, #[trigger] pref[m], 0) is None,
        find_tag(pairs, pref[k], 0) is Some,
    ensures
        resolve_spec(pairs, pref) == Some((find_tag(pairs, pref[k], 0)->Some_0, false)),
{
    lemma_resolve_pref_skip(pairs, pref, 0, k);
}

/// When no preference entry matches, the default (empty-tag) pair wins if
/// one is recorded, else the first pair; either way the choice is a soft
/// fallback.
pub proof fn lemma_preference_fallback(pairs: Seq<PairView>, pref: Seq<Seq<char>>)
    requires
        pairs.len() >= 2,
        resolve_pref(pairs, pref, 0) is None,
    ensures
        resolve_spec(pairs, pref) == match find_tag(pairs, Seq::<char>::empty(), 0) {
            Some(i) => Some((i, true)),
            None => Some((0int, true)),
        },
{
}

/// `remove_tag` really removes every occurrence of the tag.
pub proof fn lemma_remove_tag_no_occurrence(l: Seq<Seq<char>>, v: Seq<char>, from: int)
    ensures
        forall|m: int|
            0 <= m < remove_tag(l, v, from).len() ==> #[trigger] remove_tag(l, v, from)[m] != v,
    decreases l.len() - from,
{
    if 0 <= from < l.len() {
        lemma_remove_tag_no_occurrence(l, v, from + 1);
        let rest = remove_tag(l, v, from + 1);
        if l[from] == v {
            assert(remove_tag(l, v, from) == rest);
        } else {
            assert(remove_tag(l, v, from) == seq![l[from]] + rest);
            assert forall|m: int| 0 <= m < remove_tag(l, v, from).len() implies #[trigger] remove_tag(
                l,
                v,
                from,
            )[m] != v by {
                if m == 0 {
                    assert(remove_tag(l, v, from)[0] == l[from]);
                } else {
                    assert(remove_tag(l, v, from)[m] == rest[m - 1]);
                }
            }
        }
    } else {
        assert(remove_tag(l, v, from).len() == 0);
    }
}

/// An unresolved child that carries a variant annotation is expanded under
/// a preference list that holds that annotation first and nowhere else,
/// with the order of the inherited preferences kept.
pub proof fn lemma_variant_propagation(
    t: Seq<EntryView>,
    c: NodeView,
    pref: Seq<Seq<char>>,
    fuel: nat,
)
    requires
        is_unresolved(c),
        c.glyph_variant.len() > 0,
        fuel > 0,
    ensures
        extend_child_spec(t, c, pref, fuel) == expand_spec(
            t,
            c.ideographic->Some_0,
            extend_pref(pref, c.glyph_variant),
            (fuel - 1) as nat,
        ),
        extend_pref(pref, c.glyph_variant)[0] == c.glyph_variant,
        forall|m: int|
            1 <= m < extend_pref(pref, c.glyph_variant).len() ==> #[trigger] extend_pref(
                pref,
                c.glyph_variant,
            )[m] != c.glyph_variant,
{
    lemma_remove_tag_no_occurrence(pref, c.glyph_variant, 0);
    assert forall|m: int|
        1 <= m < extend_pref(pref, c.glyph_variant).len() implies #[trigger] extend_pref(
        pref,
        c.glyph_variant,
    )[m] != c.glyph_variant by {
        assert(extend_pref(pref, c.glyph_variant)[m] == remove_tag(pref, c.glyph_variant, 0)[m
            - 1]);
    }
}

/// A character whose resolved description parses to a pure stroke leaf
/// expands in one lookup/parse step, with no further recursion: the result
/// does not depend on the recursion guard.
pub proof fn lemma_stroke_terminates(t: Seq<EntryView>, ch: char, pref: Seq<Seq<char>>, fuel: nat)
    requires
        fuel > 0,
        query_spec(t, ch, pref) is Some,
        parse_result(query_spec(t, ch, pref)->Some_0.1) is Some,
        parse_result(query_spec(t, ch, pref)->Some_0.1)->Some_0.subtree is Null,
    ensures
        expand_spec(t, ch, pref, fuel) == Ok::<NodeView, ErrorView>(
            NodeView {
                ideographic: Some(ch),
                stroke_seq: parse_result(query_spec(t, ch, pref)->Some_0.1)->Some_0.stroke_seq,
                glyph_hint: parse_result(query_spec(t, ch, pref)->Some_0.1)->Some_0.glyph_hint,
                subtree: ExprView::Null,
                glyph_variant: query_spec(t, ch, pref)->Some_0.0,
            },
        ),
        expand_spec(t, ch, pref, fuel) == expand_spec(t, ch, pref, 1),
{
}

/// A character with no usable table entry fails with `NotFound` naming it.
pub proof fn lemma_notfound_root(t: Seq<EntryView>, ch: char, pref: Seq<Seq<char>>, fuel: nat)
    requires
        fuel > 0,
        query_spec(t, ch, pref) is None,
    ensures
        expand_spec(t, ch, pref, fuel) == Err::<NodeView, ErrorView>(ErrorView::NotFound(ch)),
{
}

/// The first child of an operator expression, the one extended first.
pub open spec fn first_child(e: ExprView) -> NodeView {
    match e {
        ExprView::Unary { arg1, .. } => *arg1,
        ExprView::Bin { arg1, .. } => *arg1,
        ExprView::Ter { arg1, .. } => *arg1,
        ExprView::Null => NodeView {
            ideographic: None,
            stroke_seq: None,
            glyph_hint: Seq::empty(),
            subtree: ExprView::Null,
            glyph_variant: Seq::empty(),
        },
    }
}

/// A failure under any immediate child aborts the whole extension with that
/// failure: here for the first child, the one reached first, so no partial
/// tree can come back.
pub proof fn lemma_failure_propagation(
    t: Seq<EntryView>,
    nv: NodeView,
    pref: Seq<Seq<char>>,
    fuel: nat,
    e: ErrorView,
)
    requires
        !(nv.subtree is Null),
        extend_child_spec(t, first_child(nv.subtree), pref, fuel) == Err::<NodeView, ErrorView>(e),
    ensures
        extend_spec(t, nv, pref, fuel) == Err::<NodeView, ErrorView>(e),
{
}

/// A transitively referenced character with no table entry fails the whole
/// expansion with `NotFound` naming that character, one level down: the
/// root resolves and parses, its first child is an unresolved reference,
/// and that reference has no entry under the extended preference list.
pub proof fn lemma_missing_child_fails(
    t: Seq<EntryView>,
    ch: char,
    pref: Seq<Seq<char>>,
    fuel: nat,
)
    requires
        fuel > 1,
        query_spec(t, ch, pref) is Some,
        parse_result(query_spec(t, ch, pref)->Some_0.1) is Some,
        !(parse_result(query_spec(t, ch, pref)->Some_0.1)->Some_0.subtree is Null),
        is_unresolved(first_child(parse_result(query_spec(t, ch, pref)->Some_0.1)->Some_0.subtree)),
        query_spec(
            t,
            first_child(
                parse_result(query_spec(t, ch, pref)->Some_0.1)->Some_0.subtree,
            ).ideographic->Some_0,
            extend_pref(
                pref,
                first_child(
                    parse_result(query_spec(t, ch, pref)->Some_0.1)->Some_0.subtree,
                ).glyph_variant,
            ),
        ) is None,
    ensures
        expand_spec(t, ch, pref, fuel) == Err::<NodeView, ErrorView>(
            ErrorView::NotFound(
                first_child(
                    parse_result(query_spec(t, ch, pref)->Some_0.1)->Some_0.subtree,
                ).ideographic->Some_0,
            ),
        ),
{
    let nv0 = parse_result(query_spec(t, ch, pref)->Some_0.1)->Some_0;
    let stamped = NodeView {
        ideographic: Some(ch),
        stroke_seq: nv0.stroke_seq,
        glyph_hint: nv0.glyph_hint,
        subtree: nv0.subtree,
        glyph_variant: query_spec(t, ch, pref)->Some_0.0,
    };
    let child = first_child(nv0.subtree);
    lemma_notfound_root(
        t,
        child.ideographic->Some_0,
        extend_pref(pref, child.glyph_variant),
        (fuel - 1) as nat,
    );
    assert(extend_child_spec(t, child, pref, fuel) == Err::<NodeView, ErrorView>(
        ErrorView::NotFound(child.ideographic->Some_0),
    ));
    lemma_failure_propagation(
        t,
        stamped,
        pref,
        fuel,
        ErrorView::NotFound(child.ideographic->Some_0),
    );
}

/// Occurrences of `c` in `s` at or after `from`.
pub open spec fn count_from(s: Seq<char>, c: char, from: int) -> nat
    decreases s.len() - from,
{
    if from < 0 || from >= s.len() {
        0
    } else {
        (if s[from] == c {
            1nat
        } else {
            0nat
        }) + count_from(s, c, from + 1)
    }
}

/// Occurrences of `c` in `s`.
pub open spec fn count_ch(s: Seq<char>, c: char) -> nat {
    count_from(s, c, 0)
}

proof fn lemma_count_shift(a: Seq<char>, b: Seq<char>, c: char, j: int)
    requires
        0 <= j <= b.len(),
    ensures
        count_from(a + b, c, a.len() + j) == count_from(b, c, j),
    decreases b.len() - j,
{
    if j < b.len() {
        assert((a + b)[a.len() + j] == b[j]);
        lemma_count_shift(a, b, c, j + 1);
    }
}

proof fn lemma_count_split(a: Seq<char>, b: Seq<char>, c: char, k: int)
    requires
        0 <= k <= a.len(),
    ensures
        count_from(a + b, c, k) == count_from(a, c, k) + count_from(b, c, 0),
    decreases a.len() - k,
{
    if k < a.len() {
        assert((a + b)[k] == a[k]);
        lemma_count_split(a, b, c, k + 1);
    } else {
        lemma_count_shift(a, b, c, 0);
    }
}

/// Counting distributes over concatenation.
pub broadcast proof fn lemma_count_concat(a: Seq<char>, b: Seq<char>, c: char)
    ensures
        #[trigger] count_ch(a + b, c) == count_ch(a, c) + count_ch(b, c),
{
    lemma_count_split(a, b, c, 0);
}

/// The number of nodes of a tree.
pub open spec fn node_count(n: NodeView) -> nat
    decreases n,
{
    1 + match n.subtree {
        ExprView::Unary { arg1, .. } => node_count(*arg1),
        ExprView::Bin { arg1, arg2, .. } => node_count(*arg1) + node_count(*arg2),
        ExprView::Ter { arg1, arg2, arg3, .. } => node_count(*arg1) + node_count(*arg2)
            + node_count(*arg3),
        ExprView::Null => 0,
    }
}

/// No text field of the tree holds a line break.
pub open spec fn text_wf(n: NodeView) -> bool
    decreases n,
{
    count_ch(n.glyph_hint, '\n') == 0 && count_ch(n.glyph_variant, '\n') == 0 && (match n
        .stroke_seq {
        Some(st) => count_ch(st, '\n') == 0,
        None => true,
    }) && (match n.ideographic {
        Some(c) => c != '\n',
        None => true,
    }) && match n.subtree {
        ExprView::Unary { op, arg1 } => op != '\n' && text_wf(*arg1),
        ExprView::Bin { op, arg1, arg2, op_arg } => op != '\n' && (match op_arg {
            Some(a) => count_ch(a, '\n') == 0,
            None => true,
        }) && text_wf(*arg1) && text_wf(*arg2),
        ExprView::Ter { op, arg1, arg2, arg3 } => op != '\n' && text_wf(*arg1) && text_wf(*arg2)
            && text_wf(*arg3),
        ExprView::Null => true,
    }
}

/// The diagnostic render of one node is a single line.
proof fn lemma_line_single(n: NodeView, pad: Seq<char>)
    requires
        text_wf(n),
        count_ch(pad, '\n') == 0,
    ensures
        count_ch(tree_line(n, pad), '\n') == 1,
{
    broadcast use lemma_count_concat;

    reveal_with_fuel(count_from, 10);
    assert(count_ch(seq!['*', ' '], '\n') == 0);
    assert(count_ch(seq!['\t'], '\n') == 0);
    assert(count_ch(seq!['\n'], '\n') == 1);
    match n.subtree {
        ExprView::Unary { op, .. } => {
            assert(count_ch(seq![op], '\n') == 0);
        },
        ExprView::Bin { op, op_arg, .. } => {
            match op_arg {
                Some(a) => {
                    assert(count_ch(seq![op, '['], '\n') == 0);
                    assert(count_ch(seq![']'], '\n') == 0);
                },
                None => {
                    assert(count_ch(seq![op], '\n') == 0);
                },
            }
        },
        ExprView::Ter { op, .. } => {
            assert(count_ch(seq![op], '\n') == 0);
        },
        ExprView::Null => {
            assert(count_ch(Seq::<char>::empty(), '\n') == 0);
        },
    }
    match n.ideographic {
        Some(c) => {
            if n.glyph_variant.len() != 0 {
                assert(count_ch(seq![c, '('], '\n') == 0);
                assert(count_ch(seq![')', ' '], '\n') == 0);
            } else {
                assert(count_ch(seq![c, ' '], '\n') == 0);
            }
        },
        None => {},
    }
    match n.stroke_seq {
        Some(st) => {
            assert(count_ch(seq![' '], '\n') == 0);
        },
        None => {},
    }
    if n.glyph_hint.len() > 0 {
        assert(count_ch(seq!['H', 'i', 'n', 't', ':', ' ', '{'], '\n') == 0);
        assert(count_ch(seq!['}'], '\n') == 0);
    }
}

/// The diagnostic render has exactly one line per node: the operator arity
/// shows as one, two or three child lines, and nothing else adds a line.
#[verifier::rlimit(100)]
pub proof fn lemma_render_line_count(n: NodeView, pad: Seq<char>)
    requires
        text_wf(n),
        count_ch(pad, '\n') == 0,
    ensures
        count_ch(tree_text(n, pad), '\n') == node_count(n),
    decreases n,
{
    broadcast use lemma_count_concat;

    lemma_line_single(n, pad);
    reveal_with_fuel(count_from, 6);
    assert(count_ch(crate::node::indent_unit(), '\n') == 0);
    let pad2 = pad + crate::node::indent_unit();
    match n.subtree {
        ExprView::Unary { arg1, .. } => {
            lemma_render_line_count(*arg1, pad2);
        },
        ExprView::Bin { arg1, arg2, .. } => {
            lemma_render_line_count(*arg1, pad2);
            lemma_render_line_count(*arg2, pad2);
        },
        ExprView::Ter { arg1, arg2, arg3, .. } => {
            lemma_render_line_count(*arg1, pad2);
            lemma_render_line_count(*arg2, pad2);
            lemma_render_line_count(*arg3, pad2);
        },
        ExprView::Null => {
            assert(count_ch(Seq::<char>::empty(), '\n') == 0);
        },
    }
}

} // verus!
