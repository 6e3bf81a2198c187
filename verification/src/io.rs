//! The variant table and the text records it is loaded from.
//!
//! The table maps a character to its (variant tag, raw description) pairs,
//! with tags unique per character (last write wins).  `query` implements the
//! resolution rule: a single pair wins outright; otherwise the preference
//! list is scanned in order; otherwise the default (empty-tag) pair, or the
//! first pair, is a *soft fallback*, reported through the returned flag.
//!
//! Records come as tab-separated lines: the character, then its description
//! strings separated by `;`, each optionally ending in a parenthesised
//! comma-separated list of variant tags.  Reading the files themselves is
//! the caller's concern: `load` takes the lines.

use vstd::prelude::*;
use vstd::string::StrSliceExecFns;
use vstd::string::StringExecFns;

use crate::parser::find_char;

verus! {

/// One (variant tag, raw description string) pair of a table entry.
pub struct VariantPair {
    pub tag: String,
    pub raw: String,
}

/// All pairs recorded for one character.
pub struct TableEntry {
    pub ch: char,
    pub pairs: Vec<VariantPair>,
}

/// The variant table: one entry per character.
pub struct VariantTable {
    pub entries: Vec<TableEntry>,
}

#[verifier::ext_equal]
pub struct PairView {
    pub tag: Seq<char>,
    pub raw: Seq<char>,
}

#[verifier::ext_equal]
pub struct EntryView {
    pub ch: char,
    pub pairs: Seq<PairView>,
}

pub open spec fn pair_view(p: VariantPair) -> PairView {
    PairView { tag: p.tag@, raw: p.raw@ }
}

pub open spec fn entry_view(e: TableEntry) -> EntryView {
    EntryView { ch: e.ch, pairs: Seq::new(e.pairs@.len(), |i: int| pair_view(e.pairs@[i])) }
}

impl View for VariantTable {
    type V = Seq<EntryView>;

    open spec fn view(&self) -> Seq<EntryView> {
        Seq::new(self.entries@.len(), |i: int| entry_view(self.entries@[i]))
    }
}

/// Index of the first entry for `ch` at or after `from`.
pub open spec fn find_entry(t: Seq<EntryView>, ch: char, from: int) -> Option<int>
    decreases t.len() - from,
{
    if from < 0 || from >= t.len() {
        None
    } else if t[from].ch == ch {
        Some(from)
    } else {
        find_entry(t, ch, from + 1)
    }
}

/// Index of the first pair with `tag` at or after `from`.
pub open spec fn find_tag(pairs: Seq<PairView>, tag: Seq<char>, from: int) -> Option<int>
    decreases pairs.len() - from,
{
    if from < 0 || from >= pairs.len() {
        None
    } else if pairs[from].tag == tag {
        Some(from)
    } else {
        find_tag(pairs, tag, from + 1)
    }
}

/// The first pair whose tag matches a preference entry, scanning the
/// preference list in order from `from`.
pub open spec fn resolve_pref(pairs: Seq<PairView>, pref: Seq<Seq<char>>, from: int) -> Option<
    int,
>
    decreases pref.len() - from,
{
    if from < 0 || from >= pref.len() {
        None
    } else {
        match find_tag(pairs, pref[from], 0) {
            Some(i) => Some(i),
            None => resolve_pref(pairs, pref, from + 1),
        }
    }
}

/// The resolution rule: the index of the chosen pair and whether the choice
/// was a soft fallback.  A single pair wins regardless of the preference
/// list; otherwise the first preference hit wins; otherwise the default
/// (empty-tag) pair, or failing that the first pair, is a soft fallback.
pub open spec fn resolve_spec(pairs: Seq<PairView>, pref: Seq<Seq<char>>) -> Option<(int, bool)> {
    if pairs.len() == 0 {
        None
    } else if pairs.len() == 1 {
        Some((0, false))
    } else {
        match resolve_pref(pairs, pref, 0) {
            Some(i) => Some((i, false)),
            None => match find_tag(pairs, Seq::empty(), 0) {
                Some(i) => Some((i, true)),
                None => Some((0, true)),
            },
        }
    }
}

pub open spec fn lookup_pairs(t: Seq<EntryView>, ch: char) -> Option<Seq<PairView>> {
    match find_entry(t, ch, 0) {
        Some(i) => Some(t[i].pairs),
        None => None,
    }
}

/// What `query` returns: the chosen tag, its raw description string, and
/// whether the choice was a soft fallback.
pub open spec fn query_spec(t: Seq<EntryView>, ch: char, pref: Seq<Seq<char>>) -> Option<
    (Seq<char>, Seq<char>, bool),
> {
    match lookup_pairs(t, ch) {
        Some(pairs) => match resolve_spec(pairs, pref) {
            Some((i, soft)) => Some((pairs[i].tag, pairs[i].raw, soft)),
            None => None,
        },
        None => None,
    }
}

pub proof fn lemma_find_entry(t: Seq<EntryView>, ch: char, from: int)
    ensures
        match find_entry(t, ch, from) {
            Some(i) => from <= i < t.len() && t[i].ch == ch,
            None => true,
        },
    decreases t.len() - from,
{
    if 0 <= from < t.len() && t[from].ch != ch {
        lemma_find_entry(t, ch, from + 1);
    }
}

pub proof fn lemma_find_tag(pairs: Seq<PairView>, tag: Seq<char>, from: int)
    ensures
        match find_tag(pairs, tag, from) {
            Some(i) => from <= i < pairs.len() && pairs[i].tag == tag,
            None => true,
        },
    decreases pairs.len() - from,
{
    if 0 <= from < pairs.len() && pairs[from].tag != tag {
        lemma_find_tag(pairs, tag, from + 1);
    }
}

/// First entry for `ch`, as a position in `entries`.
fn find_entry_pos(entries: &Vec<TableEntry>, ch: char) -> (r: Option<usize>)
    ensures
        match r {
            Some(i) => find_entry(
                Seq::new(entries@.len(), |k: int| entry_view(entries@[k])),
                ch,
                0,
            ) == Some(i as int) && i < entries@.len(),
            None => find_entry(
                Seq::new(entries@.len(), |k: int| entry_view(entries@[k])),
                ch,
                0,
            ) is None,
        },
{
    let ghost t = Seq::new(entries@.len(), |k: int| entry_view(entries@[k]));
    let mut i: usize = 0;
    while i < entries.len()
        invariant
            i <= entries@.len(),
            t == Seq::new(entries@.len(), |k: int| entry_view(entries@[k])),
            find_entry(t, ch, 0) == find_entry(t, ch, i as int),
        decreases entries@.len() - i,
    {
        if entries[i].ch == ch {
            return Some(i);
        }
        i = i + 1;
    }
    None
}

/// First pair with `tag`, as a position in `pairs`.
fn find_tag_pos(pairs: &Vec<VariantPair>, tag: &String) -> (r: Option<usize>)
    ensures
        match r {
            Some(j) => find_tag(
                Seq::new(pairs@.len(), |k: int| pair_view(pairs@[k])),
                tag@,
                0,
            ) == Some(j as int) && j < pairs@.len(),
            None => find_tag(Seq::new(pairs@.len(), |k: int| pair_view(pairs@[k])), tag@, 0)
                is None,
        },
{
    let ghost ps = Seq::new(pairs@.len(), |k: int| pair_view(pairs@[k]));
    let mut j: usize = 0;
    while j < pairs.len()
        invariant
            j <= pairs@.len(),
            ps == Seq::new(pairs@.len(), |k: int| pair_view(pairs@[k])),
            find_tag(ps, tag@, 0) == find_tag(ps, tag@, j as int),
        decreases pairs@.len() - j,
    {
        if pairs[j].tag.eq(tag) {
            return Some(j);
        }
        j = j + 1;
    }
    None
}

/// Query the table for `ch` under the given variant preference list.
///
/// Returns the chosen variant tag, its raw description string, and whether
/// the choice was a soft fallback (no preferred tag matched although more
/// than one pair was available); `None` when the table has no entry for
/// `ch` or the entry holds no pair.
#[verifier::loop_isolation(false)]
pub fn query(table: &VariantTable, ch: char, variant: &Vec<String>) -> (r: Option<
    (String, String, bool),
>)
    ensures
        match r {
            Some(ans) => query_spec(table@, ch, variant.deep_view()) == Some(
                (ans.0@, ans.1@, ans.2),
            ),
            None => query_spec(table@, ch, variant.deep_view()) is None,
        },
{
    let ghost t = table@;
    let ghost pref = variant.deep_view();
    match find_entry_pos(&table.entries, ch) {
        Some(i) => {
            let entry = &table.entries[i];
            let ghost pairs = t[i as int].pairs;
            proof {
                assert(entry_view(table.entries@[i as int]).pairs == pairs);
            }
            if entry.pairs.len() == 0 {
                return None;
            }
            if entry.pairs.len() == 1 {
                let p = &entry.pairs[0];
                return Some((p.tag.clone(), p.raw.clone(), false));
            }
            let mut k: usize = 0;
            while k < variant.len()
                invariant
                    k <= variant@.len(),
                    pref == variant.deep_view(),
                    pairs == Seq::new(entry.pairs@.len(), |m: int| pair_view(entry.pairs@[m])),
                    entry == &table.entries[i as int],
                    i < table.entries@.len(),
                    resolve_pref(pairs, pref, 0) == resolve_pref(pairs, pref, k as int),
                decreases variant@.len() - k,
            {
                proof {
                    assert(pref[k as int] == variant@[k as int]@);
                }
                match find_tag_pos(&entry.pairs, &variant[k]) {
                    Some(j) => {
                        proof {
                            lemma_find_tag(pairs, pref[k as int], 0);
                            assert(resolve_pref(pairs, pref, k as int) == Some(j as int));
                            assert(resolve_spec(pairs, pref) == Some((j as int, false)));
                            assert(query_spec(t, ch, pref) == Some(
                                (pairs[j as int].tag, pairs[j as int].raw, false),
                            ));
                            assert(pair_view(entry.pairs@[j as int]) == pairs[j as int]);
                        }
                        let p = &entry.pairs[j];
                        return Some((p.tag.clone(), p.raw.clone(), false));
                    },
                    None => {},
                }
                k = k + 1;
            }
            let empty_tag = String::new();
            match find_tag_pos(&entry.pairs, &empty_tag) {
                Some(j) => {
                    proof {
                        assert(empty_tag@ =~= Seq::<char>::empty());
                        lemma_find_tag(pairs, Seq::empty(), 0);
                    }
                    let p = &entry.pairs[j];
                    Some((p.tag.clone(), p.raw.clone(), true))
                },
                None => {
                    proof {
                        assert(empty_tag@ =~= Seq::<char>::empty());
                    }
                    let p = &entry.pairs[0];
                    Some((p.tag.clone(), p.raw.clone(), true))
                },
            }
        },
        None => None,
    }
}


/// Tags unique per character after replacing or appending one pair.
pub open spec fn upsert_pair(pairs: Seq<PairView>, tag: Seq<char>, raw: Seq<char>) -> Seq<
    PairView,
> {
    match find_tag(pairs, tag, 0) {
        Some(j) => pairs.update(j, PairView { tag, raw }),
        None => pairs.push(PairView { tag, raw }),
    }
}

/// Record one (tag, raw) pair for `ch`, with last write winning on a tag
/// collision.
pub open spec fn table_insert(
    t: Seq<EntryView>,
    ch: char,
    tag: Seq<char>,
    raw: Seq<char>,
) -> Seq<EntryView> {
    match find_entry(t, ch, 0) {
        Some(i) => t.update(
            i,
            EntryView { ch, pairs: upsert_pair(t[i].pairs, tag, raw) },
        ),
        None => t.push(EntryView { ch, pairs: seq![PairView { tag, raw }] }),
    }
}

impl VariantTable {
    /// The empty table.
    pub fn new() -> (r: VariantTable)
        ensures
            r@ =~= Seq::<EntryView>::empty(),
    {
        VariantTable { entries: Vec::new() }
    }

    /// Record one (tag, raw) pair for `ch`; a later write to the same tag
    /// replaces the earlier one.
    pub fn insert(&mut self, ch: char, tag: String, raw: String)
        ensures
            final(self)@ == table_insert(old(self)@, ch, tag@, raw@),
    {
        let ghost t0 = self@;
        let ghost tagv = tag@;
        let ghost rawv = raw@;
        let pair = VariantPair { tag, raw };
        match find_entry_pos(&self.entries, ch) {
            Some(i) => {
                let ghost old_entry = entry_view(self.entries@[i as int]);
                proof {
                    lemma_find_entry(t0, ch, 0);
                    lemma_find_tag(old_entry.pairs, tagv, 0);
                }
                match find_tag_pos(&self.entries[i].pairs, &pair.tag) {
                    Some(j) => {
                        self.entries[i].pairs[j] = pair;
                        proof {
                            assert(Seq::new(
                                self.entries@[i as int].pairs@.len(),
                                |m: int| pair_view(self.entries@[i as int].pairs@[m]),
                            ) =~= upsert_pair(old_entry.pairs, tagv, rawv));
                        }
                    },
                    None => {
                        self.entries[i].pairs.push(pair);
                        proof {
                            assert(Seq::new(
                                self.entries@[i as int].pairs@.len(),
                                |m: int| pair_view(self.entries@[i as int].pairs@[m]),
                            ) =~= upsert_pair(old_entry.pairs, tagv, rawv));
                        }
                    },
                }
                proof {
                    assert(self@ =~~= table_insert(t0, ch, tagv, rawv));
                }
            },
            None => {
                let mut pv: Vec<VariantPair> = Vec::new();
                pv.push(pair);
                self.entries.push(TableEntry { ch, pairs: pv });
                proof {
                    assert(self@ =~~= table_insert(t0, ch, tagv, rawv));
                }
            },
        }
    }
}

/// Index of the last occurrence of `c` in `s`.
pub open spec fn rfind_char(s: Seq<char>, c: char) -> Option<int>
    decreases s.len(),
{
    if s.len() == 0 {
        None
    } else if s[s.len() - 1] == c {
        Some(s.len() - 1)
    } else {
        rfind_char(s.drop_last(), c)
    }
}

/// The pieces of `s` between occurrences of the separator `c`; at least one
/// piece, and empty pieces are kept.
pub open spec fn split_on(s: Seq<char>, c: char) -> Seq<Seq<char>>
    decreases s.len(),
{
    match find_char(s, 0, c) {
        Some(k) => if 0 <= k < s.len() {
            seq![s.subrange(0, k)] + split_on(s.subrange(k + 1, s.len() as int), c)
        } else {
            seq![s]
        },
        None => seq![s],
    }
}

/// Last occurrence of `c`, as a position in `s`.
fn rfind_pos(s: &str, len: usize, c: char) -> (r: Option<usize>)
    requires
        len == s@.len(),
    ensures
        match r {
            Some(p) => rfind_char(s@, c) == Some(p as int) && p < len && s@[p as int] == c,
            None => rfind_char(s@, c) is None,
        },
{
    proof {
        assert(s@.subrange(0, s@.len() as int) =~= s@);
    }
    let mut j: usize = len;
    while j > 0
        invariant
            j <= len,
            len == s@.len(),
            rfind_char(s@, c) == rfind_char(s@.subrange(0, j as int), c),
        decreases j,
    {
        let cj = s.get_char(j - 1);
        proof {
            assert(s@.subrange(0, j as int).last() == s@[j - 1]);
        }
        if cj == c {
            proof {
                assert(rfind_char(s@.subrange(0, j as int), c) == Some(j - 1));
            }
            return Some(j - 1);
        }
        proof {
            assert(s@.subrange(0, j as int).drop_last() =~= s@.subrange(0, j - 1));
        }
        j = j - 1;
    }
    proof {
        assert(s@.subrange(0, 0) =~= Seq::<char>::empty());
    }
    None
}

/// Split `s` at every occurrence of the separator `c`.
pub fn split_string(s: &str, c: char) -> (r: Vec<String>)
    ensures
        r.deep_view() == split_on(s@, c),
    decreases s@.len(),
{
    let len = s.unicode_len();
    match crate::parser::find_from(s, len, 0, c) {
        Some(k) => {
            let head = crate::parser::copy_range(s, len, 0, k);
            let rest = s.substring_char(k + 1, len);
            let tail = split_string(rest, c);
            let mut out: Vec<String> = Vec::new();
            out.push(head);
            let mut t = tail;
            out.append(&mut t);
            proof {
                assert(out.deep_view() =~= split_on(s@, c));
            }
            out
        },
        None => {
            let piece = crate::parser::copy_range(s, len, 0, len);
            let mut out: Vec<String> = Vec::new();
            out.push(piece);
            proof {
                assert(s@.subrange(0, len as int) =~= s@);
                assert(out.deep_view() =~= split_on(s@, c));
            }
            out
        },
    }
}

/// The (tag, raw) pairs one description segment records: a trailing
/// parenthesised comma-separated tag list applies each tag to the part
/// before the parenthesis; otherwise the whole segment under the empty tag.
/// A parenthesis preceded by `#` is data, not a tag list.
pub open spec fn split_var_spec(s: Seq<char>) -> Seq<(Seq<char>, Seq<char>)> {
    if s.len() > 0 && s[s.len() - 1] == ')' {
        match rfind_char(s, '(') {
            Some(p) => if !(0 <= p < s.len() - 1) {
                seq![(Seq::<char>::empty(), s)]
            } else if p > 0 && s[p - 1] == '#' {
                seq![(Seq::<char>::empty(), s)]
            } else {
                split_on(s.subrange(p + 1, s.len() - 1), ',').map_values(
                    |t: Seq<char>| (t, s.subrange(0, p)),
                )
            },
            None => seq![(Seq::<char>::empty(), s)],
        }
    } else {
        seq![(Seq::<char>::empty(), s)]
    }
}

/// The view of a list of owned (tag, raw) pairs.
pub open spec fn pairs_view(v: Seq<(String, String)>) -> Seq<(Seq<char>, Seq<char>)> {
    Seq::new(v.len(), |i: int| (v[i].0@, v[i].1@))
}

/// The (tag, raw) pairs of one description segment.
#[verifier::loop_isolation(false)]
pub fn ids_split_var(s: &str) -> (r: Vec<(String, String)>)
    ensures
        pairs_view(r@) == split_var_spec(s@),
{
    let len = s.unicode_len();
    let mut out: Vec<(String, String)> = Vec::new();
    if len > 0 && s.get_char(len - 1) == ')' {
        if let Some(p) = rfind_pos(s, len, '(') {
            if p < len - 1 && !(p > 0 && s.get_char(p - 1) == '#') {
                let base = crate::parser::copy_range(s, len, 0, p);
                let inner = s.substring_char(p + 1, len - 1);
                let tags = split_string(inner, ',');
                let ghost tagviews = split_on(s@.subrange(p + 1, s@.len() - 1), ',');
                let mut k: usize = 0;
                while k < tags.len()
                    invariant
                        k <= tags@.len(),
                        tags.deep_view() == tagviews,
                        base@ == s@.subrange(0, p as int),
                        out@.len() == k,
                        forall|m: int|
                            0 <= m < k ==> out@[m].0@ == tagviews[m] && out@[m].1@ == s@.subrange(
                                0,
                                p as int,
                            ),
                    decreases tags@.len() - k,
                {
                    out.push((tags[k].clone(), base.clone()));
                    k = k + 1;
                }
                proof {
                    let target = split_var_spec(s@);
                    assert(pairs_view(out@).len() == target.len());
                    assert forall|m: int| 0 <= m < target.len() implies pairs_view(out@)[m]
                        == target[m] by {
                        assert(out@[m].0@ == tagviews[m]);
                        assert(target[m] == (tagviews[m], s@.subrange(0, p as int)));
                    }
                    assert(pairs_view(out@) =~= target);
                }
                return out;
            }
        }
    }
    let whole = crate::parser::copy_range(s, len, 0, len);
    let mut empty_tag = String::new();
    out.push((empty_tag, whole));
    proof {
        assert(s@.subrange(0, len as int) =~= s@);
        assert(pairs_view(out@) =~~= split_var_spec(s@));
    }
    out
}

/// No tag occurs twice among the pairs of one entry.
pub open spec fn entry_wf(e: EntryView) -> bool {
    forall|i: int, j: int|
        0 <= i < j < e.pairs.len() ==> #[trigger] e.pairs[i].tag != #[trigger] e.pairs[j].tag
}

/// No character owns two entries, and each entry keeps its tags unique.
pub open spec fn table_wf(t: Seq<EntryView>) -> bool {
    (forall|i: int, j: int| 0 <= i < j < t.len() ==> #[trigger] t[i].ch != #[trigger] t[j].ch)
        && (forall|i: int| 0 <= i < t.len() ==> entry_wf(#[trigger] t[i]))
}

/// When `find_tag` finds nothing, no pair from `from` on has the tag.
pub proof fn lemma_find_tag_none(pairs: Seq<PairView>, tag: Seq<char>, from: int)
    requires
        0 <= from,
        find_tag(pairs, tag, from) is None,
    ensures
        forall|m: int| from <= m < pairs.len() ==> (#[trigger] pairs[m]).tag != tag,
    decreases pairs.len() - from,
{
    if 0 <= from < pairs.len() {
        lemma_find_tag_none(pairs, tag, from + 1);
    }
}

/// When `find_entry` finds nothing, no entry from `from` on has the character.
pub proof fn lemma_find_entry_none(t: Seq<EntryView>, ch: char, from: int)
    requires
        0 <= from,
        find_entry(t, ch, from) is None,
    ensures
        forall|m: int| from <= m < t.len() ==> (#[trigger] t[m]).ch != ch,
    decreases t.len() - from,
{
    if 0 <= from < t.len() {
        lemma_find_entry_none(t, ch, from + 1);
    }
}

/// Recording a pair keeps the table well-formed: characters stay unique and
/// tags stay unique per character, the last write winning.
pub proof fn lemma_insert_wf(t: Seq<EntryView>, ch: char, tag: Seq<char>, raw: Seq<char>)
    requires
        table_wf(t),
    ensures
        table_wf(table_insert(t, ch, tag, raw)),
{
    let t2 = table_insert(t, ch, tag, raw);
    lemma_find_entry(t, ch, 0);
    match find_entry(t, ch, 0) {
        Some(i) => {
            let e = t[i];
            let ps = upsert_pair(e.pairs, tag, raw);
            lemma_find_tag(e.pairs, tag, 0);
            match find_tag(e.pairs, tag, 0) {
                Some(j) => {
                    assert forall|i2: int, j2: int| 0 <= i2 < j2 < ps.len() implies (
                    #[trigger] ps[i2]).tag != (#[trigger] ps[j2]).tag by {
                        assert(e.pairs[i2].tag != e.pairs[j2].tag);
                    }
                },
                None => {
                    lemma_find_tag_none(e.pairs, tag, 0);
                    assert forall|i2: int, j2: int| 0 <= i2 < j2 < ps.len() implies (
                    #[trigger] ps[i2]).tag != (#[trigger] ps[j2]).tag by {
                        if j2 < ps.len() - 1 {
                            assert(e.pairs[i2].tag != e.pairs[j2].tag);
                        }
                    }
                },
            }
            assert(entry_wf(EntryView { ch, pairs: ps }));
            assert forall|i2: int, j2: int| 0 <= i2 < j2 < t2.len() implies (
            #[trigger] t2[i2]).ch != (#[trigger] t2[j2]).ch by {
                assert(t[i2].ch != t[j2].ch);
            }
            assert forall|i2: int| 0 <= i2 < t2.len() implies entry_wf(#[trigger] t2[i2]) by {
                if i2 != i {
                    assert(t2[i2] == t[i2]);
                }
            }
        },
        None => {
            lemma_find_entry_none(t, ch, 0);
            assert(entry_wf(EntryView { ch, pairs: seq![PairView { tag, raw }] }));
            assert forall|i2: int| 0 <= i2 < t2.len() implies entry_wf(#[trigger] t2[i2]) by {
                if i2 < t2.len() - 1 {
                    assert(t2[i2] == t[i2]);
                }
            }
        },
    }
}

/// All (tag, raw) pairs of the description segments from `from` on.
pub open spec fn flat_pairs(segs: Seq<Seq<char>>, from: int) -> Seq<(Seq<char>, Seq<char>)>
    decreases segs.len() - from,
{
    if from < 0 || from >= segs.len() {
        Seq::empty()
    } else {
        split_var_spec(segs[from]) + flat_pairs(segs, from + 1)
    }
}

/// What one record line contributes: the character of its first
/// tab-separated field and the (tag, raw) pairs of its second.  Comment
/// lines (leading `*`), lines with fewer than two fields, and lines whose
/// first field is not a single character contribute nothing.
pub open spec fn parse_line_spec(ln: Seq<char>) -> Option<(char, Seq<(Seq<char>, Seq<char>)>)> {
    if ln.len() > 0 && ln[0] == '*' {
        None
    } else {
        let fields = split_on(ln, '\t');
        if fields.len() < 2 {
            None
        } else if fields[0].len() != 1 {
            None
        } else {
            Some((fields[0][0], flat_pairs(split_on(fields[1], ';'), 0)))
        }
    }
}

/// Parse one record line into its character and (tag, raw) pairs.
#[verifier::loop_isolation(false)]
pub fn parse_ids_line(ln: &str) -> (r: Option<(char, Vec<(String, String)>)>)
    ensures
        match r {
            Some(p) => parse_line_spec(ln@) == Some((p.0, pairs_view(p.1@))),
            None => parse_line_spec(ln@) is None,
        },
{
    let len = ln.unicode_len();
    if len > 0 && ln.get_char(0) == '*' {
        return None;
    }
    let fields = split_string(ln, '\t');
    if fields.len() < 2 {
        return None;
    }
    proof {
        assert(fields.deep_view()[0] == fields@[0]@);
        assert(fields.deep_view()[1] == fields@[1]@);
    }
    let f0 = &fields[0];
    if f0.as_str().unicode_len() != 1 {
        return None;
    }
    let ch = f0.as_str().get_char(0);
    let segs = split_string(fields[1].as_str(), ';');
    let ghost segviews = split_on(fields.deep_view()[1], ';');
    let mut pairs: Vec<(String, String)> = Vec::new();
    let mut k: usize = 0;
    while k < segs.len()
        invariant
            k <= segs@.len(),
            pairs_view(pairs@) + flat_pairs(segviews, k as int) == flat_pairs(segviews, 0),
        decreases segs@.len() - k,
    {
        let ghost prev = pairs@;
        let mut sv = ids_split_var(segs[k].as_str());
        let ghost svv = sv@;
        proof {
            assert(segs.deep_view()[k as int] == segs@[k as int]@);
        }
        pairs.append(&mut sv);
        proof {
            assert(pairs_view(pairs@) =~= pairs_view(prev) + pairs_view(svv));
            assert(pairs_view(pairs@) + flat_pairs(segviews, k + 1) =~= flat_pairs(segviews, 0));
        }
        k = k + 1;
    }
    proof {
        assert(pairs_view(pairs@) + flat_pairs(segviews, segviews.len() as int) =~= pairs_view(
            pairs@,
        ));
    }
    Some((ch, pairs))
}

/// The table after recording the pairs of `ps` from `from` on, in order.
pub open spec fn add_pairs_spec(
    t: Seq<EntryView>,
    ch: char,
    ps: Seq<(Seq<char>, Seq<char>)>,
    from: int,
) -> Seq<EntryView>
    decreases ps.len() - from,
{
    if from < 0 || from >= ps.len() {
        t
    } else {
        add_pairs_spec(table_insert(t, ch, ps[from].0, ps[from].1), ch, ps, from + 1)
    }
}

/// The table after one record line.
pub open spec fn add_line_spec(t: Seq<EntryView>, ln: Seq<char>) -> Seq<EntryView> {
    match parse_line_spec(ln) {
        Some(p) => add_pairs_spec(t, p.0, p.1, 0),
        None => t,
    }
}

/// The table after the lines from `from` on, in order.
pub open spec fn load_from(t: Seq<EntryView>, lines: Seq<Seq<char>>, from: int) -> Seq<EntryView>
    decreases lines.len() - from,
{
    if from < 0 || from >= lines.len() {
        t
    } else {
        load_from(add_line_spec(t, lines[from]), lines, from + 1)
    }
}

/// The table that a list of record lines describes.
pub open spec fn load_spec(lines: Seq<Seq<char>>) -> Seq<EntryView> {
    load_from(Seq::empty(), lines, 0)
}

pub proof fn lemma_add_pairs_wf(
    t: Seq<EntryView>,
    ch: char,
    ps: Seq<(Seq<char>, Seq<char>)>,
    from: int,
)
    requires
        table_wf(t),
    ensures
        table_wf(add_pairs_spec(t, ch, ps, from)),
    decreases ps.len() - from,
{
    if 0 <= from < ps.len() {
        lemma_insert_wf(t, ch, ps[from].0, ps[from].1);
        lemma_add_pairs_wf(table_insert(t, ch, ps[from].0, ps[from].1), ch, ps, from + 1);
    }
}

pub proof fn lemma_load_from_wf(t: Seq<EntryView>, lines: Seq<Seq<char>>, from: int)
    requires
        table_wf(t),
    ensures
        table_wf(load_from(t, lines, from)),
    decreases lines.len() - from,
{
    if 0 <= from < lines.len() {
        match parse_line_spec(lines[from]) {
            Some(p) => {
                lemma_add_pairs_wf(t, p.0, p.1, 0);
            },
            None => {},
        }
        lemma_load_from_wf(add_line_spec(t, lines[from]), lines, from + 1);
    }
}

/// Whatever the lines hold, the loaded table is well-formed: one entry per
/// character, tags unique per character.
pub proof fn lemma_load_wf(lines: Seq<Seq<char>>)
    ensures
        table_wf(load_spec(lines)),
{
    assert(table_wf(Seq::<EntryView>::empty()));
    lemma_load_from_wf(Seq::empty(), lines, 0);
}

impl VariantTable {
    /// Record one line of a description file.
    #[verifier::loop_isolation(false)]
    pub fn add_line(&mut self, ln: &str)
        ensures
            final(self)@ == add_line_spec(old(self)@, ln@),
    {
        let ghost t0 = self@;
        match parse_ids_line(ln) {
            Some((ch, pairs)) => {
                let ghost psv = pairs_view(pairs@);
                let mut k: usize = 0;
                while k < pairs.len()
                    invariant
                        k <= pairs@.len(),
                        add_pairs_spec(self@, ch, psv, k as int) == add_pairs_spec(t0, ch, psv, 0),
                    decreases pairs@.len() - k,
                {
                    let tag = pairs[k].0.clone();
                    let raw = pairs[k].1.clone();
                    self.insert(ch, tag, raw);
                    k = k + 1;
                }
            },
            None => {},
        }
    }
}

/// Build a table from record lines, later lines and pairs overriding
/// earlier ones with the same character and tag.
#[verifier::loop_isolation(false)]
pub fn load(lines: &Vec<String>) -> (r: VariantTable)
    ensures
        r@ == load_spec(lines.deep_view()),
{
    let ghost linesv = lines.deep_view();
    let mut t = VariantTable::new();
    proof {
        assert(t@ =~= Seq::<EntryView>::empty());
    }
    let mut k: usize = 0;
    while k < lines.len()
        invariant
            k <= lines@.len(),
            load_from(t@, linesv, k as int) == load_spec(linesv),
        decreases lines@.len() - k,
    {
        proof {
            assert(linesv[k as int] == lines@[k as int]@);
        }
        t.add_line(lines[k].as_str());
        k = k + 1;
    }
    t
}

/// The description files to read, in reading order.
pub struct IdsFileList {
    pub files: Vec<String>,
}

impl IdsFileList {
    /// The default list: one base file.
    pub fn new() -> (r: IdsFileList)
        ensures
            r.files@.len() == 1,
            r.files@[0]@ == "./ids/ids_lv0.txt"@,
    {
        let mut files: Vec<String> = Vec::new();
        files.push(String::from_str("./ids/ids_lv0.txt"));
        IdsFileList { files }
    }
}

/// Replace the list of description files.
pub fn set_ids_file_list(fl: &mut IdsFileList, v: Vec<String>)
    ensures
        final(fl).files == v,
{
    fl.files = v;
}

/// Append one description file to the list.
pub fn add_ids_file(fl: &mut IdsFileList, f: String)
    ensures
        final(fl).files@ == old(fl).files@.push(f),
{
    fl.files.push(f);
}

} // verus!
