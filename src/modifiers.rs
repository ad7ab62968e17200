//! Modifier combinations: the identity of one layer of a keyboard.
//!
//! A combination is written as modifier names separated by `+` or white space
//! (`shift+cmd`, `cmd shift`). Its canonical name holds each distinct name once,
//! lower-cased, in a fixed order: `cmd`, `ctrl`, `alt`, `caps`, `shift`, then
//! any other names in character order, joined by `+`. No names at all is the
//! combination `default`.
use vstd::prelude::*;
use crate::text::{chars_of, is_white_space, lower_of, lowercase, push_char, string_of, white_space};

verus! {

/// Characters that separate modifier names.
pub open spec fn is_modifier_separator(c: char) -> bool {
    c == '+' || white_space(c)
}

/// The names in `s[i..]`, given that `cur` has been read of the current one.
pub open spec fn split_from(s: Seq<char>, i: int, cur: Seq<char>) -> Seq<Seq<char>>
    decreases s.len() - i,
{
    if i < 0 || i >= s.len() {
        if cur.len() > 0 {
            seq![cur]
        } else {
            Seq::empty()
        }
    } else if is_modifier_separator(s[i]) {
        (if cur.len() > 0 {
            seq![cur]
        } else {
            Seq::empty()
        }) + split_from(s, i + 1, Seq::empty())
    } else {
        split_from(s, i + 1, cur.push(s[i]))
    }
}

/// The modifier names written in `s`: its maximal runs of non-separators.
pub open spec fn modifier_tokens(s: Seq<char>) -> Seq<Seq<char>> {
    split_from(s, 0, Seq::empty())
}

/// The set of lower-cased modifier names written in `s`.
pub open spec fn modifier_set(s: Seq<char>) -> Set<Seq<char>> {
    modifier_tokens(s).map_values(|t: Seq<char>| lower_of(t)).to_set()
}

/// Place of a modifier name in the fixed order; every unknown name shares the
/// last place.
pub open spec fn modifier_rank(t: Seq<char>) -> nat {
    if t == seq!['c', 'm', 'd'] {
        0
    } else if t == seq!['c', 't', 'r', 'l'] {
        1
    } else if t == seq!['a', 'l', 't'] {
        2
    } else if t == seq!['c', 'a', 'p', 's'] {
        3
    } else if t == seq!['s', 'h', 'i', 'f', 't'] {
        4
    } else {
        5
    }
}

/// Lexicographic order of character sequences.
pub open spec fn lex_less(a: Seq<char>, b: Seq<char>) -> bool
    decreases a.len(),
{
    if a.len() == 0 {
        b.len() > 0
    } else if b.len() == 0 {
        false
    } else if a[0] != b[0] {
        (a[0] as int) < (b[0] as int)
    } else {
        lex_less(a.drop_first(), b.drop_first())
    }
}

/// The order in which modifier names are listed.
pub open spec fn modifier_less(a: Seq<char>, b: Seq<char>) -> bool {
    modifier_rank(a) < modifier_rank(b) || (modifier_rank(a) == modifier_rank(b) && lex_less(a, b))
}

/// Strictly ascending in the modifier order: sorted, and without repeats.
pub open spec fn modifiers_ordered(ts: Seq<Seq<char>>) -> bool {
    forall|i: int, j: int| 0 <= i < j < ts.len() ==> modifier_less(#[trigger] ts[i], #[trigger] ts[j])
}

/// The names of a set, listed once each in the modifier order.
pub open spec fn ordered_listing(set: Set<Seq<char>>) -> Seq<Seq<char>> {
    choose|ts: Seq<Seq<char>>| modifiers_ordered(ts) && ts.to_set() == set
}

/// Names joined by `+`.
pub open spec fn join_plus(ts: Seq<Seq<char>>) -> Seq<char>
    decreases ts.len(),
{
    if ts.len() == 0 {
        Seq::empty()
    } else if ts.len() == 1 {
        ts[0]
    } else {
        join_plus(ts.drop_last()) + seq!['+'] + ts.last()
    }
}

pub open spec fn default_mode() -> Seq<char> {
    seq!['d', 'e', 'f', 'a', 'u', 'l', 't']
}

/// The canonical name of the modifier combination written in `raw`.
pub open spec fn mode_name_of(raw: Option<Seq<char>>) -> Seq<char> {
    match raw {
        None => default_mode(),
        Some(s) => if modifier_set(s).is_empty() {
            default_mode()
        } else {
            join_plus(ordered_listing(modifier_set(s)))
        },
    }
}

// ---------------------------------------------------------------------------
// The order is strict and total
// ---------------------------------------------------------------------------

proof fn lemma_lex_irreflexive(a: Seq<char>)
    ensures
        !lex_less(a, a),
    decreases a.len(),
{
    if a.len() > 0 {
        lemma_lex_irreflexive(a.drop_first());
    }
}

proof fn lemma_lex_transitive(a: Seq<char>, b: Seq<char>, c: Seq<char>)
    requires
        lex_less(a, b),
        lex_less(b, c),
    ensures
        lex_less(a, c),
    decreases a.len(),
{
    if a.len() > 0 && b.len() > 0 && c.len() > 0 && a[0] == b[0] && b[0] == c[0] {
        lemma_lex_transitive(a.drop_first(), b.drop_first(), c.drop_first());
    }
}

proof fn lemma_lex_total(a: Seq<char>, b: Seq<char>)
    requires
        a != b,
    ensures
        lex_less(a, b) || lex_less(b, a),
    decreases a.len(),
{
    if a.len() == 0 && b.len() == 0 {
        assert(a =~= b);
    } else if a.len() > 0 && b.len() > 0 && a[0] == b[0] {
        if a.drop_first() == b.drop_first() {
            assert(a =~= seq![a[0]] + a.drop_first());
            assert(b =~= seq![b[0]] + b.drop_first());
        } else {
            lemma_lex_total(a.drop_first(), b.drop_first());
        }
    }
}

proof fn lemma_modifier_order()
    ensures
        forall|a: Seq<char>| !modifier_less(a, a),
        forall|a: Seq<char>, b: Seq<char>, c: Seq<char>|
            #[trigger] modifier_less(a, b) && #[trigger] modifier_less(b, c) ==> modifier_less(a, c),
        forall|a: Seq<char>, b: Seq<char>|
            a != b ==> #[trigger] modifier_less(a, b) || modifier_less(b, a),
{
    assert forall|a: Seq<char>| !modifier_less(a, a) by {
        lemma_lex_irreflexive(a);
    }
    assert forall|a: Seq<char>, b: Seq<char>, c: Seq<char>|
        #[trigger] modifier_less(a, b) && #[trigger] modifier_less(b, c) implies modifier_less(a, c) by {
        if lex_less(a, b) && lex_less(b, c) {
            lemma_lex_transitive(a, b, c);
        }
    }
    assert forall|a: Seq<char>, b: Seq<char>| a != b implies #[trigger] modifier_less(a, b)
        || modifier_less(b, a) by {
        lemma_lex_total(a, b);
    }
}

/// Two strictly ascending listings of one set are the same listing.
proof fn lemma_listing_unique(xs: Seq<Seq<char>>, ys: Seq<Seq<char>>)
    requires
        modifiers_ordered(xs),
        modifiers_ordered(ys),
        xs.to_set() == ys.to_set(),
    ensures
        xs == ys,
    decreases xs.len(),
{
    lemma_modifier_order();
    if xs.len() == 0 {
        if ys.len() > 0 {
            assert(xs.to_set().contains(ys[0]));
        }
        assert(xs =~= ys);
    } else if ys.len() == 0 {
        assert(ys.to_set().contains(xs[0]));
    } else {
        // both heads are the least element of the set
        assert(ys.to_set().contains(xs[0]));
        assert(xs.to_set().contains(ys[0]));
        let i = choose|i: int| 0 <= i < ys.len() && ys[i] == xs[0];
        let j = choose|j: int| 0 <= j < xs.len() && xs[j] == ys[0];
        if xs[0] != ys[0] {
            assert(i > 0 && j > 0);
            assert(modifier_less(ys[0], ys[i]));
            assert(modifier_less(xs[0], xs[j]));
        }
        let xt = xs.drop_first();
        let yt = ys.drop_first();
        assert forall|t: Seq<char>| xt.to_set().contains(t) implies yt.to_set().contains(t) by {
            let a = choose|a: int| 0 <= a < xt.len() && xt[a] == t;
            assert(xs[a + 1] == t);
            assert(modifier_less(xs[0], xs[a + 1]));
            assert(ys.to_set().contains(t));
            let b = choose|b: int| 0 <= b < ys.len() && ys[b] == t;
            assert(b != 0);
            assert(yt[b - 1] == t);
        }
        assert forall|t: Seq<char>| yt.to_set().contains(t) implies xt.to_set().contains(t) by {
            let a = choose|a: int| 0 <= a < yt.len() && yt[a] == t;
            assert(ys[a + 1] == t);
            assert(modifier_less(ys[0], ys[a + 1]));
            assert(xs.to_set().contains(t));
            let b = choose|b: int| 0 <= b < xs.len() && xs[b] == t;
            assert(b != 0);
            assert(xt[b - 1] == t);
        }
        assert(xt.to_set() =~= yt.to_set());
        lemma_listing_unique(xt, yt);
        assert(xs =~= seq![xs[0]] + xt);
        assert(ys =~= seq![ys[0]] + yt);
    }
}


// ---------------------------------------------------------------------------
// Canonicalisation
// ---------------------------------------------------------------------------

/// The characters of each vector.
pub open spec fn views(ts: Seq<Vec<char>>) -> Seq<Seq<char>> {
    ts.map_values(|v: Vec<char>| v@)
}

/// Each name lower-cased.
pub open spec fn lowered(ts: Seq<Seq<char>>) -> Seq<Seq<char>> {
    ts.map_values(|t: Seq<char>| lower_of(t))
}

proof fn lemma_lowered_push(ts: Seq<Seq<char>>, t: Seq<char>)
    ensures
        lowered(ts.push(t)).to_set() == lowered(ts).to_set().insert(lower_of(t)),
{
    assert(lowered(ts.push(t)) =~= lowered(ts).push(lower_of(t)));
    lowered(ts).lemma_push_to_set_commute(lower_of(t));
}

fn equal_chars(a: &Vec<char>, b: &Vec<char>) -> (r: bool)
    ensures
        r == (a@ == b@),
{
    if a.len() != b.len() {
        return false;
    }
    let mut i: usize = 0;
    while i < a.len()
        invariant
            a@.len() == b@.len(),
            i <= a@.len(),
            forall|k: int| 0 <= k < i ==> a@[k] == b@[k],
        decreases a@.len() - i,
    {
        if a[i] != b[i] {
            return false;
        }
        i = i + 1;
    }
    assert(a@ =~= b@);
    true
}

fn lex_less_exec(a: &Vec<char>, b: &Vec<char>) -> (r: bool)
    ensures
        r == lex_less(a@, b@),
{
    let mut i: usize = 0;
    assert(a@.skip(0) =~= a@ && b@.skip(0) =~= b@);
    while i < a.len() && i < b.len() && a[i] == b[i]
        invariant
            i <= a@.len(),
            i <= b@.len(),
            lex_less(a@, b@) == lex_less(a@.skip(i as int), b@.skip(i as int)),
        decreases a@.len() - i,
    {
        assert(a@.skip(i as int).drop_first() =~= a@.skip(i + 1));
        assert(b@.skip(i as int).drop_first() =~= b@.skip(i + 1));
        i = i + 1;
    }
    let ghost sa = a@.skip(i as int);
    let ghost sb = b@.skip(i as int);
    assert(sa.len() == a@.len() - i && sb.len() == b@.len() - i);
    if i == a.len() {
        i < b.len()
    } else if i == b.len() {
        false
    } else {
        assert(sa[0] == a@[i as int] && sb[0] == b@[i as int]);
        a[i] < b[i]
    }
}

fn modifier_rank_exec(t: &Vec<char>) -> (r: u8)
    ensures
        r == modifier_rank(t@),
{
    let cmd = vec!['c', 'm', 'd'];
    let ctrl = vec!['c', 't', 'r', 'l'];
    let alt = vec!['a', 'l', 't'];
    let caps = vec!['c', 'a', 'p', 's'];
    let shift = vec!['s', 'h', 'i', 'f', 't'];
    if equal_chars(t, &cmd) {
        0
    } else if equal_chars(t, &ctrl) {
        1
    } else if equal_chars(t, &alt) {
        2
    } else if equal_chars(t, &caps) {
        3
    } else if equal_chars(t, &shift) {
        4
    } else {
        5
    }
}

fn modifier_less_exec(a: &Vec<char>, b: &Vec<char>) -> (r: bool)
    ensures
        r == modifier_less(a@, b@),
{
    let ra = modifier_rank_exec(a);
    let rb = modifier_rank_exec(b);
    ra < rb || (ra == rb && lex_less_exec(a, b))
}

/// Adds a name to an ascending list of names, unless it is there already.
fn insert_modifier(ts: &mut Vec<Vec<char>>, t: Vec<char>)
    requires
        modifiers_ordered(views(old(ts)@)),
    ensures
        modifiers_ordered(views(final(ts)@)),
        views(final(ts)@).to_set() == views(old(ts)@).to_set().insert(t@),
{
    proof {
        lemma_modifier_order();
    }
    let ghost before = views(ts@);
    let mut i: usize = 0;
    while i < ts.len() && modifier_less_exec(&ts[i], &t)
        invariant
            i <= ts@.len(),
            views(ts@) == before,
            modifiers_ordered(before),
            forall|k: int| 0 <= k < i ==> modifier_less(#[trigger] before[k], t@),
        decreases ts@.len() - i,
    {
        i = i + 1;
    }
    if i < ts.len() && equal_chars(&ts[i], &t) {
        assert(before.to_set().insert(t@) =~= before.to_set()) by {
            assert(before[i as int] == t@);
        }
        return;
    }
    if i < ts.len() {
        assert(modifier_less(t@, before[i as int]));
    }
    ts.insert(i, t);
    let ghost after = views(ts@);
    assert(after =~= before.insert(i as int, t@));
    assert forall|a: int, b: int| 0 <= a < b < after.len() implies modifier_less(
        #[trigger] after[a],
        #[trigger] after[b],
    ) by {
        if b < i {
        } else if a < i && b == i {
        } else if a < i {
            assert(after[b] == before[b - 1]);
            if b - 1 > i {
                assert(modifier_less(before[i as int], before[b - 1]));
            }
        } else if a == i {
            assert(after[b] == before[b - 1]);
            if b - 1 > i {
                assert(modifier_less(before[i as int], before[b - 1]));
            }
        } else {
            assert(after[a] == before[a - 1] && after[b] == before[b - 1]);
        }
    }
    assert forall|x: Seq<char>| after.to_set().contains(x) <==> before.to_set().insert(t@).contains(x) by {
        if after.to_set().contains(x) {
            let k = choose|k: int| 0 <= k < after.len() && after[k] == x;
            if k < i {
                assert(before[k] == x);
            } else if k > i {
                assert(before[k - 1] == x);
            }
        }
        if before.to_set().contains(x) {
            let k = choose|k: int| 0 <= k < before.len() && before[k] == x;
            if k < i {
                assert(after[k] == x);
            } else {
                assert(after[k + 1] == x);
            }
        }
        if x == t@ {
            assert(after[i as int] == x);
        }
    }
    assert(after.to_set() =~= before.to_set().insert(t@));
}

/// Lower-cases a name and adds it to the ascending list.
fn add_modifier(ts: &mut Vec<Vec<char>>, name: &Vec<char>)
    requires
        modifiers_ordered(views(old(ts)@)),
    ensures
        modifiers_ordered(views(final(ts)@)),
        views(final(ts)@).to_set() == views(old(ts)@).to_set().insert(lower_of(name@)),
{
    let written = string_of(name, 0, name.len());
    assert(name@.subrange(0, name@.len() as int) == name@);
    let low = lowercase(written.as_str());
    let low_chars = chars_of(low.as_str());
    insert_modifier(ts, low_chars);
}

fn default_string() -> (r: String)
    ensures
        r@ == default_mode(),
{
    let mut s = String::new();
    push_char(&mut s, 'd');
    push_char(&mut s, 'e');
    push_char(&mut s, 'f');
    push_char(&mut s, 'a');
    push_char(&mut s, 'u');
    push_char(&mut s, 'l');
    push_char(&mut s, 't');
    s
}

fn push_chars(out: &mut String, cs: &Vec<char>)
    ensures
        final(out)@ == old(out)@ + cs@,
{
    let mut i: usize = 0;
    while i < cs.len()
        invariant
            i <= cs@.len(),
            out@ == old(out)@ + cs@.take(i as int),
        decreases cs@.len() - i,
    {
        assert(cs@.take(i + 1) == cs@.take(i as int).push(cs@[i as int]));
        push_char(out, cs[i]);
        i = i + 1;
    }
    assert(cs@.take(cs@.len() as int) == cs@);
}

fn join_modifiers(ts: &Vec<Vec<char>>) -> (r: String)
    ensures
        r@ == join_plus(views(ts@)),
{
    let ghost v = views(ts@);
    let mut out = String::new();
    let mut i: usize = 0;
    while i < ts.len()
        invariant
            i <= ts@.len(),
            v == views(ts@),
            out@ == join_plus(v.take(i as int)),
        decreases ts@.len() - i,
    {
        assert(v.take(i + 1).drop_last() =~= v.take(i as int));
        if i > 0 {
            push_char(&mut out, '+');
        }
        push_chars(&mut out, &ts[i]);
        proof {
            if i == 0 {
                assert(v.take(1) =~= seq![v[0]]);
            }
        }
        i = i + 1;
    }
    assert(v.take(ts@.len() as int) =~= v);
    out
}

/// The canonical name of the modifier combination written in `raw`.
pub fn parse_modifiers(raw: Option<&String>) -> (r: String)
    ensures
        r@ == mode_name_of(
            match raw {
                Some(s) => Some(s@),
                None => None,
            },
        ),
{
    let s = match raw {
        None => {
            return default_string();
        },
        Some(s) => s,
    };
    let cs = chars_of(s.as_str());
    let mut ordered: Vec<Vec<char>> = Vec::new();
    let mut cur: Vec<char> = Vec::new();
    let ghost mut done: Seq<Seq<char>> = Seq::empty();
    assert(views(ordered@) =~= Seq::<Seq<char>>::empty());
    assert(lowered(done) =~= Seq::<Seq<char>>::empty());
    let mut i: usize = 0;
    while i < cs.len()
        invariant
            i <= cs@.len(),
            cs@ == s@,
            done + split_from(cs@, i as int, cur@) == modifier_tokens(cs@),
            modifiers_ordered(views(ordered@)),
            views(ordered@).to_set() == lowered(done).to_set(),
        decreases cs@.len() - i,
    {
        let c = cs[i];
        if c == '+' || is_white_space(c) {
            if cur.len() > 0 {
                add_modifier(&mut ordered, &cur);
                proof {
                    lemma_lowered_push(done, cur@);
                    assert(done.push(cur@) + split_from(cs@, i + 1, Seq::empty()) =~= done + (seq![cur@]
                        + split_from(cs@, i + 1, Seq::empty())));
                    done = done.push(cur@);
                }
            } else {
                assert(Seq::<Seq<char>>::empty() + split_from(cs@, i + 1, Seq::empty()) =~= split_from(
                    cs@,
                    i + 1,
                    Seq::empty(),
                ));
            }
            cur = Vec::new();
            assert(cur@ =~= Seq::<char>::empty());
        } else {
            cur.push(c);
        }
        i = i + 1;
    }
    if cur.len() > 0 {
        add_modifier(&mut ordered, &cur);
        proof {
            lemma_lowered_push(done, cur@);
            done = done.push(cur@);
        }
    } else {
        assert(done + Seq::<Seq<char>>::empty() =~= done);
    }
    assert(done == modifier_tokens(cs@));
    let ghost set = modifier_set(s@);
    assert(lowered(done) == modifier_tokens(s@).map_values(|t: Seq<char>| lower_of(t)));
    assert(views(ordered@).to_set() == set);
    if ordered.len() == 0 {
        assert(set =~= Set::<Seq<char>>::empty());
        return default_string();
    }
    assert(set.contains(views(ordered@)[0]));
    proof {
        let v = views(ordered@);
        assert(modifiers_ordered(v) && v.to_set() == set);
        lemma_listing_unique(v, ordered_listing(set));
    }
    join_modifiers(&ordered)
}


/// Two texts that write the same modifier names, in any order, with any mix
/// of `+` and white space between them and any repeats, name the same
/// combination.
pub proof fn lemma_modifier_order_independent(a: Seq<char>, b: Seq<char>)
    requires
        modifier_tokens(a).to_set() == modifier_tokens(b).to_set(),
    ensures
        mode_name_of(Some(a)) == mode_name_of(Some(b)),
{
    let f = |t: Seq<char>| lower_of(t);
    modifier_tokens(a).lemma_to_set_map_commutes(f);
    modifier_tokens(b).lemma_to_set_map_commutes(f);
    assert(modifier_set(a) == modifier_set(b));
}

} // verus!
