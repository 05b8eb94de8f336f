//! Filling a template whose braces all belong to placeholders: every
//! placeholder gets its variable's value, whatever the order of the
//! variables.
use vstd::prelude::*;

use crate::template::{placeholder, spec_apply_vars};
use crate::text::spec_replace;

verus! {

/// A piece of a template: plain text, or the placeholder of a key.
pub enum TemplatePiece {
    Text(Seq<char>),
    Hole(Seq<char>),
}

/// `s` holds no `{`.
pub open spec fn no_open_brace(s: Seq<char>) -> bool {
    !s.contains('{')
}

/// `s` holds neither `{` nor `}`.
pub open spec fn brace_free(s: Seq<char>) -> bool {
    !s.contains('{') && !s.contains('}')
}

/// Every text piece holds no `{` and every key is brace-free: the braces
/// of the template are those of its placeholders.
pub open spec fn pieces_ok(ps: Seq<TemplatePiece>) -> bool {
    forall|i: int|
        0 <= i < ps.len() ==> match #[trigger] ps[i] {
            TemplatePiece::Text(t) => no_open_brace(t),
            TemplatePiece::Hole(k) => brace_free(k),
        }
}

/// The text of one piece, the placeholders of the keys in `m` filled with
/// their values.
pub open spec fn piece_text(p: TemplatePiece, m: Map<Seq<char>, Seq<char>>) -> Seq<char> {
    match p {
        TemplatePiece::Text(t) => t,
        TemplatePiece::Hole(k) => if m.contains_key(k) {
            m[k]
        } else {
            placeholder(k)
        },
    }
}

/// The template text of `ps` with the placeholders of the keys in `m`
/// filled with their values; with the empty map, the template itself.
pub open spec fn fill_pieces(ps: Seq<TemplatePiece>, m: Map<Seq<char>, Seq<char>>) -> Seq<char>
    decreases ps.len(),
{
    if ps.len() == 0 {
        seq![]
    } else {
        piece_text(ps[0], m) + fill_pieces(ps.drop_first(), m)
    }
}

/// The keys of `vars` with their values.
pub open spec fn table_map(vars: Seq<(Seq<char>, Seq<char>)>) -> Map<Seq<char>, Seq<char>>
    decreases vars.len(),
{
    if vars.len() == 0 {
        Map::empty()
    } else {
        table_map(vars.drop_last()).insert(vars.last().0, vars.last().1)
    }
}

/// Each key occurs once in `vars`, and keys and values are brace-free.
pub open spec fn table_ok(vars: Seq<(Seq<char>, Seq<char>)>) -> bool {
    &&& forall|i: int, j: int|
        #![trigger vars[i], vars[j]]
        0 <= i < j < vars.len() ==> vars[i].0 != vars[j].0
    &&& forall|i: int| #![trigger vars[i]] 0 <= i < vars.len() ==> brace_free(vars[i].0) && brace_free(vars[i].1)
}

proof fn lemma_replace_skip_plain(s: Seq<char>, t: Seq<char>, k: Seq<char>, rep: Seq<char>)
    requires
        no_open_brace(s),
    ensures
        spec_replace(s + t, placeholder(k), rep) == s + spec_replace(t, placeholder(k), rep),
    decreases s.len(),
{
    let pat = placeholder(k);
    if s.len() == 0 {
        assert(s + t == t);
    } else if (s + t).len() < pat.len() {
        assert(t.len() < pat.len());
    } else {
        assert((s + t).take(pat.len() as int)[0] == s[0]);
        assert(pat[0] == '{');
        assert(s[0] != '{') by {
            if s[0] == '{' {
                assert(s.contains('{'));
            }
        }
        let s1 = s.drop_first();
        assert(!s1.contains('{')) by {
            if s1.contains('{') {
                let j = choose|j: int| 0 <= j < s1.len() && s1[j] == '{';
                assert(s[j + 1] == '{');
            }
        }
        lemma_replace_skip_plain(s1, t, k, rep);
        assert((s + t).drop_first() == s1 + t);
        assert(seq![s[0]] + (s1 + spec_replace(t, pat, rep)) == s + spec_replace(t, pat, rep));
    }
}

proof fn lemma_replace_at_hole(t: Seq<char>, k: Seq<char>, rep: Seq<char>)
    ensures
        spec_replace(placeholder(k) + t, placeholder(k), rep) == rep + spec_replace(
            t,
            placeholder(k),
            rep,
        ),
{
    let pat = placeholder(k);
    assert((pat + t).take(pat.len() as int) == pat);
    assert((pat + t).skip(pat.len() as int) == t);
}

proof fn lemma_replace_other_hole(t: Seq<char>, k: Seq<char>, k2: Seq<char>, rep: Seq<char>)
    requires
        brace_free(k),
        brace_free(k2),
        k != k2,
    ensures
        spec_replace(placeholder(k2) + t, placeholder(k), rep) == placeholder(k2) + spec_replace(
            t,
            placeholder(k),
            rep,
        ),
{
    let pat = placeholder(k);
    let p2 = placeholder(k2);
    let s = p2 + t;
    if s.len() >= pat.len() {
        assert(s.take(pat.len() as int) != pat) by {
            if s.take(pat.len() as int) == pat {
                if k.len() < k2.len() {
                    let n: int = k.len() as int + 2;
                    assert(pat[n] == '}');
                    assert(s[n] == k2[k.len() as int]);
                    assert(k2.contains('}'));
                } else if k.len() > k2.len() {
                    let n: int = k2.len() as int + 2;
                    assert(s[n] == '}');
                    assert(pat[n] == k[k2.len() as int]);
                    assert(k.contains('}'));
                } else {
                    assert forall|j: int| 0 <= j < k.len() implies k[j] == k2[j] by {
                        assert(pat[j + 2] == k[j]);
                        assert(s[j + 2] == k2[j]);
                    }
                    assert(k =~= k2);
                }
            }
        }
        // the first character `{` is kept
        let s1 = s.drop_first();
        if s1.len() >= pat.len() {
            assert(s1.take(pat.len() as int) != pat) by {
                if s1.take(pat.len() as int) == pat {
                    assert(pat[1] == '{');
                    if k2.len() > 0 {
                        assert(s1[1] == k2[0]);
                        assert(k2.contains('{'));
                    } else {
                        assert(s1[1] == '}');
                    }
                }
            }
        }
        // then `{`, the key and `}}`, none of them opening a placeholder
        let rest = k2 + seq!['}', '}'];
        assert(no_open_brace(rest)) by {
            if rest.contains('{') {
                let j = choose|j: int| 0 <= j < rest.len() && rest[j] == '{';
                if j < k2.len() {
                    assert(k2[j] == '{');
                    assert(k2.contains('{'));
                }
            }
        }
        lemma_replace_skip_plain(rest, t, k, rep);
        let s2 = s1.drop_first();
        assert(s2 =~= rest + t);
        assert(p2 =~= seq!['{'] + (seq!['{'] + rest));
        assert(s[0] == '{');
        assert(spec_replace(s, pat, rep) == seq![s[0]] + spec_replace(s1, pat, rep));
        if s1.len() < pat.len() {
            assert(t.len() < pat.len());
            assert(spec_replace(t, pat, rep) == t);
            assert(spec_replace(s1, pat, rep) == s1);
            assert(s =~= p2 + spec_replace(t, pat, rep));
        } else {
            assert(s1[0] == '{');
            assert(spec_replace(s1, pat, rep) == seq![s1[0]] + spec_replace(s2, pat, rep));
            assert(spec_replace(s2, pat, rep) == rest + spec_replace(t, pat, rep));
            assert(seq!['{'] + (seq!['{'] + (rest + spec_replace(t, pat, rep))) =~= p2
                + spec_replace(t, pat, rep));
        }
    } else {
        assert(t.len() < pat.len());
    }
}

proof fn lemma_replace_pieces(
    ps: Seq<TemplatePiece>,
    m: Map<Seq<char>, Seq<char>>,
    k: Seq<char>,
    v: Seq<char>,
)
    requires
        pieces_ok(ps),
        brace_free(k),
        no_open_brace(v),
        !m.contains_key(k),
        forall|x: Seq<char>| #[trigger] m.contains_key(x) ==> no_open_brace(m[x]),
    ensures
        spec_replace(fill_pieces(ps, m), placeholder(k), v) == fill_pieces(ps, m.insert(k, v)),
    decreases ps.len(),
{
    let pat = placeholder(k);
    let m2 = m.insert(k, v);
    if ps.len() == 0 {
        assert(fill_pieces(ps, m) == Seq::<char>::empty());
    } else {
        let rest = ps.drop_first();
        assert forall|i: int| 0 <= i < rest.len() implies match #[trigger] rest[i] {
            TemplatePiece::Text(t) => no_open_brace(t),
            TemplatePiece::Hole(k) => brace_free(k),
        } by {
            assert(rest[i] == ps[i + 1]);
        }
        lemma_replace_pieces(rest, m, k, v);
        let tail = fill_pieces(rest, m);
        assert(pieces_ok(ps));
        let p0 = ps[0];
        match p0 {
            TemplatePiece::Text(t) => {
                lemma_replace_skip_plain(t, tail, k, v);
            },
            TemplatePiece::Hole(k2) => {
                if m.contains_key(k2) {
                    assert(k2 != k);
                    lemma_replace_skip_plain(m[k2], tail, k, v);
                } else if k2 == k {
                    lemma_replace_at_hole(tail, k, v);
                } else {
                    lemma_replace_other_hole(tail, k, k2, v);
                }
            },
        }
    }
}

proof fn lemma_table_map_facts(vars: Seq<(Seq<char>, Seq<char>)>)
    requires
        table_ok(vars),
    ensures
        forall|x: Seq<char>|
            #[trigger] table_map(vars).contains_key(x) ==> brace_free(table_map(vars)[x]),
        forall|x: Seq<char>|
            #[trigger] table_map(vars).contains_key(x) <==> exists|i: int|
                0 <= i < vars.len() && vars[i].0 == x,
        forall|i: int|
            0 <= i < vars.len() ==> #[trigger] table_map(vars)[vars[i].0] == vars[i].1,
    decreases vars.len(),
{
    if vars.len() > 0 {
        let init = vars.drop_last();
        assert(table_ok(init)) by {
            assert forall|i: int, j: int| #![trigger init[i], init[j]] 0 <= i < j < init.len() implies init[i].0
                != init[j].0 by {
                assert(init[i] == vars[i] && init[j] == vars[j]);
            }
            assert forall|i: int| #![trigger init[i]] 0 <= i < init.len() implies brace_free(init[i].0)
                && brace_free(init[i].1) by {
                assert(init[i] == vars[i]);
            }
        }
        lemma_table_map_facts(init);
        let n = vars.len() - 1;
        let last = vars[n];
        assert(brace_free(last.0) && brace_free(last.1));
        assert(vars.last() == last);
        assert(table_map(vars) == table_map(init).insert(last.0, last.1));
        assert forall|x: Seq<char>| #[trigger] table_map(vars).contains_key(x) implies brace_free(
            table_map(vars)[x],
        ) by {
            if x != last.0 {
                assert(table_map(init).contains_key(x));
            }
        }
        assert forall|x: Seq<char>| #[trigger] table_map(vars).contains_key(x) <==> exists|i: int|
            0 <= i < vars.len() && vars[i].0 == x by {
            if table_map(vars).contains_key(x) {
                if x == last.0 {
                    assert(vars[n].0 == x);
                } else {
                    assert(table_map(init).contains_key(x));
                    let i = choose|i: int| 0 <= i < init.len() && init[i].0 == x;
                    assert(init[i] == vars[i]);
                    assert(vars[i].0 == x);
                }
            }
            if exists|i: int| 0 <= i < vars.len() && vars[i].0 == x {
                let i = choose|i: int| 0 <= i < vars.len() && vars[i].0 == x;
                if i < n {
                    assert(init[i] == vars[i]);
                    assert(init[i].0 == x);
                    assert(table_map(init).contains_key(x));
                }
            }
        }
        assert forall|i: int| 0 <= i < vars.len() implies #[trigger] table_map(vars)[vars[i].0]
            == vars[i].1 by {
            if i < n {
                assert(vars[i].0 != vars[n].0);
                assert(init[i] == vars[i]);
                assert(table_map(init)[init[i].0] == init[i].1);
            }
        }
    }
}

/// Filling a template whose braces all belong to placeholders, with a
/// table of distinct brace-free keys and brace-free values, replaces each
/// placeholder by its key's value and leaves the placeholders of other keys
/// as they are. So the result depends on the table only through its pairs,
/// not on their order: two such tables with the same pairs fill the
/// template alike.
pub proof fn law_fill_ignores_order(
    ps: Seq<TemplatePiece>,
    vars: Seq<(Seq<char>, Seq<char>)>,
    other: Seq<(Seq<char>, Seq<char>)>,
)
    requires
        pieces_ok(ps),
        table_ok(vars),
        table_ok(other),
        vars.to_set() == other.to_set(),
    ensures
        spec_apply_vars(fill_pieces(ps, Map::empty()), vars) == fill_pieces(ps, table_map(vars)),
        spec_apply_vars(fill_pieces(ps, Map::empty()), vars) == spec_apply_vars(
            fill_pieces(ps, Map::empty()),
            other,
        ),
{
    lemma_apply_table(ps, vars);
    lemma_apply_table(ps, other);
    lemma_table_map_facts(vars);
    lemma_table_map_facts(other);
    assert(table_map(vars) =~= table_map(other)) by {
        assert forall|x: Seq<char>| table_map(vars).contains_key(x) implies table_map(
            other,
        ).contains_key(x) && table_map(vars)[x] == table_map(other)[x] by {
            let i = choose|i: int| 0 <= i < vars.len() && vars[i].0 == x;
            assert(vars.to_set().contains(vars[i]));
            assert(other.to_set().contains(vars[i]));
            let j = choose|j: int| 0 <= j < other.len() && other[j] == vars[i];
            assert(other[j].0 == x);
            assert(table_map(other)[other[j].0] == other[j].1);
        }
        assert forall|x: Seq<char>| table_map(other).contains_key(x) implies table_map(
            vars,
        ).contains_key(x) by {
            let j = choose|j: int| 0 <= j < other.len() && other[j].0 == x;
            assert(other.to_set().contains(other[j]));
            assert(vars.to_set().contains(other[j]));
            let i = choose|i: int| 0 <= i < vars.len() && vars[i] == other[j];
            assert(vars[i].0 == x);
        }
    }
}

proof fn lemma_apply_table(ps: Seq<TemplatePiece>, vars: Seq<(Seq<char>, Seq<char>)>)
    requires
        pieces_ok(ps),
        table_ok(vars),
    ensures
        spec_apply_vars(fill_pieces(ps, Map::empty()), vars) == fill_pieces(ps, table_map(vars)),
    decreases vars.len(),
{
    if vars.len() > 0 {
        let init = vars.drop_last();
        assert(table_ok(init)) by {
            assert forall|i: int, j: int| #![trigger init[i], init[j]] 0 <= i < j < init.len() implies init[i].0
                != init[j].0 by {
                assert(init[i] == vars[i] && init[j] == vars[j]);
            }
            assert forall|i: int| #![trigger init[i]] 0 <= i < init.len() implies brace_free(init[i].0)
                && brace_free(init[i].1) by {
                assert(init[i] == vars[i]);
            }
        }
        lemma_apply_table(ps, init);
        lemma_table_map_facts(init);
        let n = vars.len() - 1;
        let (k, v) = vars.last();
        assert(brace_free(vars[n].0) && brace_free(vars[n].1));
        assert(!table_map(init).contains_key(k)) by {
            if table_map(init).contains_key(k) {
                let i = choose|i: int| 0 <= i < init.len() && init[i].0 == k;
                assert(vars[i].0 == vars[n].0);
            }
        }
        assert forall|x: Seq<char>| #[trigger] table_map(init).contains_key(x) implies no_open_brace(
            table_map(init)[x],
        ) by {
            assert(brace_free(table_map(init)[x]));
        }
        lemma_replace_pieces(ps, table_map(init), k, v);
    }
}

} // verus!
