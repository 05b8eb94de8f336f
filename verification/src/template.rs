//! `{{name}}` placeholders: the variable table of a project, their
//! substitution into request text, and the per-request values that a load
//! test draws for overridden variables.
use vstd::prelude::*;

use crate::model::{pairs_view, overrides_view, VarOverride, VarOverrideView, Variable};
use crate::numbers::{decimal_of_i128, parse_i128, spec_decimal, spec_parse_i128};
use crate::text::{
    chars_eq, chars_of, contains, eq_str, lemma_vecs_view_push, replace, spec_contains,
    spec_replace, spec_split, spec_trim, split_state, string_of, trim, vecs_view,
};

verus! {

// ---------------------------------------------------------------------------
// Specs
// ---------------------------------------------------------------------------

/// The placeholder text of the variable `k`: `{{k}}`.
pub open spec fn placeholder(k: Seq<char>) -> Seq<char> {
    seq!['{', '{'] + k + seq!['}', '}']
}

/// `t` with the placeholder of each variable replaced by its value, one
/// variable after the other in the order given.
pub open spec fn spec_apply_vars(t: Seq<char>, vars: Seq<(Seq<char>, Seq<char>)>) -> Seq<char>
    decreases vars.len(),
{
    if vars.len() == 0 {
        t
    } else {
        spec_replace(
            spec_apply_vars(t, vars.drop_last()),
            placeholder(vars.last().0),
            vars.last().1,
        )
    }
}

/// The last position of the key `k` in the table `t`, or -1.
pub open spec fn key_index(t: Seq<(Seq<char>, Seq<char>)>, k: Seq<char>) -> int
    decreases t.len(),
{
    if t.len() == 0 {
        -1
    } else if t.last().0 == k {
        t.len() - 1
    } else {
        key_index(t.drop_last(), k)
    }
}

/// The table of a project's variables: one entry per key, in the order in
/// which keys first occur, holding the value of the last variable with that
/// key (what collecting the pairs into a map keeps).
pub open spec fn spec_var_table(vars: Seq<(Seq<char>, Seq<char>)>) -> Seq<(Seq<char>, Seq<char>)>
    decreases vars.len(),
{
    if vars.len() == 0 {
        seq![]
    } else {
        let t = spec_var_table(vars.drop_last());
        let (k, v) = vars.last();
        let j = key_index(t, k);
        if j >= 0 {
            t.update(j, (k, v))
        } else {
            t.push((k, v))
        }
    }
}

/// The key/value pairs of a list of variables.
pub open spec fn variables_kv(vs: Seq<Variable>) -> Seq<(Seq<char>, Seq<char>)> {
    vs.map_values(|v: Variable| (v.key@, v.value@))
}

/// The non-empty trimmed pieces among `pieces`.
pub open spec fn nonempty_trimmed(pieces: Seq<Seq<char>>) -> Seq<Seq<char>>
    decreases pieces.len(),
{
    if pieces.len() == 0 {
        seq![]
    } else {
        let rest = nonempty_trimmed(pieces.drop_last());
        let t = spec_trim(pieces.last());
        if t.len() > 0 {
            rest.push(t)
        } else {
            rest
        }
    }
}

/// The items of a comma-separated list: each piece trimmed, empty ones left
/// out.
pub open spec fn spec_list_items(s: Seq<char>) -> Seq<Seq<char>> {
    nonempty_trimmed(spec_split(s, ','))
}

/// The start of a range override: its value read as an integer, 0 if it is
/// not one.
pub open spec fn range_start(o: VarOverrideView) -> i128 {
    match spec_parse_i128(o.value) {
        Some(v) => v,
        None => 0,
    }
}

/// The end of a range override: its end value read as an integer, the
/// start if there is none or it is not one.
pub open spec fn range_end(o: VarOverrideView) -> i128 {
    match o.value_end {
        Some(e) => match spec_parse_i128(e) {
            Some(v) => v,
            None => range_start(o),
        },
        None => range_start(o),
    }
}

/// The number of values that a range override draws from: the size of
/// the range, reduced modulo 2^64.
pub open spec fn range_span(o: VarOverrideView) -> int {
    (range_end(o) - range_start(o) + 1) % 0x1_0000_0000_0000_0000
}

/// A value can be drawn for `o` without an arithmetic fault: a range
/// whose size fits in `i128` and is not a multiple of 2^64.
pub open spec fn pick_defined(o: VarOverrideView) -> bool {
    o.mode == "range"@ && range_start(o) < range_end(o) ==> {
        &&& range_end(o) - range_start(o) + 1 <= i128::MAX
        &&& range_span(o) != 0
    }
}

/// The decimal text of `s + x`.
pub open spec fn offset_decimal(s: i128, x: int) -> Seq<char> {
    spec_decimal(s + x)
}

/// `p` is a value that `o` may give one request: for a range, the start
/// when the range is empty or reversed, else the start plus some
/// `x < range_span`; for a list, one of its items (the empty string when
/// it has none); otherwise the fixed value.
pub open spec fn pick_ok(o: VarOverrideView, p: Seq<char>) -> bool {
    if o.mode == "range"@ {
        let s = range_start(o);
        let e = range_end(o);
        if s >= e {
            p == spec_decimal(s as int)
        } else {
            exists|x: int| 0 <= x < range_span(o) && p == #[trigger] offset_decimal(s, x)
        }
    } else if o.mode == "list"@ {
        let items = spec_list_items(o.value);
        if items.len() == 0 {
            p == Seq::<char>::empty()
        } else {
            exists|j: int| 0 <= j < items.len() && p == items[j]
        }
    } else {
        p == o.value
    }
}

/// `out` after one override: its placeholder, if the key is not empty and
/// the placeholder occurs, replaced by the drawn value `pick`.
pub open spec fn override_step(out: Seq<char>, o: VarOverrideView, pick: Seq<char>) -> Seq<char> {
    if o.key.len() == 0 || !spec_contains(out, placeholder(o.key)) {
        out
    } else {
        spec_replace(out, placeholder(o.key), pick)
    }
}

/// `t` after the overrides, the i-th override using the i-th drawn value.
pub open spec fn spec_apply_overrides(
    t: Seq<char>,
    os: Seq<VarOverrideView>,
    picks: Seq<Seq<char>>,
) -> Seq<char>
    decreases os.len(),
{
    if os.len() == 0 || picks.len() == 0 {
        t
    } else {
        override_step(
            spec_apply_overrides(t, os.drop_last(), picks.drop_last()),
            os.last(),
            picks.last(),
        )
    }
}

/// The i-th override draws a value: its key is not empty and its
/// placeholder occurs in the text left by the overrides before it.
pub open spec fn pick_used(
    t: Seq<char>,
    os: Seq<VarOverrideView>,
    picks: Seq<Seq<char>>,
    i: int,
) -> bool {
    os[i].key.len() > 0 && spec_contains(
        spec_apply_overrides(t, os.take(i), picks.take(i)),
        placeholder(os[i].key),
    )
}

/// One drawn value per override, each one that is used a value its
/// override may give.
pub open spec fn valid_picks(t: Seq<char>, os: Seq<VarOverrideView>, picks: Seq<Seq<char>>) -> bool {
    &&& picks.len() == os.len()
    &&& forall|i: int| 0 <= i < os.len() ==> #[trigger] pick_used(t, os, picks, i) ==> pick_ok(
        os[i],
        picks[i],
    )
}

/// The values drawn so far are valid: each one used is a value its
/// override may give.
pub open spec fn valid_prefix(t: Seq<char>, os: Seq<VarOverrideView>, picks: Seq<Seq<char>>) -> bool {
    forall|m: int|
        0 <= m < picks.len() ==> #[trigger] pick_used(t, os, picks, m) ==> pick_ok(os[m], picks[m])
}

/// Filling the overrides of `t` never draws from an override that cannot
/// be drawn from, whatever values are drawn: an override whose turn comes
/// with a non-empty key and its placeholder in the text can be drawn from.
pub open spec fn template_drawable(t: Seq<char>, os: Seq<VarOverrideView>) -> bool {
    forall|picks: Seq<Seq<char>>, i: int|
        0 <= i < os.len() && picks.len() == i && valid_prefix(t, os, picks) && #[trigger] pick_used(
            t,
            os,
            picks,
            i,
        ) ==> pick_defined(os[i])
}

/// The text that a load test sends for the template `t`: the overrides
/// first, with some valid drawn values, then the variables.
pub open spec fn template_outcome(
    t: Seq<char>,
    vars: Seq<(Seq<char>, Seq<char>)>,
    os: Seq<VarOverrideView>,
    r: Seq<char>,
) -> bool {
    exists|picks: Seq<Seq<char>>|
        valid_picks(t, os, picks) && r == spec_apply_vars(spec_apply_overrides(t, os, picks), vars)
}

// ---------------------------------------------------------------------------
// Trusted: random numbers
// ---------------------------------------------------------------------------

/// `fastrand::u64(0..n)`: some number below `n` (it panics for `n == 0`).
#[verifier::external_body]
fn random_u64_below(n: u64) -> (r: u64)
    requires
        n > 0,
    ensures
        r < n,
{
    fastrand::u64(0..n)
}

/// `fastrand::usize(0..n)`: some index below `n` (it panics for `n == 0`).
#[verifier::external_body]
fn random_usize_below(n: usize) -> (r: usize)
    requires
        n > 0,
    ensures
        r < n,
{
    fastrand::usize(0..n)
}

// ---------------------------------------------------------------------------
// Lemmas
// ---------------------------------------------------------------------------

proof fn lemma_apply_vars_push(t: Seq<char>, vars: Seq<(Seq<char>, Seq<char>)>, kv: (
    Seq<char>,
    Seq<char>,
))
    ensures
        spec_apply_vars(t, vars.push(kv)) == spec_replace(
            spec_apply_vars(t, vars),
            placeholder(kv.0),
            kv.1,
        ),
{
    assert(vars.push(kv).drop_last() == vars);
}

proof fn lemma_key_index_bounds(t: Seq<(Seq<char>, Seq<char>)>, k: Seq<char>)
    ensures
        -1 <= key_index(t, k) < t.len(),
        key_index(t, k) >= 0 ==> t[key_index(t, k)].0 == k,
        key_index(t, k) < 0 ==> forall|j: int| 0 <= j < t.len() ==> t[j].0 != k,
    decreases t.len(),
{
    if t.len() > 0 {
        lemma_key_index_bounds(t.drop_last(), k);
        if key_index(t, k) < 0 {
            assert forall|j: int| 0 <= j < t.len() implies t[j].0 != k by {
                if j < t.len() - 1 {
                    assert(t[j] == t.drop_last()[j]);
                }
            }
        }
    }
}

/// Distinct keys: each key occurs at most once.
pub open spec fn keys_distinct(t: Seq<(Seq<char>, Seq<char>)>) -> bool {
    forall|i: int, j: int| 0 <= i < j < t.len() ==> #[trigger] t[i].0 != #[trigger] t[j].0
}

/// The variable table of any list of pairs has one entry per key.
pub proof fn lemma_var_table_distinct(vars: Seq<(Seq<char>, Seq<char>)>)
    ensures
        keys_distinct(spec_var_table(vars)),
    decreases vars.len(),
{
    if vars.len() > 0 {
        let t = spec_var_table(vars.drop_last());
        lemma_var_table_distinct(vars.drop_last());
        lemma_key_index_bounds(t, vars.last().0);
    }
}

// ---------------------------------------------------------------------------
// Executable
// ---------------------------------------------------------------------------

/// The placeholder `{{k}}` as characters.
pub fn placeholder_of(k: &str) -> (r: Vec<char>)
    ensures
        r@ == placeholder(k@),
{
    let kc = chars_of(k);
    let mut out: Vec<char> = Vec::new();
    out.push('{');
    out.push('{');
    let mut i: usize = 0;
    while i < kc.len()
        invariant
            i <= kc.len(),
            out@ == seq!['{', '{'] + kc@.take(i as int),
        decreases kc.len() - i,
    {
        out.push(kc[i]);
        i += 1;
        assert(kc@.take(i as int) == kc@.take(i - 1).push(kc@[i - 1]));
    }
    out.push('}');
    out.push('}');
    assert(kc@.take(kc.len() as int) == kc@);
    assert(out@ =~= placeholder(k@));
    out
}

/// `t` with each variable's placeholder replaced by its value, in order.
pub fn apply_vars(t: Vec<char>, vars: &[(String, String)]) -> (r: Vec<char>)
    ensures
        r@ == spec_apply_vars(t@, pairs_view(vars@)),
{
    let mut out = t;
    let mut i: usize = 0;
    while i < vars.len()
        invariant
            i <= vars.len(),
            out@ == spec_apply_vars(t@, pairs_view(vars@).take(i as int)),
        decreases vars.len() - i,
    {
        let ph = placeholder_of(vars[i].0.as_str());
        let val = chars_of(vars[i].1.as_str());
        out = replace(out.as_slice(), ph.as_slice(), val.as_slice());
        proof {
            let pv = pairs_view(vars@);
            assert(pv.take(i + 1) == pv.take(i as int).push(pv[i as int]));
            lemma_apply_vars_push(t@, pv.take(i as int), pv[i as int]);
        }
        i += 1;
    }
    assert(pairs_view(vars@).take(vars.len() as int) == pairs_view(vars@));
    out
}

/// The text `tpl` with the placeholder of each variable of `vars` replaced
/// by its value, one variable after the other.
pub fn resolve(tpl: &str, vars: &[(String, String)]) -> (r: String)
    ensures
        r@ == spec_apply_vars(tpl@, pairs_view(vars@)),
{
    let out = apply_vars(chars_of(tpl), vars);
    string_of(out.as_slice())
}

/// The variable table of a project: one entry per key, holding the value
/// of the last variable with that key.
pub fn vars_map(vars: &[Variable]) -> (r: Vec<(String, String)>)
    ensures
        pairs_view(r@) == spec_var_table(variables_kv(vars@)),
{
    let mut table: Vec<(String, String)> = Vec::new();
    let ghost kv = variables_kv(vars@);
    let mut i: usize = 0;
    while i < vars.len()
        invariant
            i <= vars.len(),
            kv == variables_kv(vars@),
            pairs_view(table@) == spec_var_table(kv.take(i as int)),
        decreases vars.len() - i,
    {
        let key = vars[i].key.clone();
        let value = vars[i].value.clone();
        let kc = chars_of(key.as_str());
        let ghost t = pairs_view(table@);
        proof {
            assert(kv.take(i + 1).drop_last() == kv.take(i as int));
            assert(kv.take(i + 1).last() == (key@, value@));
        }
        // search from the back for the key
        let mut j: usize = table.len();
        let mut found = false;
        assert(t.take(j as int) == t);
        while j > 0
            invariant_except_break
                !found,
            invariant
                j <= table.len(),
                t == pairs_view(table@),
                kc@ == key@,
                key_index(t, key@) == key_index(t.take(j as int), key@),
            ensures
                found ==> 0 < j <= table.len() && key_index(t, key@) == j - 1,
                !found ==> key_index(t, key@) == -1,
            decreases j,
        {
            let tk = chars_of(table[j - 1].0.as_str());
            assert(t.take(j as int).drop_last() == t.take(j - 1));
            if chars_eq(tk.as_slice(), kc.as_slice()) {
                found = true;
                break;
            }
            j -= 1;
        }
        if found {
            let ghost before = table@;
            table.set(j - 1, (key, value));
            assert(pairs_view(table@) =~= t.update(j - 1, (key@, value@)));
        } else {
            table.push((key, value));
            assert(pairs_view(table@) =~= t.push((key@, value@)));
        }
        i += 1;
    }
    assert(kv.take(vars.len() as int) == kv);
    table
}

/// The table of `vars_map` has one entry per key.
pub proof fn law_var_table_keys_distinct(vars: Seq<Variable>)
    ensures
        keys_distinct(spec_var_table(variables_kv(vars))),
{
    lemma_var_table_distinct(variables_kv(vars));
}

/// The items of a comma-separated list.
pub fn list_items(s: &str) -> (r: Vec<Vec<char>>)
    ensures
        vecs_view(r@) == spec_list_items(s@),
{
    let cs = chars_of(s);
    let mut items: Vec<Vec<char>> = Vec::new();
    let mut cur: Vec<char> = Vec::new();
    let ghost done: Seq<Seq<char>> = seq![];
    let mut i: usize = 0;
    while i < cs.len()
        invariant
            i <= cs.len(),
            (done, cur@) == split_state(cs@.take(i as int), ','),
            vecs_view(items@) == nonempty_trimmed(done),
        decreases cs.len() - i,
    {
        let c = cs[i];
        assert(cs@.take(i + 1).drop_last() == cs@.take(i as int));
        assert(cs@.take(i + 1).last() == c);
        if c == ',' {
            let t = trim(cur.as_slice());
            proof {
                assert(done.push(cur@).drop_last() == done);
                lemma_vecs_view_push(items@, t);
            }
            if t.len() > 0 {
                items.push(t);
            }
            proof {
                done = done.push(cur@);
            }
            cur = Vec::new();
        } else {
            cur.push(c);
        }
        i += 1;
    }
    assert(cs@.take(cs.len() as int) == cs@);
    let t = trim(cur.as_slice());
    proof {
        assert(done.push(cur@).drop_last() == done);
        lemma_vecs_view_push(items@, t);
    }
    if t.len() > 0 {
        items.push(t);
    }
    items
}

/// Whether a value can be drawn for `o` without an arithmetic fault, as
/// `pick_defined` says.
pub fn override_defined(o: &VarOverride) -> (b: bool)
    ensures
        b == pick_defined(o@),
{
    let mode = chars_of(o.mode.as_str());
    if !eq_str(mode.as_slice(), "range") {
        return true;
    }
    let start: i128 = match parse_i128(chars_of(o.value.as_str()).as_slice()) {
        Some(v) => v,
        None => 0,
    };
    let end: i128 = match &o.value_end {
        Some(e) => match parse_i128(chars_of(e.as_str()).as_slice()) {
            Some(v) => v,
            None => start,
        },
        None => start,
    };
    assert(start == range_start(o@) && end == range_end(o@));
    if start >= end {
        return true;
    }
    let fits = if start >= 0 {
        end - start <= i128::MAX - 1
    } else {
        end <= i128::MAX - 1 + start
    };
    if !fits {
        return false;
    }
    let size: i128 = end - start + 1;
    size % 0x1_0000_0000_0000_0000i128 != 0
}

/// The value that the override `o` gives one request: a fixed value, a
/// random integer of a range, or a random item of a list.
pub fn pick_value(o: &VarOverride) -> (r: String)
    requires
        pick_defined(o@),
    ensures
        pick_ok(o@, r@),
{
    let mode = chars_of(o.mode.as_str());
    if eq_str(mode.as_slice(), "range") {
        let start: i128 = match parse_i128(chars_of(o.value.as_str()).as_slice()) {
            Some(v) => v,
            None => 0,
        };
        let end: i128 = match &o.value_end {
            Some(e) => match parse_i128(chars_of(e.as_str()).as_slice()) {
                Some(v) => v,
                None => start,
            },
            None => start,
        };
        assert(start == range_start(o@) && end == range_end(o@));
        if start >= end {
            return string_of(decimal_of_i128(start).as_slice());
        }
        let size: i128 = end - start + 1;
        let n: u64 = (size % 0x1_0000_0000_0000_0000i128) as u64;
        let x = random_u64_below(n);
        let v: i128 = start + x as i128;
        let r = string_of(decimal_of_i128(v).as_slice());
        assert(0 <= x < range_span(o@) && r@ == offset_decimal(start, x as int));
        r
    } else if eq_str(mode.as_slice(), "list") {
        let items = list_items(o.value.as_str());
        if items.len() == 0 {
            return String::new();
        }
        let j = random_usize_below(items.len());
        let r = string_of(items[j].as_slice());
        assert(r@ == vecs_view(items@)[j as int]);
        r
    } else {
        o.value.clone()
    }
}

proof fn lemma_apply_overrides_push(
    t: Seq<char>,
    os: Seq<VarOverrideView>,
    picks: Seq<Seq<char>>,
    o: VarOverrideView,
    p: Seq<char>,
)
    requires
        picks.len() == os.len(),
    ensures
        spec_apply_overrides(t, os.push(o), picks.push(p)) == override_step(
            spec_apply_overrides(t, os, picks),
            o,
            p,
        ),
{
    assert(os.push(o).drop_last() == os);
    assert(picks.push(p).drop_last() == picks);
}

/// The text that one request of a load test sends for the template `tpl`,
/// as `resolve_template` fills it, or `None` at the first override whose
/// turn comes with its placeholder in the text but that cannot be drawn
/// from (where that draw panics). It returns `None` only when the template
/// is not `template_drawable`.
pub fn draw_template(tpl: &str, vars: &[(String, String)], overrides: &[VarOverride]) -> (r:
    Option<String>)
    ensures
        r matches Some(s) ==> template_outcome(
            tpl@,
            pairs_view(vars@),
            overrides_view(overrides@),
            s@,
        ),
        r is None ==> !template_drawable(tpl@, overrides_view(overrides@)),
{
    let ghost os = overrides_view(overrides@);
    let mut out = chars_of(tpl);
    let ghost mut picks: Seq<Seq<char>> = seq![];
    let mut i: usize = 0;
    while i < overrides.len()
        invariant
            i <= overrides.len(),
            os == overrides_view(overrides@),
            picks.len() == i,
            out@ == spec_apply_overrides(tpl@, os.take(i as int), picks),
            forall|m: int|
                0 <= m < i ==> #[trigger] pick_used(tpl@, os, picks, m) ==> pick_ok(
                    os[m],
                    picks[m],
                ),
        decreases overrides.len() - i,
    {
        let o = &overrides[i];
        let ghost before = out@;
        let ghost mut p: Seq<char> = seq![];
        if !o.key.as_str().is_empty() {
            let ph = placeholder_of(o.key.as_str());
            assert(o.key@.len() > 0);
            if contains(out.as_slice(), ph.as_slice()) {
                proof {
                    assert(picks.take(i as int) == picks);
                    assert(pick_used(tpl@, os, picks, i as int));
                    assert(valid_prefix(tpl@, os, picks));
                }
                if !override_defined(o) {
                    return None;
                }
                let v = pick_value(o);
                let vc = chars_of(v.as_str());
                out = replace(out.as_slice(), ph.as_slice(), vc.as_slice());
                proof {
                    p = v@;
                }
            }
        } else {
            assert(o.key@.len() == 0);
        }
        proof {
            assert(os.take(i + 1) == os.take(i as int).push(os[i as int]));
            lemma_apply_overrides_push(tpl@, os.take(i as int), picks, os[i as int], p);
            let np = picks.push(p);
            assert(np.take(i as int) == picks);
            assert(os.take(i as int) == os.take(i as int));
            assert(pick_used(tpl@, os, np, i as int) ==> pick_ok(os[i as int], np[i as int]));
            assert forall|m: int| 0 <= m < i implies pick_used(tpl@, os, np, m) == pick_used(
                tpl@,
                os,
                picks,
                m,
            ) by {
                assert(np.take(m) == picks.take(m));
            }
            picks = np;
        }
        i += 1;
    }
    let r = apply_vars(out, vars);
    assert(os.take(overrides.len() as int) == os);
    let r = string_of(r.as_slice());
    assert(valid_picks(tpl@, os, picks));
    Some(r)
}


/// The text that one request of a load test sends for the template `tpl`:
/// each override with a non-empty key whose placeholder occurs gets a
/// value drawn for it, then the variables are filled in. No override whose
/// turn comes with its placeholder in the text may be one that cannot be
/// drawn from (`template_drawable`): a draw from a range whose size
/// overflows panics.
pub fn resolve_template(tpl: &str, vars: &[(String, String)], overrides: &[VarOverride]) -> (r:
    String)
    requires
        template_drawable(tpl@, overrides_view(overrides@)),
    ensures
        template_outcome(tpl@, pairs_view(vars@), overrides_view(overrides@), r@),
{
    match draw_template(tpl, vars, overrides) {
        Some(s) => s,
        None => {
            assert(false);
            String::new()
        },
    }
}

} // verus!
