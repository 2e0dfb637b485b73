//! Laws that relate filters to one another.

use crate::escape::{html, percent, percent_encoded, tsv, unreserved};
use crate::natives::{ends_said, left_trimmed, not_strings, right_trimmed, starts_said};
use crate::order::{before, lemma_before, lemma_rank, rank, totally_ordered, Rank};
use crate::select::{is_first_least, is_last_greatest};
use crate::sort::{
    arranged, comes_first, cut_at, is_permutation, is_stable_order, is_stable_value_order, sorted,
    value_comes_first,
};
use crate::text::{has_prefix, has_suffix, lower, spelled, upper};
use crate::val::{from_bool, from_str, str_of, Val, ValR2, ValT};
use vstd::prelude::*;

verus! {

proof fn lemma_permutation_covers(p: Seq<usize>, n: nat, i: int)
    requires
        is_permutation(p, n),
        0 <= i < n <= usize::MAX,
    ensures
        exists|k: int| 0 <= k < n && #[trigger] p[k] == i,
{
    let q = p.map_values(|x: usize| x as int);
    assert(q.no_duplicates());
    q.unique_seq_to_set();
    let all = vstd::set_lib::set_int_range(0, n as int);
    vstd::set_lib::lemma_int_range(0, n as int);
    assert(q.to_set().subset_of(all)) by {
        assert forall|x: int| q.to_set().contains(x) implies all.contains(x) by {
            let k = choose|k: int| 0 <= k < q.len() && q[k] == x;
            assert(q[k] == p[k]);
        }
    }
    vstd::set_lib::lemma_subset_equality(q.to_set(), all);
    assert(q.to_set().contains(i));
    let k = choose|k: int| 0 <= k < q.len() && q[k] == i;
    assert(p[k] == i);
}

/// There is only one order in which a stable sort by given keys puts the elements.
pub proof fn law_stable_order_is_unique<V: Ord>(ks: Seq<Vec<V>>, p: Seq<usize>, q: Seq<usize>)
    requires
        totally_ordered::<V>(),
        ks.len() <= usize::MAX,
        is_stable_order(ks, p),
        is_stable_order(ks, q),
    ensures
        p == q,
{
    lemma_same_prefix(ks, p, q, ks.len() as int);
    assert(p =~= q);
}

proof fn lemma_same_prefix<V: Ord>(ks: Seq<Vec<V>>, p: Seq<usize>, q: Seq<usize>, n: int)
    requires
        totally_ordered::<V>(),
        ks.len() <= usize::MAX,
        is_stable_order(ks, p),
        is_stable_order(ks, q),
        0 <= n <= ks.len(),
    ensures
        forall|i: int| 0 <= i < n ==> p[i] == q[i],
    decreases n,
{
    if n > 0 {
        lemma_same_prefix(ks, p, q, n - 1);
        let i = n - 1;
        lemma_permutation_covers(q, ks.len(), p[i] as int);
        lemma_permutation_covers(p, ks.len(), q[i] as int);
        let k = choose|k: int| 0 <= k < ks.len() && #[trigger] q[k] == p[i];
        let m = choose|m: int| 0 <= m < ks.len() && #[trigger] p[m] == q[i];
        if k < i {
            assert(p[k] == q[k]);
        }
        if m < i {
            assert(p[m] == q[m]);
        }
        if k > i && m > i {
            assert(comes_first(ks, q[i] as int, q[k] as int));
            assert(comes_first(ks, p[i] as int, p[m] as int));
            lemma_before(ks[p[i] as int]@, ks[q[i] as int]@, ks[p[i] as int]@);
        }
    }
}

/// To sort an array is to sort it by the function that gives every element itself.
pub proof fn law_sort_is_sort_by_identity<V: Ord>(xs: Seq<V>, ks: Seq<Vec<V>>, p: Seq<usize>)
    requires
        totally_ordered::<V>(),
        ks.len() == xs.len(),
        forall|i: int| 0 <= i < xs.len() ==> (#[trigger] ks[i])@ == seq![xs[i]],
    ensures
        is_stable_value_order(xs, p) <==> is_stable_order(ks, p),
{
    reveal_with_fuel(before, 2);
    assert forall|i: int, j: int| 0 <= i < xs.len() && 0 <= j < xs.len() implies (
    #[trigger] value_comes_first(xs, i, j) <==> comes_first(ks, i, j)) by {
        assert(ks[i]@ == seq![xs[i]]);
        assert(ks[j]@ == seq![xs[j]]);
        lemma_rank(xs[i], xs[j], xs[i]);
        assert(before(ks[i]@, ks[j]@) == (rank(xs[i], xs[j]) == Rank::Less));
        assert(before(ks[j]@, ks[i]@) == (rank(xs[j], xs[i]) == Rank::Less));
    }
    if is_permutation(p, xs.len()) {
        assert forall|i: int, j: int| 0 <= i < j < p.len() implies (value_comes_first(
            xs,
            #[trigger] p[i] as int,
            #[trigger] p[j] as int,
        ) <==> comes_first(ks, p[i] as int, p[j] as int)) by {}
    }
}

/// The least element by a function is the one that a sort by that function puts first.
pub proof fn law_min_is_first_of_sorted<V: Ord>(ks: Seq<Vec<V>>, p: Seq<usize>, m: int)
    requires
        totally_ordered::<V>(),
        ks.len() <= usize::MAX,
        is_stable_order(ks, p),
        is_first_least(ks, m),
    ensures
        p[0] == m,
{
    lemma_permutation_covers(p, ks.len(), m);
    let k = choose|k: int| 0 <= k < ks.len() && #[trigger] p[k] == m;
    if k > 0 {
        assert(comes_first(ks, p[0] as int, p[k] as int));
        assert(!before(ks[p[0] as int]@, ks[m]@));
        assert(before(ks[m]@, ks[p[0] as int]@));
    }
}

/// The greatest element by a function is the one that a sort by that function puts last.
pub proof fn law_max_is_last_of_sorted<V: Ord>(ks: Seq<Vec<V>>, p: Seq<usize>, m: int)
    requires
        totally_ordered::<V>(),
        ks.len() <= usize::MAX,
        is_stable_order(ks, p),
        is_last_greatest(ks, m),
    ensures
        p.last() == m,
{
    lemma_permutation_covers(p, ks.len(), m);
    let k = choose|k: int| 0 <= k < ks.len() && #[trigger] p[k] == m;
    let last = ks.len() - 1;
    if k < last {
        assert(comes_first(ks, p[k] as int, p[last] as int));
        assert(!before(ks[m]@, ks[p[last] as int]@));
        assert(before(ks[p[last] as int]@, ks[m]@));
    }
}

/// The groups of an array, one after the other, are the sorted array.
pub proof fn law_groups_concatenate<V>(ys: Seq<V>, cs: Seq<usize>, gs: Seq<Vec<V>>)
    requires
        cut_at(ys, cs, gs),
    ensures
        gs.map_values(|g: Vec<V>| g@).flatten() == ys,
{
    lemma_concatenate(ys, cs, gs, gs.len() as int);
    let parts = gs.map_values(|g: Vec<V>| g@);
    assert(parts.take(gs.len() as int) =~= parts);
    assert(ys.take(ys.len() as int) =~= ys);
}

proof fn lemma_concatenate<V>(ys: Seq<V>, cs: Seq<usize>, gs: Seq<Vec<V>>, n: int)
    requires
        cut_at(ys, cs, gs),
        0 <= n <= gs.len(),
    ensures
        gs.map_values(|g: Vec<V>| g@).take(n).flatten() == ys.take(cs[n] as int),
    decreases n,
{
    let parts = gs.map_values(|g: Vec<V>| g@);
    if n == 0 {
        assert(parts.take(0) =~= Seq::<Seq<V>>::empty());
        assert(ys.take(0) =~= Seq::<V>::empty());
    } else {
        lemma_concatenate(ys, cs, gs, n - 1);
        assert(parts.take(n) =~= parts.take(n - 1).push(gs[n - 1]@));
        parts.take(n - 1).lemma_flatten_push(gs[n - 1]@);
        assert(ys.take(cs[n - 1] as int) + gs[n - 1]@ =~= ys.take(cs[n] as int));
    }
}

/// Sorting a sorted array changes nothing.
pub proof fn law_sort_is_idempotent<V: Ord>(xs: Seq<V>, ys: Seq<V>, zs: Seq<V>)
    requires
        totally_ordered::<V>(),
        xs.len() <= usize::MAX,
        sorted(xs, ys),
        sorted(ys, zs),
    ensures
        zs == ys,
{
    let p = choose|p: Seq<usize>| #[trigger] is_stable_value_order(xs, p) && ys == arranged(xs, p);
    let q = choose|q: Seq<usize>| #[trigger] is_stable_value_order(ys, q) && zs == arranged(ys, q);
    lemma_sorted_positions(xs, p, q, ys.len() as int);
    assert(zs =~= ys);
}

proof fn lemma_sorted_positions<V: Ord>(xs: Seq<V>, p: Seq<usize>, q: Seq<usize>, n: int)
    requires
        totally_ordered::<V>(),
        xs.len() <= usize::MAX,
        is_stable_value_order(xs, p),
        is_stable_value_order(arranged(xs, p), q),
        0 <= n <= xs.len(),
    ensures
        forall|i: int| 0 <= i < n ==> q[i] == i,
    decreases n,
{
    if n > 0 {
        lemma_sorted_positions(xs, p, q, n - 1);
        let ys = arranged(xs, p);
        let i = n - 1;
        lemma_permutation_covers(q, ys.len(), i);
        let k = choose|k: int| 0 <= k < ys.len() && #[trigger] q[k] == i;
        if k < i {
            assert(q[k] == k);
        }
        if k > i {
            let j = q[i] as int;
            if j < i {
                assert(q[j] == j);
            }
            assert(value_comes_first(ys, q[i] as int, q[k] as int));
            assert(value_comes_first(xs, p[i] as int, p[j] as int));
            lemma_rank(ys[i], ys[j], ys[i]);
        }
    }
}

/// Reversing an array twice changes nothing.
pub proof fn law_reverse_is_its_own_inverse<V>(xs: Seq<V>)
    ensures
        xs.reverse().reverse() == xs,
{
    assert(xs.reverse().reverse() =~= xs);
}

/// What is removed from the start of a string and what is left of it make up the string.
pub proof fn law_prefix_and_rest_make_up_the_string(s: Seq<char>, prefix: Seq<char>)
    requires
        has_prefix(s, prefix),
    ensures
        prefix + s.skip(prefix.len() as int) == s,
{
    assert(prefix + s.skip(prefix.len() as int) =~= s);
}

/// What is left of a string and what is removed from its end make up the string.
pub proof fn law_rest_and_suffix_make_up_the_string(s: Seq<char>, suffix: Seq<char>)
    requires
        has_suffix(s, suffix),
    ensures
        s.take(s.len() - suffix.len()) + suffix == s,
{
    assert(s.take(s.len() - suffix.len()) + suffix =~= s);
}

/// `v` is a string, and its text is `s`.
pub open spec fn is_text<V: ValT>(v: V, s: Seq<char>) -> bool {
    forall|o: Option<Seq<char>>| #[trigger] str_of(v, o) ==> o == Some(s)
}

/// `w` is a string made of what follows `t` in `s`.
pub open spec fn follows<V: ValT>(s: Seq<char>, t: Seq<char>, w: V) -> bool {
    exists|rest: Seq<char>| #[trigger] from_str(rest, w) && t + rest == s
}

/// `w` is a string made of what comes before `t` in `s`.
pub open spec fn precedes<V: ValT>(s: Seq<char>, t: Seq<char>, w: V) -> bool {
    exists|rest: Seq<char>| #[trigger] from_str(rest, w) && rest + t == s
}

/// On strings, `startswith` and `ltrimstr` give one output each.
/// If the first is true, then the argument and the second make up the input,
/// else the second is the input.
pub proof fn law_ltrimstr_removes_what_startswith_finds<V: ValT>(
    v: V,
    part: V,
    s: Seq<char>,
    t: Seq<char>,
    starts: ValR2<V>,
    trimmed: ValR2<V>,
)
    requires
        is_text(v, s),
        is_text(part, t),
        match starts {
            Ok(w) => starts_said(v, part, w),
            Err(e) => not_strings(v, part, e),
        },
        match trimmed {
            Ok(w) => left_trimmed(v, part, w),
            Err(e) => not_strings(v, part, e),
        },
    ensures
        starts matches Ok(b) && trimmed matches Ok(w) && if has_prefix(s, t) {
            from_bool(true, b) && follows(s, t, w)
        } else {
            from_bool(false, b) && cloned(v, w)
        },
{
    if has_prefix(s, t) {
        law_prefix_and_rest_make_up_the_string(s, t);
    }
}

/// On strings, `endswith` and `rtrimstr` give one output each.
/// If the first is true, then the second and the argument make up the input,
/// else the second is the input.
pub proof fn law_rtrimstr_removes_what_endswith_finds<V: ValT>(
    v: V,
    part: V,
    s: Seq<char>,
    t: Seq<char>,
    ends: ValR2<V>,
    trimmed: ValR2<V>,
)
    requires
        is_text(v, s),
        is_text(part, t),
        match ends {
            Ok(w) => ends_said(v, part, w),
            Err(e) => not_strings(v, part, e),
        },
        match trimmed {
            Ok(w) => right_trimmed(v, part, w),
            Err(e) => not_strings(v, part, e),
        },
    ensures
        ends matches Ok(b) && trimmed matches Ok(w) && if has_suffix(s, t) {
            from_bool(true, b) && precedes(s, t, w)
        } else {
            from_bool(false, b) && cloned(v, w)
        },
{
    if has_suffix(s, t) {
        law_rest_and_suffix_make_up_the_string(s, t);
    }
}

/// For JSON values: `startswith` gives a truth value `b`, and `ltrimstr` a string `r`.
/// If `b` is true, then `part` and `r` make up `v`, else `r` is `v`.
pub proof fn law_ltrimstr_on_json(
    v: String,
    part: String,
    starts: ValR2<Val>,
    trimmed: ValR2<Val>,
)
    requires
        match starts {
            Ok(w) => starts_said(Val::Str(v), Val::Str(part), w),
            Err(e) => not_strings(Val::Str(v), Val::Str(part), e),
        },
        match trimmed {
            Ok(w) => left_trimmed(Val::Str(v), Val::Str(part), w),
            Err(e) => not_strings(Val::Str(v), Val::Str(part), e),
        },
    ensures
        starts matches Ok(Val::Bool(b)) && trimmed matches Ok(Val::Str(r)) && if b {
            part@ + r@ == v@
        } else {
            r@ == v@
        },
{
    law_ltrimstr_removes_what_startswith_finds(
        Val::Str(v),
        Val::Str(part),
        v@,
        part@,
        starts,
        trimmed,
    );
}

/// For JSON values: `endswith` gives a truth value `b`, and `rtrimstr` a string `r`.
/// If `b` is true, then `r` and `part` make up `v`, else `r` is `v`.
pub proof fn law_rtrimstr_on_json(v: String, part: String, ends: ValR2<Val>, trimmed: ValR2<Val>)
    requires
        match ends {
            Ok(w) => ends_said(Val::Str(v), Val::Str(part), w),
            Err(e) => not_strings(Val::Str(v), Val::Str(part), e),
        },
        match trimmed {
            Ok(w) => right_trimmed(Val::Str(v), Val::Str(part), w),
            Err(e) => not_strings(Val::Str(v), Val::Str(part), e),
        },
    ensures
        ends matches Ok(Val::Bool(b)) && trimmed matches Ok(Val::Str(r)) && if b {
            r@ + part@ == v@
        } else {
            r@ == v@
        },
{
    law_rtrimstr_removes_what_endswith_finds(
        Val::Str(v),
        Val::Str(part),
        v@,
        part@,
        ends,
        trimmed,
    );
}

/// Every string starts with what it is put together from, at either end.
pub proof fn law_string_has_its_ends(s: Seq<char>, t: Seq<char>)
    ensures
        has_prefix(s + t, s),
        has_suffix(s + t, t),
{
    assert((s + t).subrange(0, s.len() as int) =~= s);
    assert((s + t).subrange(s.len() as int, (s + t).len() as int) =~= t);
}

/// Changing the case of a string forgets in which case its letters were before.
pub proof fn law_case_forgets_case(s: Seq<char>)
    ensures
        s.map_values(|c: char| upper(c)).map_values(|c: char| lower(c)) == s.map_values(
            |c: char| lower(c),
        ),
        s.map_values(|c: char| lower(c)).map_values(|c: char| upper(c)) == s.map_values(
            |c: char| upper(c),
        ),
{
    assert(s.map_values(|c: char| upper(c)).map_values(|c: char| lower(c)) =~= s.map_values(
        |c: char| lower(c),
    ));
    assert(s.map_values(|c: char| lower(c)).map_values(|c: char| upper(c)) =~= s.map_values(
        |c: char| upper(c),
    ));
}

proof fn lemma_spelled_from(s: Seq<char>, f: spec_fn(char) -> Seq<char>, i: int) -> (c: char)
    requires
        0 <= i < spelled(s, f).len(),
    ensures
        s.contains(c),
        f(c).contains(spelled(s, f)[i]),
    decreases s.len(),
{
    let head = spelled(s.drop_last(), f);
    if i < head.len() {
        let c = lemma_spelled_from(s.drop_last(), f, i);
        let k = choose|k: int| 0 <= k < s.drop_last().len() && s.drop_last()[k] == c;
        assert(s[k] == c);
        c
    } else {
        assert(f(s.last())[i - head.len()] == spelled(s, f)[i]);
        s.last()
    }
}

/// Text that has been escaped for HTML holds no character that could open or close a tag
/// or a quoted attribute.
pub proof fn law_html_holds_no_markup(s: Seq<char>, i: int)
    requires
        0 <= i < spelled(s, |c: char| html(c)).len(),
    ensures
        ({
            let x = spelled(s, |c: char| html(c))[i];
            x != '<' && x != '>' && x != '\'' && x != '"'
        }),
{
    let f = |c: char| html(c);
    let c = lemma_spelled_from(s, f, i);
    let x = spelled(s, f)[i];
    let k = choose|k: int| 0 <= k < html(c).len() && html(c)[k] == x;
    reveal_strlit("&lt;");
    reveal_strlit("&gt;");
    reveal_strlit("&amp;");
    reveal_strlit("&apos;");
    reveal_strlit("&quot;");
    assert(html(c)[k] == x);
}

/// Text that has been escaped for TSV holds no character that could end a field or a line.
pub proof fn law_tsv_holds_no_separator(s: Seq<char>, i: int)
    requires
        0 <= i < spelled(s, |c: char| tsv(c)).len(),
    ensures
        ({
            let x = spelled(s, |c: char| tsv(c))[i];
            x != '\t' && x != '\n' && x != '\r'
        }),
{
    let f = |c: char| tsv(c);
    let c = lemma_spelled_from(s, f, i);
    let x = spelled(s, f)[i];
    let k = choose|k: int| 0 <= k < tsv(c).len() && tsv(c)[k] == x;
    reveal_strlit("\\n");
    reveal_strlit("\\r");
    reveal_strlit("\\t");
    reveal_strlit("\\\\");
    assert(tsv(c)[k] == x);
}

/// Text that has been encoded for a URI holds only characters that stand for themselves there,
/// and percent signs.
pub proof fn law_uri_holds_no_reserved_character(bs: Seq<u8>, i: int)
    requires
        0 <= i < percent_encoded(bs).len(),
    ensures
        ({
            let x = percent_encoded(bs)[i];
            x == '%' || (x as u32 <= 0xff && unreserved(x as u8))
        }),
    decreases bs.len(),
{
    let head = percent_encoded(bs.drop_last());
    if i < head.len() {
        law_uri_holds_no_reserved_character(bs.drop_last(), i);
    } else {
        assert(percent(bs.last())[i - head.len()] == percent_encoded(bs)[i]);
    }
}

} // verus!
