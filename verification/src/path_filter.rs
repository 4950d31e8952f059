//! Selection of time series by paths: a path names a subscription (`vehicle_attitude`), or a
//! subscription and one of its field paths (`vehicle_attitude/q.00`). A series stays when some
//! path names its subscription, with the data the paths pick out of it.
use vstd::prelude::*;

use crate::parser::names_view;
use crate::text::str_eq;
use crate::tokenizer::chars_of;

verus! {

/// Whether text `a` comes before text `b`, character by character, a prefix first: the order
/// of `str`.
pub open spec fn text_lt(a: Seq<char>, b: Seq<char>) -> bool
    decreases a.len(),
{
    if a.len() == 0 {
        b.len() > 0
    } else if b.len() == 0 {
        false
    } else if a[0] != b[0] {
        a[0] < b[0]
    } else {
        text_lt(a.drop_first(), b.drop_first())
    }
}

/// Whether texts are in strictly increasing order, so each occurs once.
pub open spec fn strictly_sorted(s: Seq<Seq<char>>) -> bool {
    forall|i: int, j: int| 0 <= i < j < s.len() ==> text_lt(#[trigger] s[i], #[trigger] s[j])
}

/// No text comes before itself.
pub proof fn lemma_text_lt_irreflexive(a: Seq<char>)
    ensures
        !text_lt(a, a),
    decreases a.len(),
{
    if a.len() > 0 {
        lemma_text_lt_irreflexive(a.drop_first());
    }
}

/// Of two different texts, one comes before the other.
pub proof fn lemma_text_lt_total(a: Seq<char>, b: Seq<char>)
    requires
        a != b,
    ensures
        text_lt(a, b) || text_lt(b, a),
    decreases a.len(),
{
    if a.len() > 0 && b.len() > 0 && a[0] == b[0] {
        if a.drop_first() == b.drop_first() {
            assert(a =~= seq![a[0]] + a.drop_first());
            assert(b =~= seq![b[0]] + b.drop_first());
        }
        lemma_text_lt_total(a.drop_first(), b.drop_first());
    } else if a.len() == 0 && b.len() == 0 {
        assert(a =~= b);
    }
}

/// The order of texts is transitive.
pub proof fn lemma_text_lt_transitive(a: Seq<char>, b: Seq<char>, c: Seq<char>)
    requires
        text_lt(a, b),
        text_lt(b, c),
    ensures
        text_lt(a, c),
    decreases a.len(),
{
    if a.len() > 0 && b.len() > 0 && c.len() > 0 && a[0] == b[0] && b[0] == c[0] {
        lemma_text_lt_transitive(a.drop_first(), b.drop_first(), c.drop_first());
    }
}

/// What a sequence holds with one more text at its end.
proof fn lemma_push_contains(s: Seq<Seq<char>>, x: Seq<char>)
    ensures
        forall|q: Seq<char>| s.push(x).contains(q) <==> (s.contains(q) || q == x),
{
    assert forall|q: Seq<char>| s.push(x).contains(q) <==> (s.contains(q) || q == x) by {
        if s.contains(q) {
            let j = choose|j: int| 0 <= j < s.len() && s[j] == q;
            assert(s.push(x)[j] == q);
        }
        if q == x {
            assert(s.push(x)[s.len() as int] == q);
        }
        if s.push(x).contains(q) {
            let j = choose|j: int| 0 <= j < s.len() + 1 && s.push(x)[j] == q;
            if j < s.len() {
                assert(s[j] == q);
            }
        }
    }
}

/// What a sequence holds with one more text put in at `i`.
proof fn lemma_insert_contains(s: Seq<Seq<char>>, i: int, x: Seq<char>)
    requires
        0 <= i <= s.len(),
    ensures
        forall|q: Seq<char>| s.insert(i, x).contains(q) <==> (s.contains(q) || q == x),
{
    s.insert_ensures(i, x);
    let w = s.insert(i, x);
    assert forall|q: Seq<char>| w.contains(q) <==> (s.contains(q) || q == x) by {
        if s.contains(q) {
            let j = choose|j: int| 0 <= j < s.len() && s[j] == q;
            if j < i {
                assert(w[j] == q);
            } else {
                assert(w[j + 1] == q);
            }
        }
        if q == x {
            assert(w[i] == q);
        }
        if w.contains(q) {
            let j = choose|j: int| 0 <= j < w.len() && w[j] == q;
            if j < i {
                assert(s[j] == q);
            } else if j > i {
                assert(w[(j - 1) + 1] == s[j - 1]);
            }
        }
    }
}

/// Whether the characters `x` come before the characters `y`.
fn text_less(x: &Vec<char>, y: &Vec<char>) -> (r: bool)
    ensures
        r == text_lt(x@, y@),
{
    let mut i: usize = 0;
    assert(x@.skip(0) =~= x@);
    assert(y@.skip(0) =~= y@);
    while i < x.len() && i < y.len() && x[i] == y[i]
        invariant
            i <= x@.len(),
            i <= y@.len(),
            text_lt(x@, y@) == text_lt(x@.skip(i as int), y@.skip(i as int)),
        decreases x@.len() - i,
    {
        assert(x@.skip(i as int).drop_first() =~= x@.skip(i + 1));
        assert(y@.skip(i as int).drop_first() =~= y@.skip(i + 1));
        i += 1;
    }
    let ghost a = x@.skip(i as int);
    let ghost b = y@.skip(i as int);
    if i == x.len() {
        assert(a.len() == 0);
        i < y.len()
    } else if i == y.len() {
        assert(a.len() > 0 && b.len() == 0);
        false
    } else {
        assert(a[0] == x@[i as int] && b[0] == y@[i as int]);
        x[i] < y[i]
    }
}

/// Whether text `a` comes before text `b`.
pub fn str_less(a: &str, b: &str) -> (r: bool)
    ensures
        r == text_lt(a@, b@),
{
    text_less(&chars_of(a), &chars_of(b))
}

/// In a strictly sorted sequence, the first text comes before every other, and none other
/// equals it.
proof fn lemma_sorted_first(a: Seq<Seq<char>>)
    requires
        strictly_sorted(a),
        a.len() > 0,
    ensures
        forall|q: Seq<char>| a.drop_first().contains(q) <==> (a.contains(q) && q != a[0]),
        forall|q: Seq<char>| a.contains(q) && q != a[0] ==> text_lt(a[0], q),
{
    assert forall|q: Seq<char>| a.drop_first().contains(q) <==> (a.contains(q) && q != a[0]) by {
        if a.drop_first().contains(q) {
            let j = choose|j: int| 0 <= j < a.len() - 1 && a.drop_first()[j] == q;
            assert(a[j + 1] == q);
            assert(text_lt(a[0], a[j + 1]));
            lemma_text_lt_irreflexive(a[0]);
        }
        if a.contains(q) && q != a[0] {
            let j = choose|j: int| 0 <= j < a.len() && a[j] == q;
            assert(a.drop_first()[j - 1] == q);
        }
    }
    assert forall|q: Seq<char>| a.contains(q) && q != a[0] implies text_lt(a[0], q) by {
        let j = choose|j: int| 0 <= j < a.len() && a[j] == q;
        assert(j != 0);
        assert(text_lt(a[0], a[j]));
    }
}

/// Texts have one increasing order: two strictly sorted sequences that hold the same texts
/// are the same sequence. So the paths are walked in one order, whatever order they come in.
pub proof fn sorted_order_unique(a: Seq<Seq<char>>, b: Seq<Seq<char>>)
    requires
        strictly_sorted(a),
        strictly_sorted(b),
        forall|q: Seq<char>| a.contains(q) <==> b.contains(q),
    ensures
        a == b,
    decreases a.len(),
{
    if a.len() == 0 {
        if b.len() > 0 {
            assert(b.contains(b[0]));
        }
        assert(a =~= b);
    } else {
        assert(a.contains(a[0]));
        assert(b.len() > 0);
        assert(b.contains(b[0]));
        lemma_sorted_first(a);
        lemma_sorted_first(b);
        if a[0] != b[0] {
            assert(text_lt(a[0], b[0]));
            assert(text_lt(b[0], a[0]));
            lemma_text_lt_transitive(a[0], b[0], a[0]);
            lemma_text_lt_irreflexive(a[0]);
        }
        let ta = a.drop_first();
        let tb = b.drop_first();
        assert forall|i: int, j: int| 0 <= i < j < ta.len() implies text_lt(#[trigger] ta[i], #[trigger] ta[j]) by {
            assert(text_lt(a[i + 1], a[j + 1]));
        }
        assert forall|i: int, j: int| 0 <= i < j < tb.len() implies text_lt(#[trigger] tb[i], #[trigger] tb[j]) by {
            assert(text_lt(b[i + 1], b[j + 1]));
        }
        assert forall|q: Seq<char>| ta.contains(q) <==> tb.contains(q) by {
            assert(ta.contains(q) <==> (a.contains(q) && q != a[0]));
            assert(tb.contains(q) <==> (b.contains(q) && q != b[0]));
        }
        sorted_order_unique(ta, tb);
        assert(a =~= seq![a[0]] + ta);
        assert(b =~= seq![b[0]] + tb);
    }
}

/// The paths, each once, in increasing order, as a `BTreeSet` of them is walked.
pub fn sorted_unique_paths(paths: &Vec<String>) -> (r: Vec<String>)
    ensures
        strictly_sorted(names_view(r@)),
        forall|p: Seq<char>| names_view(r@).contains(p) <==> names_view(paths@).contains(p),
{
    let mut out: Vec<String> = Vec::new();
    let mut k: usize = 0;
    while k < paths.len()
        invariant
            k <= paths@.len(),
            strictly_sorted(names_view(out@)),
            forall|p: Seq<char>| names_view(out@).contains(p) <==> names_view(paths@.take(k as int)).contains(p),
        decreases paths@.len() - k,
    {
        let ghost old_out = names_view(out@);
        assert(forall|q: Seq<char>| old_out.contains(q) <==> names_view(paths@.take(k as int)).contains(q));
        let p = &paths[k];
        let mut i: usize = 0;
        while i < out.len() && str_less(out[i].as_str(), p.as_str())
            invariant
                i <= out@.len(),
                names_view(out@) == old_out,
                forall|j: int| 0 <= j < i ==> text_lt(#[trigger] names_view(out@)[j], p@),
            decreases out@.len() - i,
        {
            i += 1;
        }
        let present = i < out.len() && str_eq(out[i].as_str(), p.as_str());
        if !present {
            proof {
                let v = names_view(out@);
                if i < v.len() {
                    lemma_text_lt_total(v[i as int], p@);
                    assert forall|j: int| i <= j < v.len() implies text_lt(p@, #[trigger] v[j]) by {
                        if j > i {
                            lemma_text_lt_transitive(p@, v[i as int], v[j]);
                        }
                    }
                }
            }
            out.insert(i, p.clone());
            proof {
                let v = old_out;
                let w = names_view(out@);
                assert(w =~= v.insert(i as int, p@));
                v.insert_ensures(i as int, p@);
                assert forall|j: int| i < j < w.len() implies #[trigger] w[j] == v[j - 1] by {
                    assert(v.insert(i as int, p@)[(j - 1) + 1] == v[j - 1]);
                }
                assert forall|a: int, b: int| 0 <= a < b < w.len() implies text_lt(#[trigger] w[a], #[trigger] w[b]) by {
                    if a < i && b < i {
                        assert(w[a] == v[a] && w[b] == v[b]);
                    } else if a < i && b == i {
                    } else if a < i && b > i {
                        assert(w[a] == v[a] && w[b] == v[b - 1]);
                    } else if a == i {
                        assert(w[b] == v[b - 1]);
                    } else {
                        assert(w[a] == v[a - 1] && w[b] == v[b - 1]);
                    }
                }
            }
        }
        proof {
            let w = names_view(out@);
            let prev = names_view(paths@.take(k as int));
            let t = names_view(paths@.take(k + 1));
            assert(t =~= prev.push(p@));
            lemma_push_contains(prev, p@);
            if present {
                assert(w == old_out);
                assert(old_out[i as int] == p@);
                assert(old_out.contains(p@));
            } else {
                assert(w =~= old_out.insert(i as int, p@));
                lemma_insert_contains(old_out, i as int, p@);
            }
            assert forall|q: Seq<char>| w.contains(q) <==> t.contains(q) by {
                assert(old_out.contains(q) <==> prev.contains(q));
            }
        }
        k += 1;
    }
    assert(paths@.take(k as int) =~= paths@);
    out
}

/// Where the first `/` of `p` stands, if it has one.
pub open spec fn slash_index(p: Seq<char>) -> Option<nat>
    decreases p.len(),
{
    if p.len() == 0 {
        None
    } else if p[0] == '/' {
        Some(0)
    } else {
        match slash_index(p.drop_first()) {
            Some(i) => Some(i + 1),
            None => None,
        }
    }
}

/// The subscription a path names: what comes before its first `/`, or all of it.
pub open spec fn path_subscription(p: Seq<char>) -> Seq<char> {
    match slash_index(p) {
        Some(i) => p.take(i as int),
        None => p,
    }
}

/// The field path a path names, from its first `/` on; `None` when it names a whole
/// subscription.
pub open spec fn path_field(p: Seq<char>) -> Option<Seq<char>> {
    match slash_index(p) {
        Some(i) => Some(p.skip(i as int)),
        None => None,
    }
}

/// The indices of the data paths equal to `field`, in order.
pub open spec fn matching(data: Seq<Seq<char>>, field: Seq<char>) -> Seq<usize>
    decreases data.len(),
{
    if data.len() == 0 {
        Seq::empty()
    } else if data.last() == field {
        matching(data.drop_last(), field).push((data.len() - 1) as usize)
    } else {
        matching(data.drop_last(), field)
    }
}

/// The indices `0` to `n - 1`.
pub open spec fn all_indices(n: nat) -> Seq<usize> {
    Seq::new(n, |j: int| j as usize)
}

/// What the paths `ps`, taken in turn, select of a series with subscription `key` and data
/// paths `data`: whether some path names the subscription, and the indices of the data kept.
/// A path naming the subscription alone keeps all the data, in place of what earlier paths
/// picked; a path naming a field adds the data under that field.
pub open spec fn select_from(key: Seq<char>, data: Seq<Seq<char>>, ps: Seq<Seq<char>>) -> (bool, Seq<usize>)
    decreases ps.len(),
{
    if ps.len() == 0 {
        (false, Seq::empty())
    } else {
        let prev = select_from(key, data, ps.drop_last());
        let p = ps.last();
        if path_subscription(p) == key {
            match path_field(p) {
                Some(f) => (true, prev.1 + matching(data, f)),
                None => (true, all_indices(data.len())),
            }
        } else {
            prev
        }
    }
}

/// The series that stay, by index, each with the indices of the data it keeps: those some path
/// names and that keep some data.
pub open spec fn kept_entries(
    keys: Seq<Seq<char>>,
    datas: Seq<Seq<Seq<char>>>,
    ps: Seq<Seq<char>>,
) -> Seq<(usize, Seq<usize>)>
    decreases keys.len(),
{
    if keys.len() == 0 {
        Seq::empty()
    } else {
        let n = (keys.len() - 1) as int;
        let prev = kept_entries(keys.drop_last(), datas, ps);
        let sel = select_from(keys[n], datas[n], ps);
        if sel.0 && sel.1.len() > 0 {
            prev.push((n as usize, sel.1))
        } else {
            prev
        }
    }
}

/// The characters of each of a sequence of character vectors.
pub open spec fn chars_view(v: Seq<Vec<char>>) -> Seq<Seq<char>> {
    v.map_values(|x: Vec<char>| x@)
}

/// Where the first `/` stands, when the characters before `i` are none.
proof fn lemma_slash_index(p: Seq<char>, i: int)
    requires
        0 <= i <= p.len(),
        forall|j: int| 0 <= j < i ==> p[j] != '/',
    ensures
        i < p.len() && p[i] == '/' ==> slash_index(p) == Some(i as nat),
        i == p.len() ==> slash_index(p) is None,
    decreases i,
{
    if i > 0 {
        lemma_slash_index(p.drop_first(), i - 1);
    }
}

/// Whether two character vectors are equal.
fn chars_equal(a: &Vec<char>, b: &Vec<char>) -> (r: bool)
    ensures
        r == (a@ == b@),
{
    if a.len() != b.len() {
        return false;
    }
    let mut i: usize = 0;
    while i < a.len()
        invariant
            a@.len() == b@.len(),
            i <= a@.len(),
            forall|k: int| 0 <= k < i ==> a@[k] == b@[k],
        decreases a@.len() - i,
    {
        if a[i] != b[i] {
            return false;
        }
        i += 1;
    }
    assert(a@ =~= b@);
    true
}

/// The characters of `p` from `start` to `end`.
fn chars_range(p: &Vec<char>, start: usize, end: usize) -> (r: Vec<char>)
    requires
        start <= end <= p@.len(),
    ensures
        r@ == p@.subrange(start as int, end as int),
{
    let mut out: Vec<char> = Vec::new();
    let mut i = start;
    while i < end
        invariant
            start <= i <= end <= p@.len(),
            out@ == p@.subrange(start as int, i as int),
        decreases end - i,
    {
        out.push(p[i]);
        i += 1;
        assert(out@ =~= p@.subrange(start as int, i as int));
    }
    out
}

/// The subscription a path names, and the field path it names, if any.
fn split_path(p: &Vec<char>) -> (r: (Vec<char>, Option<Vec<char>>))
    ensures
        r.0@ == path_subscription(p@),
        match path_field(p@) {
            Some(f) => r.1 matches Some(v) && v@ == f,
            None => r.1 is None,
        },
{
    let mut i: usize = 0;
    while i < p.len() && p[i] != '/'
        invariant
            i <= p@.len(),
            forall|j: int| 0 <= j < i ==> p@[j] != '/',
        decreases p@.len() - i,
    {
        i += 1;
    }
    proof {
        lemma_slash_index(p@, i as int);
    }
    if i < p.len() {
        let sub = chars_range(p, 0, i);
        let field = chars_range(p, i, p.len());
        assert(p@.subrange(0, i as int) =~= p@.take(i as int));
        assert(p@.subrange(i as int, p@.len() as int) =~= p@.skip(i as int));
        (sub, Some(field))
    } else {
        let sub = chars_range(p, 0, p.len());
        assert(p@.subrange(0, p@.len() as int) =~= p@);
        (sub, None)
    }
}

/// The indices of the data paths equal to `field`, in order.
fn matching_indices(data: &Vec<Vec<char>>, field: &Vec<char>) -> (r: Vec<usize>)
    ensures
        r@ == matching(chars_view(data@), field@),
{
    let ghost dv = chars_view(data@);
    let mut out: Vec<usize> = Vec::new();
    let mut j: usize = 0;
    assert(dv.take(0) =~= Seq::<Seq<char>>::empty());
    while j < data.len()
        invariant
            j <= data@.len(),
            dv == chars_view(data@),
            out@ == matching(dv.take(j as int), field@),
        decreases data@.len() - j,
    {
        assert(dv.take(j + 1).drop_last() =~= dv.take(j as int));
        assert(dv.take(j + 1).last() == data@[j as int]@);
        if chars_equal(&data[j], field) {
            out.push(j);
        }
        j += 1;
    }
    assert(dv.take(j as int) =~= dv);
    out
}

/// What the split paths select of a series with subscription `key` and data paths `data`.
fn select_for(key: &Vec<char>, data: &Vec<Vec<char>>, parts: &Vec<(Vec<char>, Option<Vec<char>>)>, Ghost(ps): Ghost<Seq<Seq<char>>>) -> (r: (bool, Vec<usize>))
    requires
        parts@.len() == ps.len(),
        forall|t: int| 0 <= t < ps.len() ==> (#[trigger] parts@[t]).0@ == path_subscription(ps[t]),
        forall|t: int| 0 <= t < ps.len() ==> match path_field(ps[t]) {
            Some(f) => (#[trigger] parts@[t]).1 matches Some(v) && v@ == f,
            None => parts@[t].1 is None,
        },
    ensures
        (r.0, r.1@) == select_from(key@, chars_view(data@), ps),
{
    let ghost dv = chars_view(data@);
    let mut retained = false;
    let mut kept: Vec<usize> = Vec::new();
    let mut t: usize = 0;
    assert(ps.take(0) =~= Seq::<Seq<char>>::empty());
    while t < parts.len()
        invariant
            t <= parts@.len(),
            parts@.len() == ps.len(),
            dv == chars_view(data@),
            forall|u: int| 0 <= u < ps.len() ==> (#[trigger] parts@[u]).0@ == path_subscription(ps[u]),
            forall|u: int| 0 <= u < ps.len() ==> match path_field(ps[u]) {
                Some(f) => (#[trigger] parts@[u]).1 matches Some(v) && v@ == f,
                None => parts@[u].1 is None,
            },
            (retained, kept@) == select_from(key@, dv, ps.take(t as int)),
        decreases parts@.len() - t,
    {
        assert(ps.take(t + 1).drop_last() =~= ps.take(t as int));
        assert(ps.take(t + 1).last() == ps[t as int]);
        let part = &parts[t];
        if chars_equal(&part.0, key) {
            retained = true;
            match &part.1 {
                Some(field) => {
                    let m = matching_indices(data, field);
                    let mut k: usize = 0;
                    let ghost before = kept@;
                    while k < m.len()
                        invariant
                            k <= m@.len(),
                            kept@ == before + m@.take(k as int),
                        decreases m@.len() - k,
                    {
                        kept.push(m[k]);
                        k += 1;
                        assert(kept@ =~= before + m@.take(k as int));
                    }
                    assert(m@.take(k as int) =~= m@);
                },
                None => {
                    let mut all: Vec<usize> = Vec::new();
                    let mut k: usize = 0;
                    while k < data.len()
                        invariant
                            k <= data@.len(),
                            all@ == all_indices(k as nat),
                        decreases data@.len() - k,
                    {
                        all.push(k);
                        k += 1;
                        assert(all@ =~= all_indices(k as nat));
                    }
                    kept = all;
                },
            }
        }
        t += 1;
    }
    assert(ps.take(t as int) =~= ps);
    (retained, kept)
}

/// Which series the paths select: given each series' subscription name `keys[e]` and the paths
/// of its data `entry_paths[e]`, the series that stay, by index, each with the indices of the
/// data it keeps. The paths are taken each once, in increasing order; a path is a subscription
/// name, or a subscription name, `/` and a field path that is compared with the data paths
/// from its `/` on. A series stays when a path names its subscription and it keeps some data.
pub fn select_entries(keys: &Vec<String>, entry_paths: &Vec<Vec<String>>, paths: &Vec<String>) -> (kept: Vec<(usize, Vec<usize>)>)
    requires
        keys@.len() == entry_paths@.len(),
    ensures
        exists|ps: Seq<Seq<char>>|
            {
                &&& strictly_sorted(ps)
                &&& forall|p: Seq<char>| ps.contains(p) <==> names_view(paths@).contains(p)
                &&& kept@.map_values(|x: (usize, Vec<usize>)| (x.0, x.1@)) == kept_entries(
                    names_view(keys@),
                    entry_paths@.map_values(|d: Vec<String>| names_view(d@)),
                    ps,
                )
            },
{
    let sorted = sorted_unique_paths(paths);
    let ghost ps = names_view(sorted@);
    let mut parts: Vec<(Vec<char>, Option<Vec<char>>)> = Vec::new();
    let mut t: usize = 0;
    while t < sorted.len()
        invariant
            t <= sorted@.len(),
            ps == names_view(sorted@),
            parts@.len() == t,
            forall|u: int| 0 <= u < t ==> (#[trigger] parts@[u]).0@ == path_subscription(ps[u]),
            forall|u: int| 0 <= u < t ==> match path_field(ps[u]) {
                Some(f) => (#[trigger] parts@[u]).1 matches Some(v) && v@ == f,
                None => parts@[u].1 is None,
            },
        decreases sorted@.len() - t,
    {
        let part = split_path(&chars_of(sorted[t].as_str()));
        parts.push(part);
        t += 1;
    }
    let ghost kv = names_view(keys@);
    let ghost dvs = entry_paths@.map_values(|d: Vec<String>| names_view(d@));
    let mut kept: Vec<(usize, Vec<usize>)> = Vec::new();
    let mut e: usize = 0;
    assert(kv.take(0) =~= Seq::<Seq<char>>::empty());
    while e < keys.len()
        invariant
            e <= keys@.len(),
            keys@.len() == entry_paths@.len(),
            kv == names_view(keys@),
            dvs == entry_paths@.map_values(|d: Vec<String>| names_view(d@)),
            parts@.len() == ps.len(),
            forall|u: int| 0 <= u < ps.len() ==> (#[trigger] parts@[u]).0@ == path_subscription(ps[u]),
            forall|u: int| 0 <= u < ps.len() ==> match path_field(ps[u]) {
                Some(f) => (#[trigger] parts@[u]).1 matches Some(v) && v@ == f,
                None => parts@[u].1 is None,
            },
            kept@.map_values(|x: (usize, Vec<usize>)| (x.0, x.1@)) == kept_entries(kv.take(e as int), dvs, ps),
        decreases keys@.len() - e,
    {
        let key = chars_of(keys[e].as_str());
        let mut data: Vec<Vec<char>> = Vec::new();
        let mut d: usize = 0;
        while d < entry_paths[e].len()
            invariant
                e < entry_paths@.len(),
                d <= entry_paths@[e as int]@.len(),
                chars_view(data@) == names_view(entry_paths@[e as int]@).take(d as int),
            decreases entry_paths@[e as int]@.len() - d,
        {
            let ghost prev = data@;
            let c = chars_of(entry_paths[e][d].as_str());
            data.push(c);
            assert(data@ =~= prev.push(c));
            assert(chars_view(data@) =~= chars_view(prev).push(c@));
            assert(names_view(entry_paths@[e as int]@).take(d + 1) =~= names_view(
                entry_paths@[e as int]@,
            ).take(d as int).push(entry_paths@[e as int]@[d as int]@));
            d += 1;
        }
        assert(chars_view(data@) =~= dvs[e as int]);
        let sel = select_for(&key, &data, &parts, Ghost(ps));
        let ghost before = kept@;
        assert(kv.take(e + 1).drop_last() =~= kv.take(e as int));
        assert(kv.take(e + 1)[e as int] == keys@[e as int]@);
        if sel.0 && sel.1.len() > 0 {
            kept.push((e, sel.1));
            assert(kept@.map_values(|x: (usize, Vec<usize>)| (x.0, x.1@)) =~= before.map_values(
                |x: (usize, Vec<usize>)| (x.0, x.1@),
            ).push((e, sel.1@)));
        }
        e += 1;
    }
    assert(kv.take(e as int) =~= kv);
    kept
}

} // verus!
