//! The borrow checker's environment: which places have been moved out of
//! (and into which callee), and the simple declared types of bindings.
//!
//! A place is a binding followed by field (or index) segments, written with
//! dots: `a.b.c`. Two places overlap when one is a prefix of the other, so
//! moving `a.b` makes `a`, `a.b` and `a.b.c` unusable while `a.x` stays
//! live. Rebinding a place clears the moves recorded at it and below it.

use vstd::prelude::*;
use vstd::string::*;
use crate::coherence::TypeExpr;
use crate::text::{join, str_eq, string_push, chars_vec};

verus! {

/// One recorded move: the moved binding and the callee it moved into.
#[derive(Debug, Clone)]
pub struct MoveRecord {
    pub binding: String,
    pub callee: String,
}

/// A move record as text: `(binding, callee)`.
pub open spec fn move_view(r: MoveRecord) -> (Seq<char>, Seq<char>) {
    (r.binding@, r.callee@)
}

// ---------------------------------------------------------------------------
// Places
// ---------------------------------------------------------------------------

/// The segments of `s` between dots (what `str::split('.')` yields): the
/// empty string gives one empty segment, and every dot starts a new one.
pub open spec fn split_dots(s: Seq<char>) -> Seq<Seq<char>>
    decreases s.len(),
{
    if s.len() == 0 {
        seq![Seq::empty()]
    } else {
        let pre = split_dots(s.drop_last());
        if s.last() == '.' {
            pre.push(Seq::empty())
        } else {
            pre.update(pre.len() - 1, pre.last().push(s.last()))
        }
    }
}

/// Whether `s` holds no dot.
pub open spec fn dot_free(s: Seq<char>) -> bool {
    forall|i: int| 0 <= i < s.len() ==> s[i] != '.'
}

/// Whether `a` is a prefix of `b`.
pub open spec fn is_prefix(a: Seq<Seq<char>>, b: Seq<Seq<char>>) -> bool {
    a.len() <= b.len() && b.subrange(0, a.len() as int) == a
}

/// Whether two places overlap: equal, or one a prefix of the other.
pub open spec fn overlapping(a: Seq<Seq<char>>, b: Seq<Seq<char>>) -> bool {
    a == b || is_prefix(b, a) || is_prefix(a, b)
}

/// The views of a list of strings.
pub open spec fn place_views(v: Seq<String>) -> Seq<Seq<char>> {
    v.map_values(|s: String| s@)
}

/// Splitting never yields an empty list.
pub proof fn lemma_split_nonempty(s: Seq<char>)
    ensures
        split_dots(s).len() >= 1,
    decreases s.len(),
{
    if s.len() > 0 {
        lemma_split_nonempty(s.drop_last());
    }
}

/// A dot-free string is one segment.
pub proof fn lemma_split_dot_free(s: Seq<char>)
    requires
        dot_free(s),
    ensures
        split_dots(s) == seq![s],
    decreases s.len(),
{
    if s.len() > 0 {
        let p = s.drop_last();
        assert(dot_free(p));
        lemma_split_dot_free(p);
        assert(s.last() != '.');
        assert(p.push(s.last()) =~= s);
        assert(split_dots(s) =~= seq![s]);
    } else {
        assert(s =~= Seq::<char>::empty());
    }
}

/// Splitting `x.y` for a dot-free `y` splits `x` and adds `y`.
pub proof fn lemma_split_append(x: Seq<char>, y: Seq<char>)
    requires
        dot_free(y),
    ensures
        split_dots(x + seq!['.'] + y) == split_dots(x).push(y),
    decreases y.len(),
{
    if y.len() == 0 {
        assert(x + seq!['.'] + y =~= x.push('.'));
        assert((x.push('.')).drop_last() =~= x);
        assert(y =~= Seq::<char>::empty());
    } else {
        let y0 = y.drop_last();
        assert(dot_free(y0));
        lemma_split_append(x, y0);
        let s = x + seq!['.'] + y;
        assert(s.drop_last() =~= x + seq!['.'] + y0);
        assert(s.last() == y.last());
        assert(y0.push(y.last()) =~= y);
        let pre = split_dots(s.drop_last());
        assert(pre == split_dots(x).push(y0));
        assert(split_dots(s) =~= split_dots(x).push(y));
    }
}

/// Joining the segments of a place with dots and splitting again gives the
/// place back, when no segment holds a dot.
pub proof fn lemma_split_join(p: Seq<Seq<char>>)
    requires
        p.len() >= 1,
        forall|i: int| 0 <= i < p.len() ==> dot_free(#[trigger] p[i]),
    ensures
        split_dots(join(p, "."@)) == p,
    decreases p.len(),
{
    reveal_strlit(".");
    if p.len() == 1 {
        lemma_split_dot_free(p[0]);
        assert(seq![p[0]] =~= p);
    } else {
        let q = p.drop_last();
        lemma_split_join(q);
        assert("."@ =~= seq!['.']);
        assert(join(p, "."@) == join(q, "."@) + "."@ + p.last());
        lemma_split_append(join(q, "."@), p.last());
        assert(q.push(p.last()) =~= p);
    }
}

/// The first segment of a split: the whole string when there is one
/// segment, else a prefix of the string followed by a dot.
pub proof fn lemma_split_first(k: Seq<char>)
    ensures
        split_dots(k).len() == 1 ==> split_dots(k)[0] == k,
        split_dots(k).len() > 1 ==> ({
            let s0 = split_dots(k)[0];
            k.len() > s0.len() && k.subrange(0, s0.len() as int) == s0 && k[s0.len() as int] == '.'
        }),
    decreases k.len(),
{
    lemma_split_nonempty(k);
    if k.len() > 0 {
        let d = k.drop_last();
        lemma_split_first(d);
        lemma_split_nonempty(d);
        let pre = split_dots(d);
        if k.last() == '.' {
            assert(split_dots(k)[0] == pre[0]);
            if pre.len() == 1 {
                assert(k.subrange(0, d.len() as int) =~= d);
            } else {
                let s0 = pre[0];
                assert(k.subrange(0, s0.len() as int) =~= d.subrange(0, s0.len() as int));
            }
        } else {
            if pre.len() == 1 {
                assert(d.push(k.last()) =~= k);
            } else {
                assert(split_dots(k)[0] == pre[0]);
                let s0 = pre[0];
                assert(k.subrange(0, s0.len() as int) =~= d.subrange(0, s0.len() as int));
            }
        }
    }
}

/// A place that was moved reads as moved: after a move is recorded at the
/// text of a place whose segments hold no dot, some recorded key overlaps
/// that place.
pub proof fn lemma_moved_place_reads_moved(
    m: Map<Seq<char>, (Seq<char>, Seq<char>)>,
    place: Seq<Seq<char>>,
    callee: Seq<char>,
)
    requires
        place.len() >= 1,
        forall|i: int| 0 <= i < place.len() ==> dot_free(#[trigger] place[i]),
    ensures
        ({
            let b = join(place, "."@);
            exists|k: Seq<char>|
                m.insert(b, (b, callee)).contains_key(k) && #[trigger] overlapping(split_dots(k), place)
        }),
{
    let b = join(place, "."@);
    lemma_split_join(place);
    assert(m.insert(b, (b, callee)).contains_key(b));
    assert(overlapping(split_dots(b), place));
}

/// Rebinding a binding clears it: once the moves that a dot-free binding
/// covers are forgotten, no remaining key overlaps the binding.
pub proof fn lemma_rebind_clears<V>(m: Map<Seq<char>, V>, b: Seq<char>)
    requires
        dot_free(b),
    ensures
        forall|k: Seq<char>| #[trigger] without_covered(m, b).contains_key(k)
            ==> !overlapping(split_dots(k), seq![b]),
{
    assert forall|k: Seq<char>| #[trigger] without_covered(m, b).contains_key(k)
        implies !overlapping(split_dots(k), seq![b]) by {
        lemma_split_first(k);
        lemma_split_nonempty(k);
        let s = split_dots(k);
        if overlapping(s, seq![b]) {
            if s.len() == 1 {
                assert(s[0] == seq![b][0]);
                assert(covers(b, k));
            } else {
                assert(is_prefix(seq![b], s));
                assert(s.subrange(0, 1)[0] == s[0]);
                assert(s[0] == b);
                assert(covers(b, k));
            }
        }
    }
}

/// The text of a place: its segments joined with dots.
pub fn format_place(place: &[String]) -> (s: String)
    ensures
        s@ == join(place_views(place@), "."@),
{
    let mut out = String::new();
    let mut i: usize = 0;
    while i < place.len()
        invariant
            i <= place@.len(),
            out@ == join(place_views(place@.subrange(0, i as int)), "."@),
        decreases place@.len() - i,
    {
        if i > 0 {
            out.append(".");
        }
        out.append(place[i].as_str());
        proof {
            let pre = place_views(place@.subrange(0, i as int + 1));
            assert(pre.drop_last() =~= place_views(place@.subrange(0, i as int)));
            assert(pre.last() == place@[i as int]@);
            if i == 0 {
                assert(pre.len() == 1);
                assert(out@ =~= pre[0]);
            }
        }
        i = i + 1;
    }
    assert(place@.subrange(0, i as int) =~= place@);
    out
}

/// The segments of a place's text.
pub fn split_place(place: &str) -> (v: Vec<String>)
    ensures
        place_views(v@) == split_dots(place@),
{
    let chars = chars_vec(place);
    let mut done: Vec<String> = Vec::new();
    let mut cur = String::new();
    let mut i: usize = 0;
    assert(place@.subrange(0, 0) =~= Seq::<char>::empty());
    assert(place_views(done@).push(cur@) =~= split_dots(Seq::<char>::empty()));
    while i < chars.len()
        invariant
            chars@ == place@,
            i <= chars@.len(),
            place_views(done@).push(cur@) == split_dots(place@.subrange(0, i as int)),
        decreases chars@.len() - i,
    {
        let c = chars[i];
        let ghost before = place_views(done@).push(cur@);
        proof {
            let pre = place@.subrange(0, i as int + 1);
            assert(pre.drop_last() =~= place@.subrange(0, i as int));
            assert(pre.last() == c);
        }
        if c == '.' {
            let ghost d0 = done@;
            let seg = cur;
            done.push(seg);
            cur = String::new();
            assert(done@ == d0.push(seg));
            assert(place_views(done@).push(cur@) =~= before.push(Seq::<char>::empty()));
        } else {
            string_push(&mut cur, c);
            assert(place_views(done@).push(cur@) =~= before.update(
                before.len() - 1,
                before.last().push(c),
            ));
        }
        i = i + 1;
    }
    assert(place@.subrange(0, i as int) =~= place@);
    let ghost d1 = done@;
    done.push(cur);
    assert(place_views(done@) =~= place_views(d1).push(cur@));
    done
}

/// Whether `a` is a prefix of `b`, segment by segment.
fn places_prefix(a: &[String], b: &[String]) -> (r: bool)
    ensures
        r == is_prefix(place_views(a@), place_views(b@)),
{
    if a.len() > b.len() {
        return false;
    }
    let mut i: usize = 0;
    while i < a.len()
        invariant
            a@.len() <= b@.len(),
            i <= a@.len(),
            forall|j: int| 0 <= j < i ==> a@[j]@ == b@[j]@,
        decreases a@.len() - i,
    {
        if !str_eq(a[i].as_str(), b[i].as_str()) {
            proof {
                let bs = place_views(b@).subrange(0, a@.len() as int);
                assert(bs[i as int] != place_views(a@)[i as int]);
            }
            return false;
        }
        i = i + 1;
    }
    assert(place_views(b@).subrange(0, a@.len() as int) =~= place_views(a@));
    true
}

/// Whether two places overlap: equal, or one a prefix of the other.
pub fn places_overlap(left: &[String], right: &[String]) -> (r: bool)
    ensures
        r == overlapping(place_views(left@), place_views(right@)),
{
    let r = places_prefix(right, left) || places_prefix(left, right);
    proof {
        let l = place_views(left@);
        let q = place_views(right@);
        if l == q {
            assert(q.len() <= l.len());
            assert(l.subrange(0, q.len() as int) =~= q);
        }
    }
    r
}

// ---------------------------------------------------------------------------
// Association lists
// ---------------------------------------------------------------------------

/// The value of the first entry with key `k`.
pub open spec fn lookup<V>(s: Seq<(Seq<char>, V)>, k: Seq<char>) -> Option<V>
    decreases s.len(),
{
    if s.len() == 0 {
        None
    } else if s[0].0 == k {
        Some(s[0].1)
    } else {
        lookup(s.subrange(1, s.len() as int), k)
    }
}

/// Whether no key occurs twice.
pub open spec fn keys_unique<V>(s: Seq<(Seq<char>, V)>) -> bool {
    forall|i: int, j: int| 0 <= i < j < s.len() ==> (#[trigger] s[i]).0 != (#[trigger] s[j]).0
}

/// The map an association list denotes.
pub open spec fn as_map<V>(s: Seq<(Seq<char>, V)>) -> Map<Seq<char>, V> {
    Map::new(|k: Seq<char>| lookup(s, k) is Some, |k: Seq<char>| lookup(s, k)->0)
}

/// An entry is found exactly when some key matches; with unique keys the
/// matching entry's value is the one found.
pub proof fn lemma_lookup_index<V>(s: Seq<(Seq<char>, V)>, k: Seq<char>)
    ensures
        lookup(s, k) is Some <==> exists|i: int| 0 <= i < s.len() && (#[trigger] s[i]).0 == k,
        keys_unique(s) ==> forall|i: int| 0 <= i < s.len() && (#[trigger] s[i]).0 == k ==> lookup(s, k) == Some(s[i].1),
    decreases s.len(),
{
    if s.len() > 0 {
        let t = s.subrange(1, s.len() as int);
        lemma_lookup_index(t, k);
        if s[0].0 != k {
            if exists|i: int| 0 <= i < s.len() && (#[trigger] s[i]).0 == k {
                let i = choose|i: int| 0 <= i < s.len() && (#[trigger] s[i]).0 == k;
                assert(t[i - 1] == s[i]);
            }
            if exists|i: int| 0 <= i < t.len() && (#[trigger] t[i]).0 == k {
                let i = choose|i: int| 0 <= i < t.len() && (#[trigger] t[i]).0 == k;
                assert(s[i + 1] == t[i]);
            }
            if keys_unique(s) {
                assert(keys_unique(t)) by {
                    assert forall|i: int, j: int| 0 <= i < j < t.len() implies (#[trigger] t[i]).0 != (#[trigger] t[j]).0 by {
                        assert(t[i] == s[i + 1] && t[j] == s[j + 1]);
                    }
                }
                assert forall|i: int| 0 <= i < s.len() && (#[trigger] s[i]).0 == k implies lookup(s, k) == Some(s[i].1) by {
                    assert(i > 0);
                    assert(t[i - 1] == s[i]);
                }
            }
        } else {
            if keys_unique(s) {
                assert forall|i: int| 0 <= i < s.len() && (#[trigger] s[i]).0 == k implies lookup(s, k) == Some(s[i].1) by {
                    if i > 0 {
                        assert(s[0].0 != s[i].0);
                    }
                }
            }
        }
    }
}

/// Two association lists with unique keys denote the same map when each
/// key finds the same value in both.
proof fn lemma_maps_equal<V>(a: Seq<(Seq<char>, V)>, b: Seq<(Seq<char>, V)>, m: Map<Seq<char>, V>)
    requires
        forall|k: Seq<char>| #[trigger] lookup(a, k) == if m.contains_key(k) {
            Some(m[k])
        } else {
            None
        },
    ensures
        as_map(a) == m,
{
    assert(as_map(a) =~= m);
}

/// The views of the moved-out entries.
pub open spec fn moved_views(v: Seq<(String, MoveRecord)>) -> Seq<(Seq<char>, (Seq<char>, Seq<char>))> {
    v.map_values(|e: (String, MoveRecord)| (e.0@, move_view(e.1)))
}

/// The views of the declared-type entries.
pub open spec fn type_views(v: Seq<(String, String)>) -> Seq<(Seq<char>, Seq<char>)> {
    v.map_values(|e: (String, String)| (e.0@, e.1@))
}

/// Whether the key `k` is the place `b` or lies below it (`b.` prefix).
pub open spec fn covers(b: Seq<char>, k: Seq<char>) -> bool {
    k == b || (k.len() > b.len() && k.subrange(0, b.len() as int) == b && k[b.len() as int] == '.')
}

/// The map without the keys that `b` covers.
pub open spec fn without_covered<V>(m: Map<Seq<char>, V>, b: Seq<char>) -> Map<Seq<char>, V> {
    Map::new(|k: Seq<char>| m.contains_key(k) && !covers(b, k), |k: Seq<char>| m[k])
}

/// The map's entries under the keys that `b` covers.
pub open spec fn only_covered<V>(m: Map<Seq<char>, V>, b: Seq<char>) -> Map<Seq<char>, V> {
    Map::new(|k: Seq<char>| m.contains_key(k) && covers(b, k), |k: Seq<char>| m[k])
}

/// Whether `k` is `b` or starts with `b` followed by a dot.
fn covers_exec(b: &Vec<char>, k: &str) -> (r: bool)
    ensures
        r == covers(b@, k@),
{
    let kc = chars_vec(k);
    if kc.len() < b.len() {
        proof {
            if covers(b@, k@) {
                assert(k@.len() >= b@.len());
            }
        }
        return false;
    }
    let mut i: usize = 0;
    while i < b.len()
        invariant
            kc@ == k@,
            b@.len() <= kc@.len(),
            i <= b@.len(),
            forall|j: int| 0 <= j < i ==> kc@[j] == b@[j],
        decreases b@.len() - i,
    {
        if kc[i] != b[i] {
            proof {
                if covers(b@, k@) {
                    if k@ == b@ {
                        assert(k@[i as int] == b@[i as int]);
                    } else {
                        assert(k@.subrange(0, b@.len() as int)[i as int] == b@[i as int]);
                    }
                }
            }
            return false;
        }
        i = i + 1;
    }
    assert(k@.subrange(0, b@.len() as int) =~= b@);
    if kc.len() == b.len() {
        assert(k@ =~= b@);
        true
    } else {
        kc[b.len()] == '.'
    }
}

/// A copy of a move record.
fn copy_record(r: &MoveRecord) -> (c: MoveRecord)
    ensures
        move_view(c) == move_view(*r),
{
    MoveRecord { binding: r.binding.clone(), callee: r.callee.clone() }
}

/// The index of the entry with key `k`, if any.
fn find_key<V>(v: &Vec<(String, V)>, k: &str) -> (r: Option<usize>)
    ensures
        match r {
            Some(i) => i < v@.len() && v@[i as int].0@ == k@,
            None => forall|i: int| 0 <= i < v@.len() ==> (#[trigger] v@[i]).0@ != k@,
        },
{
    let mut i: usize = 0;
    while i < v.len()
        invariant
            i <= v@.len(),
            forall|j: int| 0 <= j < i ==> (#[trigger] v@[j]).0@ != k@,
        decreases v@.len() - i,
    {
        if str_eq(v[i].0.as_str(), k) {
            return Some(i);
        }
        i = i + 1;
    }
    None
}

/// Sets the move recorded under `k` (replacing any earlier one).
fn insert_moved(v: &mut Vec<(String, MoveRecord)>, k: String, r: MoveRecord)
    requires
        keys_unique(moved_views(old(v)@)),
    ensures
        keys_unique(moved_views(final(v)@)),
        as_map(moved_views(final(v)@)) == as_map(moved_views(old(v)@)).insert(k@, move_view(r)),
{
    let ghost s0 = moved_views(v@);
    let ghost kv = k@;
    let ghost rv = move_view(r);
    match find_key(v, k.as_str()) {
        Some(i) => {
            v.set(i, (k, r));
            proof {
                let s1 = moved_views(v@);
                assert(s1 =~= s0.update(i as int, (kv, rv)));
                assert(keys_unique(s1)) by {
                    assert forall|a: int, b: int| 0 <= a < b < s1.len() implies (#[trigger] s1[a]).0 != (#[trigger] s1[b]).0 by {
                        assert(s0[a].0 == s1[a].0 && s0[b].0 == s1[b].0);
                    }
                }
                assert forall|q: Seq<char>| #[trigger] lookup(s1, q) == if (as_map(s0).insert(kv, rv)).contains_key(q) {
                    Some(as_map(s0).insert(kv, rv)[q])
                } else {
                    None
                } by {
                    lemma_lookup_index(s0, q);
                    lemma_lookup_index(s1, q);
                    if q == kv {
                        assert(s1[i as int].0 == q);
                    } else {
                        if lookup(s0, q) is Some {
                            let j = choose|j: int| 0 <= j < s0.len() && (#[trigger] s0[j]).0 == q;
                            assert(s1[j] == s0[j]);
                        }
                        if lookup(s1, q) is Some {
                            let j = choose|j: int| 0 <= j < s1.len() && (#[trigger] s1[j]).0 == q;
                            assert(s1[j] == s0[j]);
                        }
                    }
                }
                lemma_maps_equal(s1, s1, as_map(s0).insert(kv, rv));
            }
        },
        None => {
            let ghost v0 = v@;
            let e = (k, r);
            v.push(e);
            proof {
                let s1 = moved_views(v@);
                assert(v@ == v0.push(e));
                assert(s1 =~= s0.push((kv, rv)));
                assert(keys_unique(s1)) by {
                    assert forall|a: int, b: int| 0 <= a < b < s1.len() implies (#[trigger] s1[a]).0 != (#[trigger] s1[b]).0 by {
                        if b == s0.len() {
                            assert(s0[a] == s1[a]);
                            assert(v0[a].0@ != kv);
                        } else {
                            assert(s0[a] == s1[a] && s0[b] == s1[b]);
                        }
                    }
                }
                assert forall|q: Seq<char>| #[trigger] lookup(s1, q) == if (as_map(s0).insert(kv, rv)).contains_key(q) {
                    Some(as_map(s0).insert(kv, rv)[q])
                } else {
                    None
                } by {
                    lemma_lookup_index(s0, q);
                    lemma_lookup_index(s1, q);
                    if q == kv {
                        assert(s1[s0.len() as int].0 == q);
                    } else {
                        if lookup(s0, q) is Some {
                            let j = choose|j: int| 0 <= j < s0.len() && (#[trigger] s0[j]).0 == q;
                            assert(s1[j] == s0[j]);
                        }
                        if lookup(s1, q) is Some {
                            let j = choose|j: int| 0 <= j < s1.len() && (#[trigger] s1[j]).0 == q;
                            assert(j < s0.len());
                            assert(s1[j] == s0[j]);
                        }
                    }
                }
                lemma_maps_equal(s1, s1, as_map(s0).insert(kv, rv));
            }
        },
    }
}

/// The entries of `s` whose keys `b` covers (when `want` is true) or does
/// not cover (when it is false), in order.
pub open spec fn filtered<V>(s: Seq<(Seq<char>, V)>, b: Seq<char>, want: bool) -> Seq<(Seq<char>, V)>
    decreases s.len(),
{
    if s.len() == 0 {
        Seq::empty()
    } else {
        let p = filtered(s.drop_last(), b, want);
        if covers(b, s.last().0) == want {
            p.push(s.last())
        } else {
            p
        }
    }
}

/// Every key of a filtered list is a key of the list, and one that passes
/// the filter.
pub proof fn lemma_filtered_keys<V>(s: Seq<(Seq<char>, V)>, b: Seq<char>, want: bool, i: int)
    requires
        0 <= i < filtered(s, b, want).len(),
    ensures
        exists|j: int| 0 <= j < s.len() && s[j] == #[trigger] filtered(s, b, want)[i],
        covers(b, filtered(s, b, want)[i].0) == want,
    decreases s.len(),
{
    let p = filtered(s.drop_last(), b, want);
    if i < p.len() {
        lemma_filtered_keys(s.drop_last(), b, want, i);
        let j = choose|j: int| 0 <= j < s.drop_last().len() && s.drop_last()[j] == #[trigger] p[i];
        assert(s[j] == filtered(s, b, want)[i]);
    } else {
        assert(filtered(s, b, want)[i] == s.last());
        assert(s[s.len() - 1] == filtered(s, b, want)[i]);
    }
}

/// Filtering keeps keys unique.
pub proof fn lemma_filtered_unique<V>(s: Seq<(Seq<char>, V)>, b: Seq<char>, want: bool)
    requires
        keys_unique(s),
    ensures
        keys_unique(filtered(s, b, want)),
    decreases s.len(),
{
    if s.len() > 0 {
        let q = s.drop_last();
        assert(keys_unique(q));
        lemma_filtered_unique(q, b, want);
        let p = filtered(q, b, want);
        let f = filtered(s, b, want);
        if covers(b, s.last().0) == want {
            assert forall|x: int, y: int| 0 <= x < y < f.len() implies (#[trigger] f[x]).0 != (#[trigger] f[y]).0 by {
                if y == p.len() {
                    lemma_filtered_keys(q, b, want, x);
                    let j = choose|j: int| 0 <= j < q.len() && q[j] == #[trigger] p[x];
                    assert(s[j] == q[j]);
                    assert(f[x] == p[x]);
                } else {
                    assert(f[x] == p[x] && f[y] == p[y]);
                }
            }
        }
    }
}

/// Looking a key up after filtering: absent when it fails the filter,
/// otherwise as before.
pub proof fn lemma_filtered_lookup<V>(s: Seq<(Seq<char>, V)>, b: Seq<char>, want: bool, k: Seq<char>)
    requires
        keys_unique(s),
    ensures
        lookup(filtered(s, b, want), k) == if covers(b, k) == want {
            lookup(s, k)
        } else {
            None
        },
    decreases s.len(),
{
    if s.len() > 0 {
        let q = s.drop_last();
        assert(keys_unique(q));
        lemma_filtered_lookup(q, b, want, k);
        lemma_filtered_unique(q, b, want);
        lemma_filtered_unique(s, b, want);
        let p = filtered(q, b, want);
        let f = filtered(s, b, want);
        lemma_lookup_index(s, k);
        lemma_lookup_index(q, k);
        lemma_lookup_index(p, k);
        lemma_lookup_index(f, k);
        if lookup(s, k) is Some {
            let j = choose|j: int| 0 <= j < s.len() && (#[trigger] s[j]).0 == k;
            if j < q.len() {
                assert(q[j] == s[j]);
                if covers(b, k) == want {
                    let i = choose|i: int| 0 <= i < p.len() && (#[trigger] p[i]).0 == k;
                    assert(f[i] == p[i]);
                }
            } else {
                if covers(b, k) == want {
                    assert(f[p.len() as int] == s.last());
                }
            }
        }
        if lookup(f, k) is Some {
            let i = choose|i: int| 0 <= i < f.len() && (#[trigger] f[i]).0 == k;
            lemma_filtered_keys(s, b, want, i);
            let j = choose|j: int| 0 <= j < s.len() && s[j] == #[trigger] f[i];
            assert(s[j].0 == k);
        }
    }
}

/// The entries whose keys `b` covers (or, when `want_covered` is false,
/// does not cover), in order.
fn filter_moved(v: &Vec<(String, MoveRecord)>, b: &Vec<char>, want_covered: bool) -> (r: Vec<
    (String, MoveRecord),
>)
    ensures
        moved_views(r@) == filtered(moved_views(v@), b@, want_covered),
{
    let ghost s0 = moved_views(v@);
    let mut out: Vec<(String, MoveRecord)> = Vec::new();
    let mut idx: usize = 0;
    assert(moved_views(out@) =~= filtered(s0.subrange(0, 0), b@, want_covered));
    while idx < v.len()
        invariant
            s0 == moved_views(v@),
            idx <= v@.len(),
            moved_views(out@) == filtered(s0.subrange(0, idx as int), b@, want_covered),
        decreases v@.len() - idx,
    {
        proof {
            let pre = s0.subrange(0, idx as int + 1);
            assert(pre.drop_last() =~= s0.subrange(0, idx as int));
            assert(pre.last() == s0[idx as int]);
        }
        if covers_exec(b, v[idx].0.as_str()) == want_covered {
            let e = (v[idx].0.clone(), copy_record(&v[idx].1));
            let ghost o0 = out@;
            out.push(e);
            assert(out@ == o0.push(e));
            assert(moved_views(out@) =~= moved_views(o0).push(s0[idx as int]));
        }
        idx = idx + 1;
    }
    assert(s0.subrange(0, idx as int) =~= s0);
    out
}

/// Sets the type recorded for `k` (replacing any earlier one).
fn insert_type(v: &mut Vec<(String, String)>, k: String, t: String)
    requires
        keys_unique(type_views(old(v)@)),
    ensures
        keys_unique(type_views(final(v)@)),
        as_map(type_views(final(v)@)) == as_map(type_views(old(v)@)).insert(k@, t@),
{
    let ghost s0 = type_views(v@);
    let ghost kv = k@;
    let ghost tv = t@;
    match find_key(v, k.as_str()) {
        Some(i) => {
            v.set(i, (k, t));
            proof {
                let s1 = type_views(v@);
                assert(s1 =~= s0.update(i as int, (kv, tv)));
                assert(keys_unique(s1)) by {
                    assert forall|a: int, b: int| 0 <= a < b < s1.len() implies (#[trigger] s1[a]).0 != (#[trigger] s1[b]).0 by {
                        assert(s0[a].0 == s1[a].0 && s0[b].0 == s1[b].0);
                    }
                }
                assert forall|q: Seq<char>| #[trigger] lookup(s1, q) == if (as_map(s0).insert(kv, tv)).contains_key(q) {
                    Some(as_map(s0).insert(kv, tv)[q])
                } else {
                    None
                } by {
                    lemma_lookup_index(s0, q);
                    lemma_lookup_index(s1, q);
                    if q == kv {
                        assert(s1[i as int].0 == q);
                    } else {
                        if lookup(s0, q) is Some {
                            let j = choose|j: int| 0 <= j < s0.len() && (#[trigger] s0[j]).0 == q;
                            assert(s1[j] == s0[j]);
                        }
                        if lookup(s1, q) is Some {
                            let j = choose|j: int| 0 <= j < s1.len() && (#[trigger] s1[j]).0 == q;
                            assert(s1[j] == s0[j]);
                        }
                    }
                }
                lemma_maps_equal(s1, s1, as_map(s0).insert(kv, tv));
            }
        },
        None => {
            let ghost v0 = v@;
            let e = (k, t);
            v.push(e);
            proof {
                let s1 = type_views(v@);
                assert(v@ == v0.push(e));
                assert(s1 =~= s0.push((kv, tv)));
                assert(keys_unique(s1)) by {
                    assert forall|a: int, b: int| 0 <= a < b < s1.len() implies (#[trigger] s1[a]).0 != (#[trigger] s1[b]).0 by {
                        if b == s0.len() {
                            assert(s0[a] == s1[a]);
                            assert(v0[a].0@ != kv);
                        } else {
                            assert(s0[a] == s1[a] && s0[b] == s1[b]);
                        }
                    }
                }
                assert forall|q: Seq<char>| #[trigger] lookup(s1, q) == if (as_map(s0).insert(kv, tv)).contains_key(q) {
                    Some(as_map(s0).insert(kv, tv)[q])
                } else {
                    None
                } by {
                    lemma_lookup_index(s0, q);
                    lemma_lookup_index(s1, q);
                    if q == kv {
                        assert(s1[s0.len() as int].0 == q);
                    } else {
                        if lookup(s0, q) is Some {
                            let j = choose|j: int| 0 <= j < s0.len() && (#[trigger] s0[j]).0 == q;
                            assert(s1[j] == s0[j]);
                        }
                        if lookup(s1, q) is Some {
                            let j = choose|j: int| 0 <= j < s1.len() && (#[trigger] s1[j]).0 == q;
                            assert(j < s0.len());
                            assert(s1[j] == s0[j]);
                        }
                    }
                }
                lemma_maps_equal(s1, s1, as_map(s0).insert(kv, tv));
            }
        },
    }
}

/// Removes the type recorded for `k`, if any.
fn remove_type(v: &mut Vec<(String, String)>, k: &str)
    requires
        keys_unique(type_views(old(v)@)),
    ensures
        keys_unique(type_views(final(v)@)),
        as_map(type_views(final(v)@)) == as_map(type_views(old(v)@)).remove(k@),
{
    let ghost s0 = type_views(v@);
    match find_key(v, k) {
        Some(i) => {
            let ghost v0 = v@;
            let _ = v.remove(i);
            proof {
                let s1 = type_views(v@);
                assert(v@ == v0.remove(i as int));
                assert(s1 =~= s0.remove(i as int));
                assert(keys_unique(s1)) by {
                    assert forall|a: int, b: int| 0 <= a < b < s1.len() implies (#[trigger] s1[a]).0 != (#[trigger] s1[b]).0 by {
                        let a0 = if a < i { a } else { a + 1 };
                        let b0 = if b < i { b } else { b + 1 };
                        assert(s1[a] == s0[a0] && s1[b] == s0[b0]);
                    }
                }
                assert forall|q: Seq<char>| #[trigger] lookup(s1, q) == if as_map(s0).remove(k@).contains_key(q) {
                    Some(as_map(s0).remove(k@)[q])
                } else {
                    None
                } by {
                    lemma_lookup_index(s0, q);
                    lemma_lookup_index(s1, q);
                    if lookup(s1, q) is Some {
                        let j = choose|j: int| 0 <= j < s1.len() && (#[trigger] s1[j]).0 == q;
                        let j0 = if j < i { j } else { j + 1 };
                        assert(s1[j] == s0[j0]);
                        assert(s0[i as int].0 == k@);
                    }
                    if lookup(s0, q) is Some && q != k@ {
                        let j = choose|j: int| 0 <= j < s0.len() && (#[trigger] s0[j]).0 == q;
                        assert(j != i);
                        let j1 = if j < i { j } else { j - 1 };
                        assert(s1[j1] == s0[j]);
                    }
                }
                lemma_maps_equal(s1, s1, as_map(s0).remove(k@));
            }
        },
        None => {
            proof {
                assert forall|q: Seq<char>| #[trigger] lookup(s0, q) == if as_map(s0).remove(k@).contains_key(q) {
                    Some(as_map(s0).remove(k@)[q])
                } else {
                    None
                } by {
                    lemma_lookup_index(s0, q);
                    if q == k@ && lookup(s0, q) is Some {
                        let j = choose|j: int| 0 <= j < s0.len() && (#[trigger] s0[j]).0 == q;
                        assert(v@[j].0@ == s0[j].0);
                    }
                }
                lemma_maps_equal(s0, s0, as_map(s0).remove(k@));
            }
        },
    }
}

// ---------------------------------------------------------------------------
// The environment
// ---------------------------------------------------------------------------

/// Sets every move of `extra`, in order (later entries win).
fn insert_all_moved(v: &mut Vec<(String, MoveRecord)>, extra: &Vec<(String, MoveRecord)>)
    requires
        keys_unique(moved_views(old(v)@)),
        keys_unique(moved_views(extra@)),
    ensures
        keys_unique(moved_views(final(v)@)),
        as_map(moved_views(final(v)@)) == as_map(moved_views(old(v)@)).union_prefer_right(
            as_map(moved_views(extra@)),
        ),
{
    let ghost base = as_map(moved_views(v@));
    let restored = extra;
    let mut i: usize = 0;
    assert(as_map(moved_views(restored@.subrange(0, 0))) =~= Map::<Seq<char>, (Seq<char>, Seq<char>)>::empty());
    assert(base.union_prefer_right(Map::<Seq<char>, (Seq<char>, Seq<char>)>::empty()) =~= base);
    while i < restored.len()
        invariant
            keys_unique(moved_views(v@)),
            keys_unique(moved_views(restored@)),
            i <= restored@.len(),
            as_map(moved_views(v@)) == base.union_prefer_right(
                as_map(moved_views(restored@.subrange(0, i as int))),
            ),
        decreases restored@.len() - i,
    {
        let k = restored[i].0.clone();
        let r = copy_record(&restored[i].1);
        insert_moved(v, k, r);
        proof {
            let pre = moved_views(restored@.subrange(0, i as int + 1));
            let p0 = moved_views(restored@.subrange(0, i as int));
            assert(pre =~= p0.push(moved_views(restored@)[i as int]));
            assert(keys_unique(pre)) by {
                assert forall|x: int, y: int| 0 <= x < y < pre.len() implies (#[trigger] pre[x]).0 != (#[trigger] pre[y]).0 by {
                    assert(pre[x] == moved_views(restored@)[x]);
                    assert(pre[y] == moved_views(restored@)[y]);
                }
            }
            assert(keys_unique(p0)) by {
                assert forall|x: int, y: int| 0 <= x < y < p0.len() implies (#[trigger] p0[x]).0 != (#[trigger] p0[y]).0 by {
                    assert(p0[x] == moved_views(restored@)[x]);
                    assert(p0[y] == moved_views(restored@)[y]);
                }
            }
            let e = moved_views(restored@)[i as int];
            assert forall|q: Seq<char>| #[trigger] lookup(pre, q) == if as_map(p0).insert(e.0, e.1).contains_key(q) {
                Some(as_map(p0).insert(e.0, e.1)[q])
            } else {
                None
            } by {
                lemma_lookup_index(pre, q);
                lemma_lookup_index(p0, q);
                if q == e.0 {
                    assert(pre[i as int] == e);
                } else {
                    if lookup(p0, q) is Some {
                        let j = choose|j: int| 0 <= j < p0.len() && (#[trigger] p0[j]).0 == q;
                        assert(pre[j] == p0[j]);
                    }
                    if lookup(pre, q) is Some {
                        let j = choose|j: int| 0 <= j < pre.len() && (#[trigger] pre[j]).0 == q;
                        assert(pre[j] == p0[j]);
                    }
                }
            }
            lemma_maps_equal(pre, pre, as_map(p0).insert(e.0, e.1));
            assert(as_map(moved_views(v@)) =~= base.union_prefer_right(as_map(pre)));
        }
        i = i + 1;
    }
    assert(restored@.subrange(0, i as int) =~= restored@);
}

/// The borrow checker's environment: moved places and declared types.
#[derive(Debug)]
pub struct Env {
    moved: Vec<(String, MoveRecord)>,
    types: Vec<(String, String)>,
}

/// A map over a filter: the entries kept are those of the map the filter
/// agrees with.
proof fn lemma_filtered_map<V>(s: Seq<(Seq<char>, V)>, b: Seq<char>, want: bool)
    requires
        keys_unique(s),
    ensures
        as_map(filtered(s, b, want)) == if want {
            only_covered(as_map(s), b)
        } else {
            without_covered(as_map(s), b)
        },
{
    let goal = if want { only_covered(as_map(s), b) } else { without_covered(as_map(s), b) };
    assert forall|q: Seq<char>| #[trigger] lookup(filtered(s, b, want), q) == if goal.contains_key(q) {
        Some(goal[q])
    } else {
        None
    } by {
        lemma_filtered_lookup(s, b, want, q);
    }
    lemma_maps_equal(filtered(s, b, want), filtered(s, b, want), goal);
}

impl Env {
    /// No key is recorded twice.
    pub closed spec fn wf(&self) -> bool {
        keys_unique(moved_views(self.moved@)) && keys_unique(type_views(self.types@))
    }

    /// The moved places: place text to `(binding, callee)`.
    pub closed spec fn moved_map(&self) -> Map<Seq<char>, (Seq<char>, Seq<char>)> {
        as_map(moved_views(self.moved@))
    }

    /// The declared types: binding to type name.
    pub closed spec fn type_map(&self) -> Map<Seq<char>, Seq<char>> {
        as_map(type_views(self.types@))
    }

    /// An environment where nothing has moved and no type is known.
    pub fn new() -> (e: Env)
        ensures
            e.wf(),
            e.moved_map() == Map::<Seq<char>, (Seq<char>, Seq<char>)>::empty(),
            e.type_map() == Map::<Seq<char>, Seq<char>>::empty(),
    {
        let e = Env { moved: Vec::new(), types: Vec::new() };
        assert(e.moved_map() =~= Map::<Seq<char>, (Seq<char>, Seq<char>)>::empty());
        assert(e.type_map() =~= Map::<Seq<char>, Seq<char>>::empty());
        e
    }

    /// A copy of this environment.
    pub fn snapshot(&self) -> (e: Env)
        requires
            self.wf(),
        ensures
            e.wf(),
            e.moved_map() == self.moved_map(),
            e.type_map() == self.type_map(),
    {
        let mut moved: Vec<(String, MoveRecord)> = Vec::new();
        let mut i: usize = 0;
        while i < self.moved.len()
            invariant
                i <= self.moved@.len(),
                moved_views(moved@) == moved_views(self.moved@.subrange(0, i as int)),
            decreases self.moved@.len() - i,
        {
            let ghost m0 = moved@;
            moved.push((self.moved[i].0.clone(), copy_record(&self.moved[i].1)));
            assert(moved_views(moved@) =~= moved_views(self.moved@.subrange(0, i as int + 1))) by {
                assert(moved_views(moved@) =~= moved_views(m0).push(moved_views(self.moved@)[i as int]));
            }
            i = i + 1;
        }
        let mut types: Vec<(String, String)> = Vec::new();
        let mut j: usize = 0;
        while j < self.types.len()
            invariant
                j <= self.types@.len(),
                type_views(types@) == type_views(self.types@.subrange(0, j as int)),
            decreases self.types@.len() - j,
        {
            let ghost t0 = types@;
            types.push((self.types[j].0.clone(), self.types[j].1.clone()));
            assert(type_views(types@) =~= type_views(self.types@.subrange(0, j as int + 1))) by {
                assert(type_views(types@) =~= type_views(t0).push(type_views(self.types@)[j as int]));
            }
            j = j + 1;
        }
        assert(moved_views(self.moved@.subrange(0, i as int)) =~= moved_views(self.moved@));
        assert(type_views(self.types@.subrange(0, j as int)) =~= type_views(self.types@));
        Env { moved, types }
    }

    /// Takes in the moves of `other`; where both record a place, `other`'s
    /// record wins. The declared types stay.
    pub fn absorb_moved(&mut self, other: &Env)
        requires
            old(self).wf(),
            other.wf(),
        ensures
            final(self).wf(),
            final(self).moved_map() == old(self).moved_map().union_prefer_right(other.moved_map()),
            final(self).type_map() == old(self).type_map(),
    {
        insert_all_moved(&mut self.moved, &other.moved);
    }

    /// Records that `binding` moved into `callee`.
    pub fn record_move(&mut self, binding: &str, callee: &str)
        requires
            old(self).wf(),
        ensures
            final(self).wf(),
            final(self).moved_map() == old(self).moved_map().insert(binding@, (binding@, callee@)),
            final(self).type_map() == old(self).type_map(),
    {
        let rec = MoveRecord { binding: binding.to_owned(), callee: callee.to_owned() };
        insert_moved(&mut self.moved, binding.to_owned(), rec);
    }

    /// Records that the place moved into `callee`.
    pub fn record_move_place(&mut self, place: &[String], callee: &str)
        requires
            old(self).wf(),
        ensures
            final(self).wf(),
            ({
                let b = join(place_views(place@), "."@);
                final(self).moved_map() == old(self).moved_map().insert(b, (b, callee@))
            }),
            final(self).type_map() == old(self).type_map(),
    {
        let binding = format_place(place);
        self.record_move(binding.as_str(), callee);
    }

    /// The place is assigned afresh: the moves recorded at it and below it
    /// are forgotten.
    pub fn rebind_place(&mut self, place: &[String])
        requires
            old(self).wf(),
        ensures
            final(self).wf(),
            final(self).moved_map() == without_covered(
                old(self).moved_map(),
                join(place_views(place@), "."@),
            ),
            final(self).type_map() == old(self).type_map(),
    {
        let binding = format_place(place);
        let b = chars_vec(binding.as_str());
        let kept = filter_moved(&self.moved, &b, false);
        proof {
            lemma_filtered_unique(moved_views(self.moved@), b@, false);
            lemma_filtered_map(moved_views(self.moved@), b@, false);
        }
        self.moved = kept;
    }

    /// The binding is assigned afresh.
    pub fn rebind(&mut self, binding: &str)
        requires
            old(self).wf(),
        ensures
            final(self).wf(),
            final(self).moved_map() == without_covered(old(self).moved_map(), binding@),
            final(self).type_map() == old(self).type_map(),
    {
        let place = vec![binding.to_owned()];
        assert(place_views(place@) =~= seq![binding@]);
        self.rebind_place(place.as_slice());
    }

    /// The binding is assigned afresh with a declared type: its simple type
    /// name is remembered, or forgotten when the type has none.
    pub fn rebind_with_type(&mut self, binding: &str, ty: Option<&TypeExpr>)
        requires
            old(self).wf(),
        ensures
            final(self).wf(),
            final(self).moved_map() == without_covered(old(self).moved_map(), binding@),
            final(self).type_map() == match simple_name_of(ty) {
                Some(n) => old(self).type_map().insert(binding@, n),
                None => old(self).type_map().remove(binding@),
            },
    {
        self.rebind(binding);
        match simple_type_name(ty) {
            Some(name) => insert_type(&mut self.types, binding.to_owned(), name),
            None => remove_type(&mut self.types, binding),
        }
    }

    /// Forgets the declared type of `binding`.
    pub fn forget_type(&mut self, binding: &str)
        requires
            old(self).wf(),
        ensures
            final(self).wf(),
            final(self).moved_map() == old(self).moved_map(),
            final(self).type_map() == old(self).type_map().remove(binding@),
    {
        remove_type(&mut self.types, binding);
    }

    /// Restores, from `snapshot`, everything recorded at `binding` and below
    /// it: its moves and its declared type.
    pub fn restore_binding_from(&mut self, binding: &str, snapshot: &Env)
        requires
            old(self).wf(),
            snapshot.wf(),
        ensures
            final(self).wf(),
            final(self).moved_map() == without_covered(old(self).moved_map(), binding@).union_prefer_right(
                only_covered(snapshot.moved_map(), binding@),
            ),
            final(self).type_map() == match snapshot.type_map().get(binding@) {
                Some(t) => old(self).type_map().insert(binding@, t),
                None => old(self).type_map().remove(binding@),
            },
    {
        let b = chars_vec(binding);
        let kept = filter_moved(&self.moved, &b, false);
        let restored = filter_moved(&snapshot.moved, &b, true);
        proof {
            lemma_filtered_unique(moved_views(self.moved@), b@, false);
            lemma_filtered_map(moved_views(self.moved@), b@, false);
            lemma_filtered_unique(moved_views(snapshot.moved@), b@, true);
            lemma_filtered_map(moved_views(snapshot.moved@), b@, true);
        }
        self.moved = kept;
        insert_all_moved(&mut self.moved, &restored);
        match find_key(&snapshot.types, binding) {
            Some(j) => {
                proof {
                    lemma_lookup_index(type_views(snapshot.types@), binding@);
                    assert(type_views(snapshot.types@)[j as int].0 == binding@);
                }
                insert_type(&mut self.types, binding.to_owned(), snapshot.types[j].1.clone());
            },
            None => {
                proof {
                    lemma_lookup_index(type_views(snapshot.types@), binding@);
                    if lookup(type_views(snapshot.types@), binding@) is Some {
                        let j = choose|j: int| 0 <= j < type_views(snapshot.types@).len() && (#[trigger] type_views(snapshot.types@)[j]).0 == binding@;
                        assert(snapshot.types@[j].0@ == binding@);
                    }
                }
                remove_type(&mut self.types, binding);
            },
        }
    }

    /// A move recorded at a place overlapping `place`, if any.
    pub fn moved_record_for_place(&self, place: &[String]) -> (r: Option<&MoveRecord>)
        requires
            self.wf(),
        ensures
            r is Some <==> exists|k: Seq<char>|
                self.moved_map().contains_key(k) && #[trigger] overlapping(split_dots(k), place_views(place@)),
            r matches Some(rec) ==> exists|k: Seq<char>|
                self.moved_map().contains_key(k) && #[trigger] overlapping(split_dots(k), place_views(place@))
                    && self.moved_map()[k] == move_view(*rec),
    {
        let ghost s0 = moved_views(self.moved@);
        let mut i: usize = 0;
        while i < self.moved.len()
            invariant
                s0 == moved_views(self.moved@),
                keys_unique(s0),
                i <= self.moved@.len(),
                forall|j: int| 0 <= j < i ==> !overlapping(split_dots((#[trigger] s0[j]).0), place_views(place@)),
            decreases self.moved@.len() - i,
        {
            let parts = split_place(self.moved[i].0.as_str());
            if places_overlap(parts.as_slice(), place) {
                proof {
                    let k = s0[i as int].0;
                    assert(s0[i as int].0 == self.moved@[i as int].0@);
                    lemma_lookup_index(s0, k);
                    assert(self.moved_map().contains_key(k));
                    assert(self.moved_map()[k] == s0[i as int].1);
                    assert(overlapping(split_dots(k), place_views(place@)));
                }
                return Some(&self.moved[i].1);
            }
            i = i + 1;
        }
        proof {
            assert forall|k: Seq<char>| self.moved_map().contains_key(k) implies !#[trigger] overlapping(split_dots(k), place_views(place@)) by {
                lemma_lookup_index(s0, k);
                let j = choose|j: int| 0 <= j < s0.len() && (#[trigger] s0[j]).0 == k;
                assert(!overlapping(split_dots(s0[j].0), place_views(place@)));
            }
        }
        None
    }

    /// A move recorded at a place overlapping the binding, if any.
    pub fn is_moved(&self, binding: &str) -> (r: Option<&MoveRecord>)
        requires
            self.wf(),
        ensures
            r is Some <==> exists|k: Seq<char>|
                self.moved_map().contains_key(k) && #[trigger] overlapping(split_dots(k), seq![binding@]),
    {
        let place = vec![binding.to_owned()];
        assert(place_views(place@) =~= seq![binding@]);
        let r = self.moved_record_for_place(place.as_slice());
        r
    }

    /// The declared simple type of `binding`, if known.
    pub fn type_of(&self, binding: &str) -> (r: Option<&str>)
        requires
            self.wf(),
        ensures
            match r {
                Some(t) => self.type_map().contains_key(binding@) && self.type_map()[binding@] == t@,
                None => !self.type_map().contains_key(binding@),
            },
    {
        let ghost s0 = type_views(self.types@);
        proof {
            lemma_lookup_index(s0, binding@);
        }
        match find_key(&self.types, binding) {
            Some(i) => {
                assert(s0[i as int].0 == binding@);
                Some(self.types[i].1.as_str())
            },
            None => {
                proof {
                    if lookup(s0, binding@) is Some {
                        let j = choose|j: int| 0 <= j < s0.len() && (#[trigger] s0[j]).0 == binding@;
                        assert(self.types@[j].0@ == binding@);
                    }
                }
                None
            },
        }
    }
}

/// The simple name of a declared type: its path joined with `::` when it
/// has no generic arguments.
pub open spec fn simple_name_of(ty: Option<&TypeExpr>) -> Option<Seq<char>> {
    match ty {
        Some(t) => match *t {
            TypeExpr::Named { path, args } => if args@.len() == 0 {
                Some(join(place_views(path@), "::"@))
            } else {
                None
            },
            _ => None,
        },
        None => None,
    }
}

/// The simple name of a declared type, if it has one.
pub fn simple_type_name(ty: Option<&TypeExpr>) -> (r: Option<String>)
    ensures
        match (r, simple_name_of(ty)) {
            (Some(a), Some(b)) => a@ == b,
            (None, None) => true,
            _ => false,
        },
{
    match ty {
        Some(t) => match t {
            TypeExpr::Named { path, args } => {
                if args.len() == 0 {
                    let r = crate::coherence::join_strings(path, "::");
                    assert(crate::coherence::seg_views(path@) =~= place_views(path@));
                    Some(r)
                } else {
                    None
                }
            },
            _ => None,
        },
        None => None,
    }
}

} // verus!
