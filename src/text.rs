//! Text ordering and comparison over character sequences.
use vstd::prelude::*;
use vstd::string::*;

verus! {

/// Lexicographic "strictly less" on character sequences, comparing
/// characters by code point (the order of `str`'s `Ord`).
pub open spec fn seq_lt(a: Seq<char>, b: Seq<char>) -> bool
    decreases a.len(),
{
    if b.len() == 0 {
        false
    } else if a.len() == 0 {
        true
    } else if a[0] != b[0] {
        a[0] < b[0]
    } else {
        seq_lt(a.drop_first(), b.drop_first())
    }
}

/// `a` sorts before or equal to `b`.
pub open spec fn seq_le(a: Seq<char>, b: Seq<char>) -> bool {
    a == b || seq_lt(a, b)
}

pub proof fn lemma_seq_lt_irreflexive(a: Seq<char>)
    ensures
        !seq_lt(a, a),
    decreases a.len(),
{
    if a.len() > 0 {
        lemma_seq_lt_irreflexive(a.drop_first());
    }
}

pub proof fn lemma_seq_lt_transitive(a: Seq<char>, b: Seq<char>, c: Seq<char>)
    requires
        seq_lt(a, b),
        seq_lt(b, c),
    ensures
        seq_lt(a, c),
    decreases a.len(),
{
    if a.len() > 0 && b.len() > 0 && c.len() > 0 {
        if a[0] == b[0] && b[0] == c[0] {
            lemma_seq_lt_transitive(a.drop_first(), b.drop_first(), c.drop_first());
        }
    }
}

pub proof fn lemma_seq_lt_total(a: Seq<char>, b: Seq<char>)
    ensures
        a == b || seq_lt(a, b) || seq_lt(b, a),
    decreases a.len(),
{
    if a.len() > 0 && b.len() > 0 {
        if a[0] == b[0] {
            lemma_seq_lt_total(a.drop_first(), b.drop_first());
            if a.drop_first() == b.drop_first() {
                assert(a =~= seq![a[0]] + a.drop_first());
                assert(b =~= seq![b[0]] + b.drop_first());
            }
        }
    } else if a.len() == 0 && b.len() == 0 {
        assert(a =~= b);
    }
}

pub proof fn lemma_seq_lt_asymmetric(a: Seq<char>, b: Seq<char>)
    requires
        seq_lt(a, b),
    ensures
        !seq_lt(b, a),
{
    if seq_lt(b, a) {
        lemma_seq_lt_transitive(a, b, a);
        lemma_seq_lt_irreflexive(a);
    }
}

proof fn lemma_seq_lt_step(a: Seq<char>, b: Seq<char>, i: int)
    requires
        0 <= i < a.len(),
        i < b.len(),
        a[i] == b[i],
    ensures
        seq_lt(a.skip(i), b.skip(i)) == seq_lt(a.skip(i + 1), b.skip(i + 1)),
{
    assert(a.skip(i).drop_first() =~= a.skip(i + 1));
    assert(b.skip(i).drop_first() =~= b.skip(i + 1));
}

/// Whether `a` sorts strictly before `b`.
pub fn text_lt(a: &str, b: &str) -> (r: bool)
    ensures
        r == seq_lt(a@, b@),
{
    let n = a.unicode_len();
    let m = b.unicode_len();
    let mut i: usize = 0;
    proof {
        assert(a@.skip(0) =~= a@);
        assert(b@.skip(0) =~= b@);
    }
    while i < n && i < m
        invariant
            n == a@.len(),
            m == b@.len(),
            i <= n,
            i <= m,
            seq_lt(a@, b@) == seq_lt(a@.skip(i as int), b@.skip(i as int)),
        decreases n - i,
    {
        let x = a.get_char(i);
        let y = b.get_char(i);
        if x != y {
            return x < y;
        }
        proof {
            lemma_seq_lt_step(a@, b@, i as int);
        }
        i = i + 1;
    }
    i < m
}

/// Whether `a` and `b` hold the same characters.
pub fn text_eq(a: &str, b: &str) -> (r: bool)
    ensures
        r == (a@ == b@),
{
    let n = a.unicode_len();
    let m = b.unicode_len();
    if n != m {
        return false;
    }
    let mut i: usize = 0;
    while i < n
        invariant
            n == a@.len(),
            m == b@.len(),
            n == m,
            i <= n,
            forall|k: int| 0 <= k < i ==> a@[k] == b@[k],
        decreases n - i,
    {
        if a.get_char(i) != b.get_char(i) {
            return false;
        }
        i = i + 1;
    }
    assert(a@ =~= b@);
    true
}

/// What `str::to_lowercase` makes of a character sequence.
pub uninterp spec fn lower_of(s: Seq<char>) -> Seq<char>;

/// Relies on `str::to_lowercase`: the lower-case form of `s`, a function of
/// its characters alone.
#[verifier::external_body]
pub(crate) fn lowercase(s: &str) -> (r: String)
    ensures
        r@ == lower_of(s@),
{
    s.to_lowercase()
}

/// Decimal digits of `n`, most significant first, without leading zeros.
pub open spec fn decimal(n: nat) -> Seq<char>
    decreases n,
{
    if n < 10 {
        seq![digit_char(n)]
    } else {
        decimal(n / 10) + seq![digit_char(n % 10)]
    }
}

pub open spec fn digit_char(d: nat) -> char {
    if d == 0 { '0' }
    else if d == 1 { '1' }
    else if d == 2 { '2' }
    else if d == 3 { '3' }
    else if d == 4 { '4' }
    else if d == 5 { '5' }
    else if d == 6 { '6' }
    else if d == 7 { '7' }
    else if d == 8 { '8' }
    else { '9' }
}

/// Relies on `usize`'s `to_string`: the decimal form of `n`.
#[verifier::external_body]
pub(crate) fn decimal_text(n: usize) -> (r: String)
    ensures
        r@ == decimal(n as nat),
{
    n.to_string()
}

/// Position `a` comes before position `b` when sorting by `keys` with ties
/// kept in their input order.
pub open spec fn key_before(keys: Seq<Seq<char>>, a: int, b: int) -> bool {
    seq_lt(keys[a], keys[b]) || (keys[a] == keys[b] && a < b)
}

/// `perm` lists every position of `keys` once, in stable ascending order
/// of the keys.
pub open spec fn stable_order(keys: Seq<Seq<char>>, perm: Seq<int>) -> bool {
    &&& perm.len() == keys.len()
    &&& forall|i: int| 0 <= i < perm.len() ==> 0 <= #[trigger] perm[i] < keys.len()
    &&& forall|x: int| 0 <= x < keys.len() ==> #[trigger] perm.contains(x)
    &&& forall|i: int, j: int|
        0 <= i < j < perm.len() ==> key_before(keys, #[trigger] perm[i], #[trigger] perm[j])
}

proof fn lemma_key_before_transitive(keys: Seq<Seq<char>>, a: int, b: int, c: int)
    requires
        key_before(keys, a, b),
        key_before(keys, b, c),
    ensures
        key_before(keys, a, c),
{
    if seq_lt(keys[a], keys[b]) && seq_lt(keys[b], keys[c]) {
        lemma_seq_lt_transitive(keys[a], keys[b], keys[c]);
    }
}

/// The character sequences of a sequence of strings.
pub open spec fn views_of(v: Seq<String>) -> Seq<Seq<char>> {
    v.map_values(|s: String| s@)
}

/// Positions as integers.
pub open spec fn as_ints(v: Seq<usize>) -> Seq<int> {
    v.map_values(|u: usize| u as int)
}

/// The positions of `keys` in stable ascending order of the keys.
pub fn stable_sort_order(keys: &Vec<String>) -> (r: Vec<usize>)
    ensures
        stable_order(views_of(keys@), as_ints(r@)),
{
    let ghost ks = views_of(keys@);
    let mut r: Vec<usize> = Vec::new();
    let n = keys.len();
    let mut i: usize = 0;
    while i < n
        invariant
            n == keys.len(),
            ks == views_of(keys@),
            ks.len() == n,
            i <= n,
            r.len() == i,
            forall|q: int| 0 <= q < r.len() ==> #[trigger] r@[q] < i,
            forall|x: int| 0 <= x < i ==> #[trigger] as_ints(r@).contains(x),
            forall|a: int, b: int|
                0 <= a < b < r.len() ==> key_before(ks, #[trigger] r@[a] as int, #[trigger] r@[b] as int),
        decreases n - i,
    {
        let mut p: usize = 0;
        while p < r.len() && !text_lt(keys[i].as_str(), keys[r[p]].as_str())
            invariant
                n == keys.len(),
                ks == views_of(keys@),
                ks.len() == n,
                i < n,
                r.len() == i,
                p <= r.len(),
                forall|q: int| 0 <= q < r.len() ==> #[trigger] r@[q] < i,
                forall|q: int| 0 <= q < p ==> key_before(ks, #[trigger] r@[q] as int, i as int),
            decreases r.len() - p,
        {
            proof {
                lemma_seq_lt_total(ks[r@[p as int] as int], ks[i as int]);
            }
            p = p + 1;
        }
        let ghost old_r = r@;
        r.insert(p, i);
        proof {
            assert(r@ == old_r.insert(p as int, i));
            let m = as_ints(r@);
            let om = as_ints(old_r);
            assert forall|x: int| 0 <= x < i + 1 implies #[trigger] m.contains(x) by {
                if x == i {
                    assert(m[p as int] == x);
                } else {
                    assert(om.contains(x));
                    let q = choose|q: int| 0 <= q < om.len() && om[q] == x;
                    if q < p {
                        assert(m[q] == x);
                    } else {
                        assert(m[q + 1] == x);
                    }
                }
            }
            assert forall|a: int, b: int| 0 <= a < b < r.len() implies key_before(
                ks,
                #[trigger] r@[a] as int,
                #[trigger] r@[b] as int,
            ) by {
                if b < p {
                    assert(r@[a] == old_r[a] && r@[b] == old_r[b]);
                } else if b == p {
                    assert(r@[a] == old_r[a]);
                } else if a < p {
                    assert(r@[a] == old_r[a] && r@[b] == old_r[b - 1]);
                    assert(key_before(ks, old_r[a] as int, i as int));
                    assert(key_before(ks, i as int, old_r[p as int] as int));
                    lemma_key_before_transitive(ks, old_r[a] as int, i as int, old_r[p as int] as int);
                    if b - 1 > p {
                        lemma_key_before_transitive(ks, old_r[a] as int, old_r[p as int] as int, old_r[b - 1] as int);
                    }
                } else if a == p {
                    assert(r@[b] == old_r[b - 1]);
                    assert(key_before(ks, i as int, old_r[p as int] as int));
                    if b - 1 > p {
                        lemma_key_before_transitive(ks, i as int, old_r[p as int] as int, old_r[b - 1] as int);
                    }
                } else {
                    assert(r@[a] == old_r[a - 1] && r@[b] == old_r[b - 1]);
                }
            }
        }
        i = i + 1;
    }
    proof {
        let m = as_ints(r@);
        assert forall|a: int, b: int| 0 <= a < b < m.len() implies key_before(ks, #[trigger] m[a], #[trigger] m[b]) by {
            assert(key_before(ks, r@[a] as int, r@[b] as int));
        }
    }
    r
}

/// `parts` with `sep` between consecutive parts.
pub open spec fn joined(parts: Seq<Seq<char>>, sep: Seq<char>) -> Seq<char>
    decreases parts.len(),
{
    if parts.len() == 0 {
        Seq::empty()
    } else if parts.len() == 1 {
        parts[0]
    } else {
        joined(parts.drop_last(), sep) + sep + parts.last()
    }
}

/// The strings of `parts` with `sep` between consecutive ones.
pub fn join_texts(parts: &Vec<String>, sep: &str) -> (r: String)
    ensures
        r@ == joined(views_of(parts@), sep@),
{
    let mut r = String::new();
    let mut i: usize = 0;
    while i < parts.len()
        invariant
            i <= parts.len(),
            r@ == joined(views_of(parts@).take(i as int), sep@),
        decreases parts.len() - i,
    {
        let ghost pre = views_of(parts@).take(i as int);
        let ghost next = views_of(parts@).take(i as int + 1);
        assert(next.drop_last() =~= pre);
        if i > 0 {
            r.append(sep);
        }
        r.append(parts[i].as_str());
        proof {
            if i == 0 {
                assert(r@ =~= next[0]);
            } else {
                assert(r@ =~= joined(pre, sep@) + sep@ + next.last());
            }
        }
        i = i + 1;
    }
    assert(views_of(parts@).take(parts.len() as int) =~= views_of(parts@));
    r
}

} // verus!
